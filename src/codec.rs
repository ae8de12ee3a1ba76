//! The field, struct and enum codecs, driven by schemas.

use vstd::prelude::*;
use crate::error::{cause_text, ConversionError, ErrorModel};
use crate::schema::{
    fields_valid, type_valid, variants_fields_valid, EnumSchema, FieldSpec, FieldType, VariantSpec,
};
use crate::text::{nat_text, push_decimal};
use crate::value::{
    assign, copy_value, key_text, lemma_entries_model, kind_text, lookup, KeyModel, LuaNumber, Table, TableKey, Value,
    ValueModel,
};

verus! {

/// The model of decoded data.
pub enum DataModel {
    Leaf(ValueModel),
    Record(Seq<DataModel>),
    Variant(nat, Seq<DataModel>),
    Absent,
    Present(Box<DataModel>),
}

/// A typed value as the codecs see it: a scalar, the fields of an aggregate
/// in declaration order, an enum variant (its index
/// in the schema) with its fields, or an optional value.
#[derive(Debug)]
pub enum Data {
    Leaf(Value),
    Record(Vec<Data>),
    Variant(usize, Vec<Data>),
    Absent,
    Present(Box<Data>),
}

/// The model of a datum.
pub open spec fn data_model(d: Data) -> DataModel
    decreases d,
{
    match d {
        Data::Leaf(v) => DataModel::Leaf(v@),
        Data::Record(ds) => DataModel::Record(data_seq_model(ds@)),
        Data::Variant(i, ds) => DataModel::Variant(i as nat, data_seq_model(ds@)),
        Data::Absent => DataModel::Absent,
        Data::Present(b) => DataModel::Present(Box::new(data_model(*b))),
    }
}

/// The models of a sequence of data.
pub open spec fn data_seq_model(s: Seq<Data>) -> Seq<DataModel>
    decreases s,
{
    if s.len() == 0 {
        Seq::empty()
    } else {
        data_seq_model(s.drop_last()).push(data_model(s.last()))
    }
}

impl View for Data {
    type V = DataModel;

    open spec fn view(&self) -> DataModel {
        data_model(*self)
    }
}

/// The model of each datum is the model of the sequence at that place.
pub proof fn lemma_data_seq_model(s: Seq<Data>)
    ensures
        data_seq_model(s).len() == s.len(),
        forall|i: int| 0 <= i < s.len() ==> #[trigger] data_seq_model(s)[i] == data_model(s[i]),
    decreases s.len(),
{
    if s.len() > 0 {
        lemma_data_seq_model(s.drop_last());
    }
}

/// The key of field `i`: its name, or its one-based position.
pub open spec fn field_key(f: FieldSpec, i: int) -> KeyModel {
    match f.name {
        Some(n) => KeyModel::Str(n@),
        None => KeyModel::Number((i + 1) as u32),
    }
}

/// The name of a leaf type in error reports.
pub open spec fn leaf_type_text(ty: FieldType) -> Seq<char> {
    match ty {
        FieldType::Boolean => "boolean"@,
        FieldType::Integer => "integer"@,
        FieldType::U32 => "u32"@,
        FieldType::Number => "number"@,
        FieldType::Text => "string"@,
        _ => "value"@,
    }
}

/// What a leaf type expects, in error reports.
pub open spec fn leaf_expectation(ty: FieldType) -> Seq<char> {
    match ty {
        FieldType::Boolean => "Expected a boolean"@,
        FieldType::Integer => "Expected an integer"@,
        FieldType::U32 => "Expected an integer in the u32 range"@,
        FieldType::Number => "Expected a number"@,
        _ => "Expected a string"@,
    }
}

/// Whether a value is accepted by a leaf type.
pub open spec fn leaf_accepts(v: ValueModel, ty: FieldType) -> bool {
    match ty {
        FieldType::Boolean => v is Boolean,
        FieldType::Integer => v is Integer,
        FieldType::U32 => v is Integer && 0 <= v->Integer_0 <= u32::MAX,
        FieldType::Number => v is Number || v is Integer,
        FieldType::Text => v is Str,
        _ => true,
    }
}

/// The error for a value that is not a table where one is needed.
pub open spec fn not_table(v: ValueModel, to: Seq<char>) -> ErrorModel {
    ErrorModel { from: kind_text(v), to, message: Some("Expected a table"@) }
}

/// The error for a field whose value failed to decode with `cause`.
pub open spec fn field_error(v: ValueModel, to: Seq<char>, k: KeyModel, cause: ErrorModel) -> ErrorModel {
    ErrorModel {
        from: kind_text(v),
        to,
        message: Some("field "@ + key_text(k) + ": "@ + cause_text(cause)),
    }
}

/// The error for an enum table without exactly one pair.
pub open spec fn cardinality_error(to: Seq<char>, n: nat) -> ErrorModel {
    ErrorModel {
        from: "table"@,
        to,
        message: Some("Externally tagged enum should have one field, but actually has "@ + nat_text(n)),
    }
}

/// The error for an enum table whose one key is not a string.
pub open spec fn tag_error(to: Seq<char>) -> ErrorModel {
    ErrorModel { from: "table"@, to, message: Some("Externally tagged enum key should be a string"@) }
}

/// The error for a tag that names no variant with a payload.
pub open spec fn unknown_variant_error(to: Seq<char>, name: Seq<char>) -> ErrorModel {
    ErrorModel { from: "table"@, to, message: Some("Unknown variant name: "@ + name) }
}

/// Whether variant `i` is the first of the given unit-ness under `name`.
pub open spec fn is_first_variant(vs: Seq<VariantSpec>, name: Seq<char>, unit: bool, i: int) -> bool {
    &&& 0 <= i < vs.len()
    &&& vs[i].is_unit == unit && vs[i].name@ == name
    &&& forall|j: int| 0 <= j < i ==> !(vs[j].is_unit == unit && #[trigger] vs[j].name@ == name)
}

/// The first variant of the given unit-ness under `name`, if any.
pub open spec fn variant_index(vs: Seq<VariantSpec>, name: Seq<char>, unit: bool) -> Option<int> {
    if exists|i: int| is_first_variant(vs, name, unit, i) {
        Some(choose|i: int| is_first_variant(vs, name, unit, i))
    } else {
        None
    }
}

/// Decoding a value as a type.
pub open spec fn decode_spec(v: ValueModel, ty: FieldType) -> Result<DataModel, ErrorModel>
    decreases ty,
{
    match ty {
        FieldType::Struct(s) => match v {
            ValueModel::Table(m) => match decode_fields_spec(m, s.name@, s.fields@) {
                Ok(ds) => Ok(DataModel::Record(ds)),
                Err(e) => Err(e),
            },
            _ => Err(not_table(v, s.name@)),
        },
        FieldType::Enum(e) => decode_enum_spec(v, e),
        FieldType::Optional(b) => if v == ValueModel::Nil {
            Ok(DataModel::Absent)
        } else {
            match decode_spec(v, *b) {
                Ok(d) => Ok(DataModel::Present(Box::new(d))),
                Err(e) => Err(e),
            }
        },
        _ => if leaf_accepts(v, ty) {
            Ok(DataModel::Leaf(v))
        } else {
            Err(ErrorModel {
                from: kind_text(v),
                to: leaf_type_text(ty),
                message: Some(leaf_expectation(ty)),
            })
        },
    }
}

/// Decoding an enum: a unit variant from its bare name, or the one pair of
/// a table from its tag and its payload table.
pub open spec fn decode_enum_spec(v: ValueModel, e: EnumSchema) -> Result<DataModel, ErrorModel>
    decreases e,
{
    let vs = e.variants@;
    if v is Str && variant_index(vs, v->Str_0, true) is Some {
        Ok(DataModel::Variant(variant_index(vs, v->Str_0, true)->Some_0 as nat, Seq::empty()))
    } else {
        match v {
            ValueModel::Table(m) => if m.len() != 1 {
                Err(cardinality_error(e.name@, m.len()))
            } else if m[0].0 is Number {
                Err(tag_error(e.name@))
            } else {
                let name = m[0].0->Str_0;
                match variant_index(vs, name, false) {
                    None => Err(unknown_variant_error(e.name@, name)),
                    Some(i) => match m[0].1 {
                        ValueModel::Table(n) => if 0 <= i < vs.len() {
                            match decode_fields_spec(n, e.name@, vs[i].fields@) {
                                Ok(ds) => Ok(DataModel::Variant(i as nat, ds)),
                                Err(x) => Err(x),
                            }
                        } else {
                            Err(unknown_variant_error(e.name@, name))
                        },
                        p => Err(not_table(p, e.name@)),
                    },
                }
            },
            _ => Err(not_table(v, e.name@)),
        }
    }
}

/// Decoding the fields of an aggregate from a table, in order, up to the
/// first failure.
pub open spec fn decode_fields_spec(m: Seq<(KeyModel, ValueModel)>, to: Seq<char>, fs: Seq<FieldSpec>) -> Result<Seq<DataModel>, ErrorModel>
    decreases fs,
{
    if fs.len() == 0 {
        Ok(Seq::empty())
    } else {
        match decode_fields_spec(m, to, fs.drop_last()) {
            Err(e) => Err(e),
            Ok(ds) => match read_field_spec(m, to, fs.last(), fs.len() - 1) {
                Ok(d) => Ok(ds.push(d)),
                Err(e) => Err(e),
            },
        }
    }
}

/// Decoding field `i`: a missing value of a defaulted field gives the
/// type's default; a failure is wrapped with the field's key.
pub open spec fn read_field_spec(m: Seq<(KeyModel, ValueModel)>, to: Seq<char>, f: FieldSpec, i: int) -> Result<DataModel, ErrorModel>
    decreases f,
{
    let k = field_key(f, i);
    let v = lookup(m, k);
    if f.has_default && v == ValueModel::Nil {
        Ok(default_spec(f.ty))
    } else {
        match decode_spec(v, f.ty) {
            Ok(d) => Ok(d),
            Err(e) => Err(field_error(v, to, k, e)),
        }
    }
}

/// The default of a type: false, zero, the empty string, nil, absence, the
/// empty list; for an aggregate or an enum the default registered for it,
/// else an aggregate of defaults, or the first variant with defaults for its
/// fields.
pub open spec fn default_spec(ty: FieldType) -> DataModel
    decreases ty,
{
    match ty {
        FieldType::Boolean => DataModel::Leaf(ValueModel::Boolean(false)),
        FieldType::Integer => DataModel::Leaf(ValueModel::Integer(0)),
        FieldType::U32 => DataModel::Leaf(ValueModel::Integer(0)),
        FieldType::Number => DataModel::Leaf(ValueModel::Number(0, "0"@)),
        FieldType::Text => DataModel::Leaf(ValueModel::Str(Seq::empty())),
        FieldType::Any => DataModel::Leaf(ValueModel::Nil),
        FieldType::Optional(_) => DataModel::Absent,
        FieldType::Struct(s) => match s.default {
            Some(d) => d@,
            None => DataModel::Record(defaults_spec(s.fields@)),
        },
        FieldType::Enum(e) => if e.default is Some {
            e.default->Some_0@
        } else if e.variants@.len() > 0 {
            DataModel::Variant(0, defaults_spec(e.variants@[0].fields@))
        } else {
            DataModel::Leaf(ValueModel::Nil)
        },
    }
}

/// The defaults of a field list.
pub open spec fn defaults_spec(fs: Seq<FieldSpec>) -> Seq<DataModel>
    decreases fs,
{
    if fs.len() == 0 {
        Seq::empty()
    } else {
        defaults_spec(fs.drop_last()).push(default_spec(fs.last().ty))
    }
}

/// Whether a datum has the shape of a type.
pub open spec fn conforms(d: DataModel, ty: FieldType) -> bool
    decreases ty,
{
    match ty {
        FieldType::Struct(s) => d is Record && fields_conform(d->Record_0, s.fields@),
        FieldType::Enum(e) => d is Variant && d->Variant_0 < e.variants@.len()
            && variant_conforms(d->Variant_1, e, d->Variant_0 as int),
        FieldType::Optional(b) => d is Absent || (d is Present && conforms(*d->Present_0, *b)
            && encode_spec(*d->Present_0, *b) != ValueModel::Nil),
        _ => d is Leaf && leaf_accepts(d->Leaf_0, ty),
    }
}

/// Whether data have the shape of the fields of variant `i`.
pub open spec fn variant_conforms(ds: Seq<DataModel>, e: EnumSchema, i: int) -> bool
    decreases e,
{
    0 <= i < e.variants@.len() && fields_conform(ds, e.variants@[i].fields@)
}

/// Whether data have the shape of a field list.
pub open spec fn fields_conform(ds: Seq<DataModel>, fs: Seq<FieldSpec>) -> bool
    decreases fs,
{
    &&& ds.len() == fs.len()
    &&& fs.len() == 0 || (fields_conform(ds.drop_last(), fs.drop_last()) && conforms(ds.last(), fs.last().ty))
}

/// Encoding a datum of a type.
pub open spec fn encode_spec(d: DataModel, ty: FieldType) -> ValueModel
    decreases ty,
{
    match ty {
        FieldType::Struct(s) => match d {
            DataModel::Record(ds) => ValueModel::Table(encode_fields_spec(ds, s.fields@)),
            _ => ValueModel::Nil,
        },
        FieldType::Enum(e) => encode_enum_spec(d, e),
        FieldType::Optional(b) => match d {
            DataModel::Present(x) => encode_spec(*x, *b),
            _ => ValueModel::Nil,
        },
        _ => match d {
            DataModel::Leaf(v) => v,
            _ => ValueModel::Nil,
        },
    }
}

/// Encoding an enum: a unit variant as its bare name, another as a table
/// with one pair from its name to the table of its fields.
pub open spec fn encode_enum_spec(d: DataModel, e: EnumSchema) -> ValueModel
    decreases e,
{
    match d {
        DataModel::Variant(i, ds) => if i < e.variants@.len() {
            let var = e.variants@[i as int];
            if var.is_unit {
                ValueModel::Str(var.name@)
            } else {
                ValueModel::Table(seq![(
                    KeyModel::Str(var.name@),
                    ValueModel::Table(encode_fields_spec(ds, var.fields@)),
                )])
            }
        } else {
            ValueModel::Nil
        },
        _ => ValueModel::Nil,
    }
}

/// Encoding the fields of an aggregate: each written under its key, in order,
/// into an empty table.
pub open spec fn encode_fields_spec(ds: Seq<DataModel>, fs: Seq<FieldSpec>) -> Seq<(KeyModel, ValueModel)>
    decreases fs,
{
    if fs.len() == 0 || ds.len() < fs.len() {
        Seq::empty()
    } else {
        assign(
            encode_fields_spec(ds, fs.drop_last()),
            field_key(fs.last(), fs.len() - 1),
            encode_spec(ds[fs.len() - 1], fs.last().ty),
        )
    }
}

/// The model of a decoding result.
pub open spec fn data_result(r: Result<Data, ConversionError>) -> Result<DataModel, ErrorModel> {
    match r {
        Ok(d) => Ok(d@),
        Err(e) => Err(e@),
    }
}

/// The model of a result of decoding fields.
pub open spec fn fields_result(r: Result<Vec<Data>, ConversionError>) -> Result<Seq<DataModel>, ErrorModel> {
    match r {
        Ok(ds) => Ok(data_seq_model(ds@)),
        Err(e) => Err(e@),
    }
}

/// Each field of a valid list has a valid type, and positional keys fit.
pub proof fn lemma_fields_valid(fs: Seq<FieldSpec>)
    requires
        fields_valid(fs),
    ensures
        forall|i: int| 0 <= i < fs.len() ==> type_valid(#[trigger] fs[i].ty),
    decreases fs.len(),
{
    if fs.len() > 0 {
        lemma_fields_valid(fs.drop_last());
        assert forall|i: int| 0 <= i < fs.len() implies type_valid(#[trigger] fs[i].ty) by {
            if i < fs.len() - 1 {
                assert(fs.drop_last()[i] == fs[i]);
            }
        }
    }
}

/// Each variant of a valid list has valid fields, none for a unit variant.
pub proof fn lemma_variants_valid(vs: Seq<VariantSpec>)
    requires
        variants_fields_valid(vs),
    ensures
        forall|i: int| 0 <= i < vs.len() ==> fields_valid(#[trigger] vs[i].fields@)
            && (vs[i].is_unit ==> vs[i].fields@.len() == 0),
    decreases vs.len(),
{
    if vs.len() > 0 {
        lemma_variants_valid(vs.drop_last());
        assert forall|i: int| 0 <= i < vs.len() implies fields_valid(#[trigger] vs[i].fields@)
            && (vs[i].is_unit ==> vs[i].fields@.len() == 0) by {
            if i < vs.len() - 1 {
                assert(vs.drop_last()[i] == vs[i]);
            }
        }
    }
}

/// A first match found by a scan is the one the model names.
proof fn lemma_variant_index(vs: Seq<VariantSpec>, name: Seq<char>, unit: bool, i: int)
    requires
        is_first_variant(vs, name, unit, i),
    ensures
        variant_index(vs, name, unit) == Some(i),
{
    let c = choose|c: int| is_first_variant(vs, name, unit, c);
    assert(is_first_variant(vs, name, unit, c));
    if c < i {
        assert(vs[c].name@ == name);
    } else if i < c {
        assert(vs[i].name@ == name);
    }
}

/// The error `{from, to, message}`.
fn make_error(from: &str, to: &str, message: String) -> (r: ConversionError)
    ensures
        r@ == (ErrorModel { from: from@, to: to@, message: Some(message@) }),
{
    ConversionError { from: String::from_str(from), to: String::from_str(to), message: Some(message) }
}

/// The value as a table, or an error naming the type wanted.
pub fn expect_table(value: Value, target_type: &str) -> (r: Result<Table, ConversionError>)
    ensures
        match r {
            Ok(t) => value@ == ValueModel::Table(t@),
            Err(e) => !(value@ is Table) && e@ == not_table(value@, target_type@),
        },
{
    match value {
        Value::Table(t) => Ok(t),
        _ => {
            let from = value.kind_name();
            Err(make_error(from, target_type, String::from_str("Expected a table")))
        },
    }
}

/// The tag of an externally tagged enum.
#[derive(Debug)]
pub enum EnumVariant {
    Named(String),
}

/// The one pair of an externally tagged enum's table: the tag, as text, and
/// the payload.
pub fn parse_enum_externally_tagged(target_type: &str, table: &Table) -> (r: Result<(EnumVariant, Value), ConversionError>)
    ensures
        match r {
            Ok((EnumVariant::Named(name), payload)) => table@.len() == 1
                && table@[0].0 == KeyModel::Str(name@) && payload@ == table@[0].1,
            Err(e) => if table@.len() != 1 {
                e@ == cardinality_error(target_type@, table@.len())
            } else {
                table@[0].0 is Number && e@ == tag_error(target_type@)
            },
        },
{
    let len = table.len();
    if len == 1 {
        proof { lemma_entries_model(table.entries@); }
        match &table.entries[0].0 {
            TableKey::Str(s) => {
                let payload = copy_value(&table.entries[0].1);
                Ok((EnumVariant::Named(s.clone()), payload))
            },
            TableKey::Number(_) => Err(make_error(
                "table",
                target_type,
                String::from_str("Externally tagged enum key should be a string"),
            )),
        }
    } else {
        let mut message = String::from_str("Externally tagged enum should have one field, but actually has ");
        push_decimal(&mut message, len as u64);
        Err(ConversionError {
            from: String::from_str("table"),
            to: String::from_str(target_type),
            message: Some(message),
        })
    }
}

/// The first variant of the given unit-ness named `name`.
fn find_variant(vs: &Vec<VariantSpec>, name: &String, unit: bool) -> (r: Option<usize>)
    ensures
        match r {
            Some(i) => variant_index(vs@, name@, unit) == Some(i as int),
            None => variant_index(vs@, name@, unit) is None,
        },
{
    let mut i: usize = 0;
    while i < vs.len()
        invariant
            i <= vs@.len(),
            forall|j: int| 0 <= j < i ==> !(vs@[j].is_unit == unit && #[trigger] vs@[j].name@ == name@),
        decreases vs@.len() - i,
    {
        if vs[i].is_unit == unit && vs[i].name.eq(name) {
            proof { lemma_variant_index(vs@, name@, unit, i as int); }
            return Some(i);
        }
        i = i + 1;
    }
    None
}

/// Decodes a value as a type.
pub fn decode(v: &Value, ty: &FieldType) -> (r: Result<Data, ConversionError>)
    requires
        type_valid(*ty),
    ensures
        data_result(r) == decode_spec(v@, *ty),
    decreases ty,
{
    match ty {
        FieldType::Struct(s) => match v {
            Value::Table(t) => match decode_struct(t, s.name.as_str(), &s.fields) {
                Ok(ds) => Ok(Data::Record(ds)),
                Err(e) => Err(e),
            },
            _ => Err(make_error(v.kind_name(), s.name.as_str(), String::from_str("Expected a table"))),
        },
        FieldType::Enum(e) => decode_enum(v, e),
        FieldType::Optional(b) => if matches!(v, Value::Nil) {
            Ok(Data::Absent)
        } else {
            match decode(v, b) {
                Ok(d) => Ok(Data::Present(Box::new(d))),
                Err(e) => Err(e),
            }
        },
        _ => {
            let ok = match ty {
                FieldType::Boolean => matches!(v, Value::Boolean(_)),
                FieldType::Integer => matches!(v, Value::Integer(_)),
                FieldType::U32 => match v {
                    Value::Integer(i) => 0 <= *i && *i <= 4294967295i64,
                    _ => false,
                },
                FieldType::Number => matches!(v, Value::Number(_)) || matches!(v, Value::Integer(_)),
                FieldType::Text => matches!(v, Value::Str(_)),
                _ => true,
            };
            if ok {
                Ok(Data::Leaf(copy_value(v)))
            } else {
                let (to, expectation) = match ty {
                    FieldType::Boolean => ("boolean", "Expected a boolean"),
                    FieldType::Integer => ("integer", "Expected an integer"),
                    FieldType::U32 => ("u32", "Expected an integer in the u32 range"),
                    FieldType::Number => ("number", "Expected a number"),
                    _ => ("string", "Expected a string"),
                };
                Err(make_error(v.kind_name(), to, String::from_str(expectation)))
            }
        },
    }
}

/// Decodes the fields of an aggregate from a table, in declaration order,
/// stopping at the first failure.
pub fn decode_struct(table: &Table, target_type: &str, fields: &Vec<FieldSpec>) -> (r: Result<Vec<Data>, ConversionError>)
    requires
        fields_valid(fields@),
    ensures
        fields_result(r) == decode_fields_spec(table@, target_type@, fields@),
    decreases fields,
{
    proof { lemma_fields_valid(fields@); }
    let mut out: Vec<Data> = Vec::new();
    let mut i: usize = 0;
    while i < fields.len()
        invariant
            i <= fields@.len(),
            fields@.len() < u32::MAX,
            forall|j: int| 0 <= j < fields@.len() ==> type_valid(#[trigger] fields@[j].ty),
            decode_fields_spec(table@, target_type@, fields@.take(i as int)) == Ok::<Seq<DataModel>, ErrorModel>(data_seq_model(out@)),
        decreases fields@.len() - i,
    {
        let ghost prefix = fields@.take(i as int + 1);
        assert(prefix.drop_last() =~= fields@.take(i as int));
        assert(prefix.last() == fields@[i as int]);
        proof {
            assert(decreases_to!(fields => fields@));
            assert(decreases_to!(fields@ => fields@[i as int]));
        }
        let ghost before = out@;
        let res = parse_field(table, target_type, &fields[i], i);
        assert(decode_fields_spec(table@, target_type@, prefix) == match decode_fields_spec(table@, target_type@, prefix.drop_last()) {
            Err(e) => Err(e),
            Ok(ds) => match read_field_spec(table@, target_type@, prefix.last(), prefix.len() - 1) {
                Ok(d) => Ok(ds.push(d)),
                Err(e) => Err(e),
            },
        });
        match res {
            Ok(d) => {
                out.push(d);
                assert(out@.drop_last() =~= before);
            },
            Err(e) => {
                proof { lemma_fields_error_stays(table@, target_type@, fields@, i as int + 1); }
                return Err(e);
            },
        }
        i = i + 1;
    }
    assert(fields@.take(i as int) =~= fields@);
    Ok(out)
}

/// A failure on a prefix of the fields is the failure of the whole list.
pub proof fn lemma_fields_error_stays(m: Seq<(KeyModel, ValueModel)>, to: Seq<char>, fs: Seq<FieldSpec>, n: int)
    requires
        0 <= n <= fs.len(),
        decode_fields_spec(m, to, fs.take(n)) is Err,
    ensures
        decode_fields_spec(m, to, fs) == decode_fields_spec(m, to, fs.take(n)),
    decreases fs.len() - n,
{
    if n < fs.len() {
        let p = fs.take(n + 1);
        assert(p.drop_last() =~= fs.take(n));
        lemma_fields_error_stays(m, to, fs, n + 1);
    } else {
        assert(fs.take(n) =~= fs);
    }
}

/// The error for the value under `key` failing with `cause`.
fn wrap_field_error(val: &Value, to: &str, key: &TableKey, cause: &ConversionError) -> (r: ConversionError)
    ensures
        r@ == field_error(val@, to@, key@, cause@),
{
    let mut message = String::from_str("field ");
    key.push_text(&mut message);
    message.append(": ");
    cause.push_cause(&mut message);
    make_error(val.kind_name(), to, message)
}

/// A deep copy of a datum.
pub fn copy_data(d: &Data) -> (r: Data)
    ensures
        r@ == d@,
    decreases d,
{
    match d {
        Data::Leaf(v) => Data::Leaf(copy_value(v)),
        Data::Record(ds) => Data::Record(copy_data_seq(ds)),
        Data::Variant(i, ds) => Data::Variant(*i, copy_data_seq(ds)),
        Data::Absent => Data::Absent,
        Data::Present(b) => Data::Present(Box::new(copy_data(b))),
    }
}

/// A deep copy of a sequence of data.
pub fn copy_data_seq(ds: &Vec<Data>) -> (r: Vec<Data>)
    ensures
        data_seq_model(r@) == data_seq_model(ds@),
    decreases ds,
{
    let mut out: Vec<Data> = Vec::new();
    let mut i: usize = 0;
    while i < ds.len()
        invariant
            i <= ds@.len(),
            data_seq_model(out@) == data_seq_model(ds@.take(i as int)),
        decreases ds@.len() - i,
    {
        let ghost p = ds@.take(i as int + 1);
        assert(p.drop_last() =~= ds@.take(i as int));
        assert(p.last() == ds@[i as int]);
        proof {
            assert(decreases_to!(ds => ds@));
            assert(decreases_to!(ds@ => ds@[i as int]));
        }
        let ghost before = out@;
        let c = copy_data(&ds[i]);
        out.push(c);
        assert(out@.drop_last() =~= before);
        i = i + 1;
    }
    assert(ds@.take(i as int) =~= ds@);
    out
}

/// Decodes field `idx` of a table, under its name or its one-based position.
pub fn parse_field(table: &Table, target_type: &str, f: &FieldSpec, idx: usize) -> (r: Result<Data, ConversionError>)
    requires
        type_valid(f.ty),
        idx < u32::MAX,
    ensures
        data_result(r) == read_field_spec(table@, target_type@, *f, idx as int),
    decreases f,
{
    let key = match &f.name {
        Some(n) => TableKey::Str(n.clone()),
        None => TableKey::Number((idx + 1) as u32),
    };
    assert(key@ == field_key(*f, idx as int));
    let val = table.get(&key);
    if f.has_default && matches!(val, Value::Nil) {
        Ok(default_data(&f.ty))
    } else {
        match decode(&val, &f.ty) {
            Ok(d) => Ok(d),
            Err(cause) => Err(wrap_field_error(&val, target_type, &key, &cause)),
        }
    }
}

/// Decodes an enum from its externally tagged form.
pub fn decode_enum(v: &Value, e: &EnumSchema) -> (r: Result<Data, ConversionError>)
    requires
        variants_fields_valid(e.variants@),
    ensures
        data_result(r) == decode_enum_spec(v@, *e),
    decreases e,
{
    if let Value::Str(s) = v {
        if let Some(i) = find_variant(&e.variants, s, true) {
            let empty: Vec<Data> = Vec::new();
            assert(data_seq_model(empty@) == Seq::<DataModel>::empty());
            assert(v@ == ValueModel::Str(s@));
            return Ok(Data::Variant(i, empty));
        }
    }
    match v {
        Value::Table(t) => {
            let (variant, payload) = match parse_enum_externally_tagged(e.name.as_str(), t) {
                Ok(pair) => pair,
                Err(x) => return Err(x),
            };
            let EnumVariant::Named(name) = variant;
            match find_variant(&e.variants, &name, false) {
                None => {
                    let mut message = String::from_str("Unknown variant name: ");
                    message.append(name.as_str());
                    Err(make_error("table", e.name.as_str(), message))
                },
                Some(i) => {
                    let nested = match expect_table(payload, e.name.as_str()) {
                        Ok(n) => n,
                        Err(x) => return Err(x),
                    };
                    proof {
                        lemma_variants_valid(e.variants@);
                        assert(decreases_to!(e => e.variants));
                        assert(decreases_to!(e.variants => e.variants@));
                        assert(decreases_to!(e.variants@ => e.variants@[i as int]));
                        assert(decreases_to!(e.variants@[i as int] => e.variants@[i as int].fields));
                    }
                    match decode_struct(&nested, e.name.as_str(), &e.variants[i].fields) {
                        Ok(ds) => Ok(Data::Variant(i, ds)),
                        Err(x) => Err(x),
                    }
                },
            }
        },
        _ => Err(make_error(v.kind_name(), e.name.as_str(), String::from_str("Expected a table"))),
    }
}

/// The default of a type.
pub fn default_data(ty: &FieldType) -> (r: Data)
    ensures
        r@ == default_spec(*ty),
    decreases ty,
{
    match ty {
        FieldType::Boolean => Data::Leaf(Value::Boolean(false)),
        FieldType::Integer => Data::Leaf(Value::Integer(0)),
        FieldType::U32 => Data::Leaf(Value::Integer(0)),
        FieldType::Number => Data::Leaf(Value::Number(LuaNumber { bits: 0, text: String::from_str("0") })),
        FieldType::Text => Data::Leaf(Value::Str(String::new())),
        FieldType::Any => Data::Leaf(Value::Nil),
        FieldType::Optional(_) => Data::Absent,
        FieldType::Struct(s) => match &s.default {
            Some(d) => copy_data(d),
            None => Data::Record(default_fields(&s.fields)),
        },
        FieldType::Enum(e) => if let Some(d) = &e.default {
            copy_data(d)
        } else if e.variants.len() > 0 {
            proof {
                assert(decreases_to!(e.variants@ => e.variants@[0]));
            }
            Data::Variant(0, default_fields(&e.variants[0].fields))
        } else {
            Data::Leaf(Value::Nil)
        },
    }
}

/// The defaults of a field list.
pub fn default_fields(fields: &Vec<FieldSpec>) -> (r: Vec<Data>)
    ensures
        data_seq_model(r@) == defaults_spec(fields@),
    decreases fields,
{
    let mut out: Vec<Data> = Vec::new();
    let mut i: usize = 0;
    while i < fields.len()
        invariant
            i <= fields@.len(),
            data_seq_model(out@) == defaults_spec(fields@.take(i as int)),
        decreases fields@.len() - i,
    {
        let ghost prefix = fields@.take(i as int + 1);
        assert(prefix.drop_last() =~= fields@.take(i as int));
        proof {
            assert(decreases_to!(fields => fields@));
            assert(decreases_to!(fields@ => fields@[i as int]));
        }
        let ghost before = out@;
        let d = default_data(&fields[i].ty);
        out.push(d);
        assert(out@.drop_last() =~= before);
        assert(prefix.last() == fields@[i as int]);
        i = i + 1;
    }
    assert(fields@.take(i as int) =~= fields@);
    out
}

/// Data that conform to a field list conform field by field.
pub proof fn lemma_fields_conform(ds: Seq<DataModel>, fs: Seq<FieldSpec>)
    requires
        fields_conform(ds, fs),
    ensures
        ds.len() == fs.len(),
        forall|i: int| 0 <= i < fs.len() ==> conforms(#[trigger] ds[i], fs[i].ty),
    decreases fs.len(),
{
    if fs.len() > 0 {
        lemma_fields_conform(ds.drop_last(), fs.drop_last());
        assert forall|i: int| 0 <= i < fs.len() implies conforms(#[trigger] ds[i], fs[i].ty) by {
            if i < fs.len() - 1 {
                assert(ds.drop_last()[i] == ds[i]);
                assert(fs.drop_last()[i] == fs[i]);
            }
        }
    }
}

/// Writes field `idx`'s value under its key: `t[key] = value`.
pub fn write_field(table: &mut Table, f: &FieldSpec, idx: usize, value: Value)
    requires
        idx < u32::MAX,
    ensures
        final(table)@ == assign(old(table)@, field_key(*f, idx as int), value@),
        old(table).wf() ==> final(table).wf(),
{
    let key = match &f.name {
        Some(n) => TableKey::Str(n.clone()),
        None => TableKey::Number((idx + 1) as u32),
    };
    table.set(key, value);
}

/// Encodes a datum of a type.
pub fn encode(d: &Data, ty: &FieldType) -> (r: Value)
    requires
        type_valid(*ty),
        conforms(d@, *ty),
    ensures
        r@ == encode_spec(d@, *ty),
    decreases ty,
{
    match ty {
        FieldType::Struct(s) => match d {
            Data::Record(ds) => Value::Table(encode_struct(ds, &s.fields)),
            _ => Value::Nil,
        },
        FieldType::Enum(e) => encode_enum(d, e),
        FieldType::Optional(b) => match d {
            Data::Present(x) => encode(x, b),
            _ => Value::Nil,
        },
        _ => match d {
            Data::Leaf(v) => copy_value(v),
            _ => Value::Nil,
        },
    }
}

/// Encodes the fields of an aggregate into a new table, each under its key.
pub fn encode_struct(ds: &Vec<Data>, fields: &Vec<FieldSpec>) -> (r: Table)
    requires
        fields_valid(fields@),
        fields_conform(data_seq_model(ds@), fields@),
    ensures
        r@ == encode_fields_spec(data_seq_model(ds@), fields@),
        r.wf(),
    decreases fields,
{
    let ghost dm = data_seq_model(ds@);
    proof {
        lemma_fields_valid(fields@);
        lemma_fields_conform(dm, fields@);
        lemma_data_seq_model(ds@);
    }
    let mut table = Table::new();
    let mut i: usize = 0;
    while i < fields.len()
        invariant
            i <= fields@.len(),
            fields@.len() < u32::MAX,
            dm == data_seq_model(ds@),
            dm.len() == fields@.len(),
            ds@.len() == fields@.len(),
            forall|j: int| 0 <= j < fields@.len() ==> type_valid(#[trigger] fields@[j].ty),
            forall|j: int| 0 <= j < fields@.len() ==> conforms(#[trigger] dm[j], fields@[j].ty),
            forall|j: int| 0 <= j < ds@.len() ==> #[trigger] dm[j] == data_model(ds@[j]),
            table@ == encode_fields_spec(dm, fields@.take(i as int)),
            table.wf(),
        decreases fields@.len() - i,
    {
        let ghost prefix = fields@.take(i as int + 1);
        assert(prefix.drop_last() =~= fields@.take(i as int));
        assert(prefix.last() == fields@[i as int]);
        proof {
            assert(decreases_to!(fields => fields@));
            assert(decreases_to!(fields@ => fields@[i as int]));
            assert(conforms(dm[i as int], fields@[i as int].ty));
        }
        let v = encode(&ds[i], &fields[i].ty);
        write_field(&mut table, &fields[i], i, v);
        i = i + 1;
    }
    assert(fields@.take(i as int) =~= fields@);
    table
}

/// Encodes an enum in its externally tagged form.
pub fn encode_enum(d: &Data, e: &EnumSchema) -> (r: Value)
    requires
        variants_fields_valid(e.variants@),
        conforms(d@, FieldType::Enum(*e)),
    ensures
        r@ == encode_enum_spec(d@, *e),
    decreases e,
{
    match d {
        Data::Variant(i, ds) => {
            let i = *i;
            proof {
                lemma_variants_valid(e.variants@);
                assert(decreases_to!(e => e.variants));
                assert(decreases_to!(e.variants => e.variants@));
                assert(decreases_to!(e.variants@ => e.variants@[i as int]));
                assert(decreases_to!(e.variants@[i as int] => e.variants@[i as int].fields));
            }
            let var = &e.variants[i];
            assert(conforms(d@, FieldType::Enum(*e)));
            assert(variant_conforms(data_seq_model(ds@), *e, i as int));
            if var.is_unit {
                Value::Str(var.name.clone())
            } else {
                let nested = encode_struct(ds, &var.fields);
                let mut outer = Table::new();
                outer.set(TableKey::Str(var.name.clone()), Value::Table(nested));
                assert(outer@ =~= seq![(KeyModel::Str(var.name@), ValueModel::Table(encode_fields_spec(data_seq_model(ds@), var.fields@)))]);
                Value::Table(outer)
            }
        },
        _ => Value::Nil,
    }
}

} // verus!
