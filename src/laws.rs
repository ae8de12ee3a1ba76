//! Properties that relate the codecs' functions to each other.

use vstd::prelude::*;
use crate::codec::{
    cardinality_error, conforms, variant_conforms, tag_error, field_error, lemma_fields_conform, lemma_fields_error_stays,
    lemma_variants_valid, unknown_variant_error, decode_enum_spec, decode_fields_spec, decode_spec, default_spec, encode_enum_spec,
    encode_fields_spec, encode_spec, field_key, fields_conform, is_first_variant, read_field_spec,
    variant_index, DataModel,
};
use crate::text::nat_text;
use crate::tostring::{key_label, render, render_entries};
use crate::error::{cause_text, ErrorModel};
use crate::schema::{
    fields_valid, same_key, type_valid, variants_distinct, EnumSchema, FieldSpec, FieldType,
    StructSchema, VariantSpec,
};
use crate::value::{
    assign, has_key, key_text, lemma_lookup_missing, lemma_lookup_assign_other, lemma_lookup_assign_same, lookup, KeyModel, ValueModel,
};

verus! {

/// Fields of a valid list that differ sit under different keys.
proof fn lemma_keys_distinct(fs: Seq<FieldSpec>, i: int, j: int)
    requires
        fields_valid(fs),
        0 <= i < fs.len(),
        0 <= j < fs.len(),
        i != j,
    ensures
        field_key(fs[i], i) != field_key(fs[j], j),
{
    if i < j {
        assert(!same_key(fs, i, j));
    } else {
        assert(!same_key(fs, j, i));
    }
}

/// A valid field list, less its last field, is valid.
proof fn lemma_fields_valid_prefix(fs: Seq<FieldSpec>)
    requires
        fields_valid(fs),
        fs.len() > 0,
    ensures
        fields_valid(fs.drop_last()),
        type_valid(fs.last().ty),
{
}

/// In the table that encodes a field list, each field's key holds the
/// encoding of its datum, and no other key is present.
proof fn lemma_encode_fields_lookup(ds: Seq<DataModel>, fs: Seq<FieldSpec>)
    requires
        fields_valid(fs),
        ds.len() >= fs.len(),
    ensures
        forall|i: int| 0 <= i < fs.len() ==>
            #[trigger] lookup(encode_fields_spec(ds, fs), field_key(fs[i], i)) == encode_spec(ds[i], fs[i].ty),
        forall|k: KeyModel| #[trigger] has_key(encode_fields_spec(ds, fs), k) ==>
            exists|i: int| 0 <= i < fs.len() && field_key(fs[i], i) == k,
    decreases fs.len(),
{
    if fs.len() > 0 {
        let p = fs.drop_last();
        let n = fs.len() - 1;
        lemma_fields_valid_prefix(fs);
        lemma_encode_fields_lookup(ds, p);
        let prev = encode_fields_spec(ds, p);
        let k = field_key(fs[n], n);
        let v = encode_spec(ds[n], fs[n].ty);
        assert(encode_fields_spec(ds, fs) == assign(prev, k, v));
        assert(!has_key(prev, k)) by {
            if has_key(prev, k) {
                let i = choose|i: int| 0 <= i < p.len() && field_key(p[i], i) == k;
                assert(p[i] == fs[i]);
                lemma_keys_distinct(fs, i, n);
            }
        }
        lemma_lookup_assign_same(prev, k, v);
        assert forall|i: int| 0 <= i < fs.len() implies
            #[trigger] lookup(encode_fields_spec(ds, fs), field_key(fs[i], i)) == encode_spec(ds[i], fs[i].ty) by {
            if i < n {
                assert(p[i] == fs[i]);
                lemma_keys_distinct(fs, i, n);
                lemma_lookup_assign_other(prev, k, v, field_key(fs[i], i));
            }
        }
        assert forall|k2: KeyModel| #[trigger] has_key(encode_fields_spec(ds, fs), k2) implies
            exists|i: int| 0 <= i < fs.len() && field_key(fs[i], i) == k2 by {
            if k2 == k {
                assert(field_key(fs[n], n) == k2);
            } else {
                lemma_lookup_assign_other(prev, k, v, k2);
                let i = choose|i: int| 0 <= i < p.len() && field_key(p[i], i) == k2;
                assert(p[i] == fs[i]);
            }
        }
    }
}

/// A conforming datum encodes to nil only where it is the default of its
/// type: a nil of type `Any`, or an absent optional value.
proof fn lemma_encode_not_nil(d: DataModel, ty: FieldType)
    requires
        type_valid(ty),
        conforms(d, ty),
        encode_spec(d, ty) == ValueModel::Nil,
    ensures
        ty is Any || ty is Optional,
        d == default_spec(ty),
{
    match ty {
        FieldType::Enum(e) => {
            assert(d is Variant);
            let i = d->Variant_0 as int;
            assert(i < e.variants@.len());
            assert(encode_spec(d, ty) == encode_enum_spec(d, e));
            assert(encode_enum_spec(d, e) != ValueModel::Nil);
        },
        _ => {},
    }
}

/// Decoding the fields of a table in which every field's key holds the
/// encoding of its datum gives back the data.
proof fn lemma_fields_round_trip(ds: Seq<DataModel>, fs: Seq<FieldSpec>, m: Seq<(KeyModel, ValueModel)>, to: Seq<char>)
    requires
        fields_valid(fs),
        fields_conform(ds, fs),
        forall|i: int| 0 <= i < fs.len() ==>
            #[trigger] lookup(m, field_key(fs[i], i)) == encode_spec(ds[i], fs[i].ty),
    ensures
        decode_fields_spec(m, to, fs) == Ok::<Seq<DataModel>, ErrorModel>(ds),
    decreases fs,
{
    if fs.len() == 0 {
        assert(ds =~= Seq::<DataModel>::empty());
    } else {
        let p = fs.drop_last();
        let n = fs.len() - 1;
        lemma_fields_valid_prefix(fs);
        assert forall|i: int| 0 <= i < p.len() implies
            #[trigger] lookup(m, field_key(p[i], i)) == encode_spec(ds.drop_last()[i], p[i].ty) by {
            assert(p[i] == fs[i]);
            assert(lookup(m, field_key(fs[i], i)) == encode_spec(ds[i], fs[i].ty));
        }
        lemma_fields_round_trip(ds.drop_last(), p, m, to);
        let f = fs.last();
        assert(lookup(m, field_key(fs[n], n)) == encode_spec(ds[n], fs[n].ty));
        let v = lookup(m, field_key(f, n));
        if f.has_default && v == ValueModel::Nil {
            lemma_encode_not_nil(ds[n], f.ty);
        } else {
            lemma_round_trip(ds[n], f.ty);
        }
        assert(read_field_spec(m, to, f, n) == Ok::<DataModel, ErrorModel>(ds[n]));
        assert(ds.drop_last().push(ds.last()) =~= ds);
    }
}

/// The first unit variant (or first other variant) under a name is the only one.
proof fn lemma_variant_found(vs: Seq<VariantSpec>, i: int)
    requires
        variants_distinct(vs),
        0 <= i < vs.len(),
    ensures
        variant_index(vs, vs[i].name@, vs[i].is_unit) == Some(i),
{
    assert(is_first_variant(vs, vs[i].name@, vs[i].is_unit, i));
    let c = choose|c: int| is_first_variant(vs, vs[i].name@, vs[i].is_unit, c);
    if c != i {
        if c < i {
            assert(vs[c].name@ != vs[i].name@);
        } else {
            assert(vs[i].name@ != vs[c].name@);
        }
    }
}

/// Round trip: decoding the encoding of a datum that has the shape of its
/// type gives back the datum.
pub proof fn lemma_round_trip(d: DataModel, ty: FieldType)
    requires
        type_valid(ty),
        conforms(d, ty),
    ensures
        decode_spec(encode_spec(d, ty), ty) == Ok::<DataModel, ErrorModel>(d),
    decreases ty,
{
    match ty {
        FieldType::Struct(s) => {
            let ds = d->Record_0;
            assert(d == DataModel::Record(ds));
            lemma_fields_conform(ds, s.fields@);
            lemma_encode_fields_lookup(ds, s.fields@);
            lemma_fields_round_trip(ds, s.fields@, encode_fields_spec(ds, s.fields@), s.name@);
            assert(encode_spec(d, ty) == ValueModel::Table(encode_fields_spec(ds, s.fields@)));
        },
        FieldType::Enum(e) => {
            let vs = e.variants@;
            let i = d->Variant_0 as int;
            let ds = d->Variant_1;
            lemma_variants_valid(vs);
            assert(d is Variant && 0 <= i < vs.len());
            assert(d == DataModel::Variant(i as nat, ds));
            assert(encode_spec(d, ty) == encode_enum_spec(d, e));
            lemma_variant_found(vs, i);
            assert(variant_conforms(ds, e, i));
            lemma_fields_conform(ds, vs[i].fields@);
            if vs[i].is_unit {
                assert(ds =~= Seq::<DataModel>::empty());
                assert(encode_spec(d, ty) == ValueModel::Str(vs[i].name@));
                assert(decode_enum_spec(ValueModel::Str(vs[i].name@), e)
                    == Ok::<DataModel, ErrorModel>(DataModel::Variant(i as nat, Seq::empty())));
                assert(decode_spec(ValueModel::Str(vs[i].name@), ty) == decode_enum_spec(ValueModel::Str(vs[i].name@), e));
            } else {
                let enc = encode_fields_spec(ds, vs[i].fields@);
                let m = seq![(KeyModel::Str(vs[i].name@), ValueModel::Table(enc))];
                assert(encode_spec(d, ty) == ValueModel::Table(m));
                lemma_encode_fields_lookup(ds, vs[i].fields@);
                lemma_fields_round_trip(ds, vs[i].fields@, enc, e.name@);
                assert(decode_enum_spec(ValueModel::Table(m), e) == Ok::<DataModel, ErrorModel>(d));
                assert(decode_spec(ValueModel::Table(m), ty) == decode_enum_spec(ValueModel::Table(m), e));
            }
        },
        FieldType::Optional(b) => {
            if d is Present {
                let x = *d->Present_0;
                assert(encode_spec(d, ty) == encode_spec(x, *b));
                lemma_round_trip(x, *b);
                assert(decode_spec(encode_spec(x, *b), ty) == Ok::<DataModel, ErrorModel>(DataModel::Present(Box::new(x))));
            } else {
                assert(d == DataModel::Absent);
                assert(encode_spec(d, ty) == ValueModel::Nil);
            }
        },
        _ => {
            assert(d == DataModel::Leaf(d->Leaf_0));
            assert(encode_spec(d, ty) == d->Leaf_0);
        },
    }
}

/// A successful decoding of a field list is, field by field, the decoding
/// of each field.
pub proof fn lemma_decode_fields_ok(m: Seq<(KeyModel, ValueModel)>, to: Seq<char>, fs: Seq<FieldSpec>)
    requires
        decode_fields_spec(m, to, fs) is Ok,
    ensures
        decode_fields_spec(m, to, fs)->Ok_0.len() == fs.len(),
        forall|i: int| 0 <= i < fs.len() ==> #[trigger] read_field_spec(m, to, fs[i], i)
            == Ok::<DataModel, ErrorModel>(decode_fields_spec(m, to, fs)->Ok_0[i]),
    decreases fs.len(),
{
    if fs.len() > 0 {
        let p = fs.drop_last();
        lemma_decode_fields_ok(m, to, p);
        let ds = decode_fields_spec(m, to, fs)->Ok_0;
        assert forall|i: int| 0 <= i < fs.len() implies #[trigger] read_field_spec(m, to, fs[i], i)
            == Ok::<DataModel, ErrorModel>(ds[i]) by {
            if i < fs.len() - 1 {
                assert(p[i] == fs[i]);
            }
        }
    }
}

/// Defaults: a field marked default whose key is missing decodes to the
/// default of its type; one whose key holds a value that decodes decodes to
/// that value, never to the default.
pub proof fn lemma_default_substitution(m: Seq<(KeyModel, ValueModel)>, to: Seq<char>, fs: Seq<FieldSpec>, i: int)
    requires
        0 <= i < fs.len(),
        fs[i].has_default,
        decode_fields_spec(m, to, fs) is Ok,
    ensures
        !has_key(m, field_key(fs[i], i)) ==>
            decode_fields_spec(m, to, fs)->Ok_0[i] == default_spec(fs[i].ty),
        lookup(m, field_key(fs[i], i)) != ValueModel::Nil ==>
            Ok::<DataModel, ErrorModel>(decode_fields_spec(m, to, fs)->Ok_0[i])
                == decode_spec(lookup(m, field_key(fs[i], i)), fs[i].ty),
{
    lemma_decode_fields_ok(m, to, fs);
    assert(read_field_spec(m, to, fs[i], i) == Ok::<DataModel, ErrorModel>(decode_fields_spec(m, to, fs)->Ok_0[i]));
    lemma_lookup_missing(m, field_key(fs[i], i));
}

/// Unit variants: one encodes to its bare name, and that name decodes to it,
/// whatever else the enum declares.
pub proof fn lemma_unit_variant(e: EnumSchema, i: int)
    requires
        type_valid(FieldType::Enum(e)),
        0 <= i < e.variants@.len(),
        e.variants@[i].is_unit,
    ensures
        encode_enum_spec(DataModel::Variant(i as nat, Seq::empty()), e) == ValueModel::Str(e.variants@[i].name@),
        decode_enum_spec(ValueModel::Str(e.variants@[i].name@), e)
            == Ok::<DataModel, ErrorModel>(DataModel::Variant(i as nat, Seq::empty())),
{
    lemma_variant_found(e.variants@, i);
}

/// One tag: an enum table without exactly one pair fails with the count of
/// its pairs; one whose single key is a number fails because a tag is a
/// string; one whose single tag names no variant with a payload fails with
/// that name.
pub proof fn lemma_single_tag(m: Seq<(KeyModel, ValueModel)>, e: EnumSchema)
    ensures
        m.len() != 1 ==> decode_enum_spec(ValueModel::Table(m), e)
            == Err::<DataModel, ErrorModel>(cardinality_error(e.name@, m.len())),
        m.len() == 1 && m[0].0 is Number ==> decode_enum_spec(ValueModel::Table(m), e)
            == Err::<DataModel, ErrorModel>(tag_error(e.name@)),
        m.len() == 1 && m[0].0 is Str && variant_index(e.variants@, m[0].0->Str_0, false) is None
            ==> decode_enum_spec(ValueModel::Table(m), e)
            == Err::<DataModel, ErrorModel>(unknown_variant_error(e.name@, m[0].0->Str_0)),
{
}

/// Error paths: when the fields before field `i` of a struct decode and
/// field `i` fails with `cause`, the struct fails with a message that is
/// `field <key>: ` followed by the text of `cause`. Applied at each level of
/// nesting, the messages compose into a path.
pub proof fn lemma_error_path(m: Seq<(KeyModel, ValueModel)>, s: StructSchema, i: int, cause: ErrorModel)
    requires
        0 <= i < s.fields@.len(),
        decode_fields_spec(m, s.name@, s.fields@.take(i)) is Ok,
        !(s.fields@[i].has_default && lookup(m, field_key(s.fields@[i], i)) == ValueModel::Nil),
        decode_spec(lookup(m, field_key(s.fields@[i], i)), s.fields@[i].ty)
            == Err::<DataModel, ErrorModel>(cause),
    ensures
        decode_spec(ValueModel::Table(m), FieldType::Struct(s)) is Err,
        decode_spec(ValueModel::Table(m), FieldType::Struct(s))->Err_0.message == Some(
            "field "@ + key_text(field_key(s.fields@[i], i)) + ": "@ + cause_text(cause)),
        decode_spec(ValueModel::Table(m), FieldType::Struct(s))->Err_0.to == s.name@,
{
    let fs = s.fields@;
    let p = fs.take(i + 1);
    assert(p.drop_last() =~= fs.take(i));
    assert(p.last() == fs[i]);
    assert(p.len() - 1 == i);
    assert(read_field_spec(m, s.name@, fs[i], i) == Err::<DataModel, ErrorModel>(
        field_error(lookup(m, field_key(fs[i], i)), s.name@, field_key(fs[i], i), cause)));
    assert(decode_fields_spec(m, s.name@, p) == Err::<Seq<DataModel>, ErrorModel>(
        field_error(lookup(m, field_key(fs[i], i)), s.name@, field_key(fs[i], i), cause)));
    lemma_fields_error_stays(m, s.name@, fs, i + 1);
}

/// Rendering a table: keys 1, 2, 3 in order make a dense run and show their
/// values alone; with keys 1 and 3 the run breaks at the gap, and 3 shows
/// its key.
#[verifier::rlimit(60)]
#[verifier::spinoff_prover]
pub proof fn lemma_render_dense_run(v1: ValueModel, v2: ValueModel, v3: ValueModel)
    ensures
        render(ValueModel::Table(seq![
            (KeyModel::Number(1), v1), (KeyModel::Number(2), v2), (KeyModel::Number(3), v3)]))
            == "{"@ + render(v1) + ","@ + render(v2) + ","@
                + render(v3) + "}"@,
        render(ValueModel::Table(seq![
            (KeyModel::Number(1), v1), (KeyModel::Number(3), v3)]))
            == "{"@ + render(v1) + ",[3]="@ + render(v3) + "}"@,
{
    reveal_strlit("[3]=");
    reveal_strlit("[");
    reveal_strlit("]=");
    reveal_strlit(",");
    reveal_strlit(",[3]=");
    let a = seq![(KeyModel::Number(1), v1), (KeyModel::Number(2), v2), (KeyModel::Number(3), v3)];
    assert(a.drop_first() =~= seq![(KeyModel::Number(2), v2), (KeyModel::Number(3), v3)]);
    assert(a.drop_first().drop_first() =~= seq![(KeyModel::Number(3), v3)]);
    assert(a.drop_first().drop_first().drop_first() =~= Seq::<(KeyModel, ValueModel)>::empty());
    assert(render_entries(a.drop_first().drop_first().drop_first(), 4, false) =~= Seq::<char>::empty());
    let r3 = render_entries(a.drop_first().drop_first(), 3, false);
    assert(r3 =~= ","@ + render(v3));
    let r2 = render_entries(a.drop_first(), 2, false);
    assert(r2 =~= ","@ + render(v2) + ","@ + render(v3));
    assert(render_entries(a, 1, true) =~= render(v1) + ","@ + render(v2) + ","@ + render(v3));
    let b = seq![(KeyModel::Number(1), v1), (KeyModel::Number(3), v3)];
    assert(b.drop_first() =~= seq![(KeyModel::Number(3), v3)]);
    assert(b.drop_first().drop_first() =~= Seq::<(KeyModel, ValueModel)>::empty());
    assert(render_entries(b.drop_first().drop_first(), 2, false) =~= Seq::<char>::empty());
    assert(nat_text(3) =~= seq!['3']);
    assert(key_label(KeyModel::Number(3)) =~= "[3]="@);
    assert(render_entries(b.drop_first(), 2, false) =~= ",[3]="@ + render(v3));
    assert(render_entries(b, 1, true) =~= render(v1) + ",[3]="@ + render(v3));
}

} // verus!
