//! Schemas: the declared shape of aggregates and enums.

use vstd::prelude::*;
use crate::codec::Data;

verus! {

/// The declared type of one field.
#[derive(Debug)]
pub enum FieldType {
    /// A boolean.
    Boolean,
    /// A signed 64-bit integer.
    Integer,
    /// An integer that fits in 32 unsigned bits.
    U32,
    /// A number: a float, or an integer, which the host counts as a number.
    Number,
    /// A string.
    Text,
    /// Any value, taken as it is.
    Any,
    /// An optional value: nil is absence.
    Optional(Box<FieldType>),
    /// A nested aggregate.
    Struct(StructSchema),
    /// A nested enum.
    Enum(EnumSchema),
}

/// One declared field: a name (none for a positional field), its type, and
/// whether a missing value falls back to the type's default.
#[derive(Debug)]
pub struct FieldSpec {
    pub name: Option<String>,
    pub ty: FieldType,
    pub has_default: bool,
}

/// An aggregate: its type name, its fields in declaration order, and the
/// default registered for the type, if any (else a default of each field).
#[derive(Debug)]
pub struct StructSchema {
    pub name: String,
    pub fields: Vec<FieldSpec>,
    pub default: Option<Data>,
}

/// One enum case: its name, its fields, and whether it is a unit variant.
#[derive(Debug)]
pub struct VariantSpec {
    pub name: String,
    pub fields: Vec<FieldSpec>,
    pub is_unit: bool,
}

/// An enum: its type name, its variants in declaration order, and the
/// default registered for the type, if any (else the first variant, with a
/// default of each field).
#[derive(Debug)]
pub struct EnumSchema {
    pub name: String,
    pub variants: Vec<VariantSpec>,
    pub default: Option<Data>,
}

/// Whether field `i` and field `j` would be stored under the same key:
/// both named alike, or both positional at one index.
pub open spec fn same_key(fs: Seq<FieldSpec>, i: int, j: int) -> bool {
    match (fs[i].name, fs[j].name) {
        (Some(a), Some(b)) => a@ == b@,
        (None, None) => i == j,
        _ => false,
    }
}

/// A valid field list: fewer fields than positional keys, no two fields
/// under one key, and each field type valid.
pub open spec fn fields_valid(fs: Seq<FieldSpec>) -> bool
    decreases fs,
{
    &&& fs.len() < u32::MAX
    &&& forall|i: int, j: int| 0 <= i < j < fs.len() ==> !same_key(fs, i, j)
    &&& fs.len() == 0 || (fields_valid(fs.drop_last()) && type_valid(fs.last().ty))
}

/// A valid type: its field lists are valid; unit variants carry no fields,
/// and no two unit variants, nor two other variants, share a name.
pub open spec fn type_valid(ty: FieldType) -> bool
    decreases ty,
{
    match ty {
        FieldType::Struct(s) => fields_valid(s.fields@),
        FieldType::Enum(e) => variants_distinct(e.variants@) && variants_fields_valid(e.variants@),
        FieldType::Optional(b) => type_valid(*b),
        _ => true,
    }
}

/// No two unit variants, nor two other variants, under one name.
pub open spec fn variants_distinct(vs: Seq<VariantSpec>) -> bool {
    forall|i: int, j: int| 0 <= i < j < vs.len() && vs[i].is_unit == vs[j].is_unit
        ==> vs[i].name@ != vs[j].name@
}

/// Each variant's fields are valid, and unit variants have none.
pub open spec fn variants_fields_valid(vs: Seq<VariantSpec>) -> bool
    decreases vs,
{
    vs.len() == 0 || (variants_fields_valid(vs.drop_last())
        && fields_valid(vs.last().fields@)
        && (vs.last().is_unit ==> vs.last().fields@.len() == 0))
}

} // verus!
