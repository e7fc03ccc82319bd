//! The type of the column that a query for neighbors and distances makes.
use polars::prelude::Series;
use vstd::prelude::*;

use crate::series::{is_float_lists, series_name, series_u32_lists, struct_fields};

verus! {

/// The type of a column, as far as the queries need one.
#[derive(Debug)]
pub enum ColumnType {
    /// Unsigned 32-bit integers.
    UInt32,
    /// Floating-point numbers of 64 bits.
    Float64,
    /// Lists of entries of one type.
    List(Box<ColumnType>),
    /// Structs with the given fields.
    Struct(Vec<ColumnField>),
}

/// A column's name and type.
#[derive(Debug)]
pub struct ColumnField {
    /// The name.
    pub name: String,
    /// The type.
    pub dtype: ColumnType,
}

/// A field with the given name that holds lists.
pub open spec fn is_list_field(f: ColumnField, name: Seq<char>, entries: ColumnType) -> bool {
    f.name@ == name && f.dtype == ColumnType::List(Box::new(entries))
}

/// The type of the column that a query for neighbors and their distances
/// makes.
pub open spec fn is_full_output(f: ColumnField) -> bool {
    &&& f.name@ == "knn_dist"@
    &&& f.dtype matches ColumnType::Struct(fields)
    &&& fields.len() == 2
    &&& is_list_field(fields[0], "idx"@, ColumnType::UInt32)
    &&& is_list_field(fields[1], "dist"@, ColumnType::Float64)
}

/// The column is of the given type of lists.
pub open spec fn is_of_list_type(s: Series, dtype: ColumnType) -> bool {
    match dtype {
        ColumnType::List(entries) => match *entries {
            ColumnType::UInt32 => series_u32_lists(s) is Some,
            ColumnType::Float64 => is_float_lists(s),
            _ => false,
        },
        _ => false,
    }
}

/// The column has the declared name and is of the declared structs: as many
/// fields, and at each place the declared name and type of lists.
pub open spec fn is_as_declared(s: Series, declared: ColumnField) -> bool {
    &&& series_name(s) == declared.name@
    &&& declared.dtype matches ColumnType::Struct(fields)
    &&& struct_fields(s) matches Some(columns)
    &&& columns.len() == fields.len()
    &&& forall|i: int|
        0 <= i < columns.len() ==> series_name(#[trigger] columns[i]) == fields[i].name@
            && is_of_list_type(columns[i], fields[i].dtype)
}

/// The column that a query for neighbors and their distances makes, whatever
/// its inputs are: structs of a list of identifiers and a list of distances.
pub fn knn_full_output(_inputs: &[ColumnField]) -> (r: ColumnField)
    ensures
        is_full_output(r),
{
    let idx = ColumnField {
        name: "idx".to_string(),
        dtype: ColumnType::List(Box::new(ColumnType::UInt32)),
    };
    let dist = ColumnField {
        name: "dist".to_string(),
        dtype: ColumnType::List(Box::new(ColumnType::Float64)),
    };
    let mut fields: Vec<ColumnField> = Vec::new();
    fields.push(idx);
    fields.push(dist);
    ColumnField { name: "knn_dist".to_string(), dtype: ColumnType::Struct(fields) }
}

} // verus!
