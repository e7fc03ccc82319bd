//! Columns of the `polars` crate: what they hold, and how they are read and
//! filled.
//!
//! A `Series` is spoken of by its name, its length, the number of chunks it
//! is stored in and, where it has one of the types that the queries deal in,
//! its cells, `None` standing for a null.
//!
//! With the environment variable `POLARS_PANIC_ON_ERR` set to `1`, `polars`
//! panics wherever it would make an error. What is stated here is stated for
//! a process that does not set it.
use polars::prelude::{
    BooleanChunked, DataType, IntoSeries, ListBuilderTrait, ListChunked,
    ListPrimitiveChunkedBuilder, NewChunkedArray, PolarsError, Series, StructChunked,
    UInt32Chunked, UInt32Type,
};
use vstd::prelude::*;

verus! {

/// A column of the `polars` crate.
#[verifier::external_type_specification]
#[verifier::external_body]
pub struct ExSeries(Series);

/// The name of a column.
pub uninterp spec fn series_name(s: Series) -> Seq<char>;

/// The number of cells of a column.
pub uninterp spec fn series_len(s: Series) -> nat;

/// The number of chunks that a column is stored in.
pub uninterp spec fn series_chunks(s: Series) -> nat;

/// The cells of a column of unsigned 32-bit integers; `None` for a column of
/// any other type.
pub uninterp spec fn series_u32(s: Series) -> Option<Seq<Option<u32>>>;

/// The error with which `Series::u32` refuses a column of another type.
pub uninterp spec fn u32_refusal(s: Series) -> PolarsError;

/// The cells of a Boolean column; `None` for a column of any other type.
pub uninterp spec fn series_bool(s: Series) -> Option<Seq<Option<bool>>>;

/// The cells of a column of lists of unsigned 32-bit integers; `None` for a
/// column of any other type.
pub uninterp spec fn series_u32_lists(s: Series) -> Option<Seq<Option<Seq<u32>>>>;

/// Whether a column is of lists of 64-bit floating-point numbers.
pub uninterp spec fn is_float_lists(s: Series) -> bool;

/// The fields of a column of structs; `None` for a column of any other type.
pub uninterp spec fn struct_fields(s: Series) -> Option<Seq<Series>>;

/// A column under another name.
pub uninterp spec fn renamed(s: Series, name: Seq<char>) -> Series;

/// A column copied into a single chunk.
pub uninterp spec fn in_one_chunk(s: Series) -> Series;

/// A column of `n` cells can be made: `polars` counts cells below `u32::MAX`,
/// and the offsets of a list column, eight bytes each, have to fit in memory.
pub open spec fn fits_column(n: int) -> bool {
    &&& n < u32::MAX
    &&& (n + 1) * 8 <= isize::MAX
}

/// Room for `n` list entries of four bytes can be asked for.
pub open spec fn fits_entries(n: int) -> bool {
    n * 4 <= isize::MAX
}

/// `Series::u32` and the iteration over the column it hands out: the cells in
/// order if the column is of unsigned 32-bit integers, otherwise an error that
/// depends on the column alone: it names the type that the column has.
#[verifier::external_body]
pub(crate) fn u32_cells(s: &Series) -> (r: Result<Vec<Option<u32>>, PolarsError>)
    ensures
        r is Ok <==> series_u32(*s) is Some,
        r matches Ok(cells) ==> series_u32(*s) == Some(cells@),
        r matches Err(e) ==> e == u32_refusal(*s),
{
    Ok(s.u32()?.into_iter().collect())
}

/// `Series::bool` and the iteration over the column it hands out: the cells
/// in order if the column is Boolean, an error otherwise.
#[verifier::external_body]
pub(crate) fn bool_cells(s: &Series) -> (r: Result<Vec<Option<bool>>, PolarsError>)
    ensures
        r is Ok <==> series_bool(*s) is Some,
        r matches Ok(cells) ==> series_bool(*s) == Some(cells@),
{
    Ok(s.bool()?.into_iter().collect())
}

/// `Series::with_name`: the same column under another name.
#[verifier::external_body]
pub(crate) fn with_name(s: Series, name: &str) -> (r: Series)
    ensures
        r == renamed(s, name@),
        series_name(r) == name@,
        series_len(r) == series_len(s),
        series_chunks(r) == series_chunks(s),
        series_u32(r) == series_u32(s),
        series_bool(r) == series_bool(s),
        series_u32_lists(r) == series_u32_lists(s),
        is_float_lists(r) == is_float_lists(s),
{
    s.with_name(name)
}

/// `UInt32Chunked::from_iter_options`: a column with the given cells.
#[verifier::external_body]
pub(crate) fn u32_column(name: &str, cells: Vec<Option<u32>>) -> (r: Series)
    requires
        fits_column(cells.len() as int),
    ensures
        series_name(r) == name@,
        series_len(r) == cells.len(),
        series_chunks(r) == 1,
        series_u32(r) == Some(cells@),
{
    UInt32Chunked::from_iter_options(name, cells.into_iter()).into_series()
}

/// The cells of several columns of unsigned 32-bit integers, one column after
/// the other.
pub open spec fn joined_u32(parts: Seq<Series>) -> Seq<Option<u32>> {
    parts.map_values(|s: Series| series_u32(s).unwrap()).flatten()
}

/// `UInt32Chunked::from_chunk_iter` on the chunks of all the parts: one
/// column that holds the cells of the parts in order.
#[verifier::external_body]
pub(crate) fn join_u32(name: &str, parts: Vec<Series>) -> (r: Series)
    requires
        forall|i: int| 0 <= i < parts.len() ==> series_u32(#[trigger] parts[i]) is Some,
        fits_column(joined_u32(parts@).len() as int),
    ensures
        series_name(r) == name@,
        series_len(r) == joined_u32(parts@).len(),
        series_u32(r) == Some(joined_u32(parts@)),
{
    UInt32Chunked::from_chunk_iter(
        name,
        parts.iter().flat_map(|s| s.u32().unwrap().downcast_iter().cloned()),
    ).into_series()
}

/// `BooleanChunked::from_slice`: a column with the given cells, none of them
/// null.
#[verifier::external_body]
pub(crate) fn bool_column(name: &str, cells: &[bool]) -> (r: Series)
    requires
        fits_column(cells.len() as int),
    ensures
        series_name(r) == name@,
        series_len(r) == cells.len(),
        series_chunks(r) == 1,
        series_bool(r) == Some(cells@.map_values(|b: bool| Some(b))),
{
    BooleanChunked::from_slice(name, cells).into_series()
}

/// `StructChunked::new` on fields of one length and of different names, which
/// it accepts: a column of structs whose fields are those columns in order,
/// each copied into a single chunk by `Series::rechunk`. The copy keeps the
/// name, the type and the cells.
#[verifier::external_body]
pub(crate) fn new_struct(name: &str, fields: Vec<Series>) -> (r: Result<Series, PolarsError>)
    requires
        fields.len() >= 1,
        forall|i: int| 0 <= i < fields.len() ==> series_chunks(#[trigger] fields[i]) >= 1,
        forall|i: int, j: int|
            0 <= i < fields.len() && 0 <= j < fields.len() ==> series_len(#[trigger] fields[i])
                == series_len(#[trigger] fields[j]),
        forall|i: int, j: int|
            0 <= i < j < fields.len() ==> series_name(#[trigger] fields[i]) != series_name(
                #[trigger] fields[j],
            ),
    ensures
        r is Ok,
        series_name(r->Ok_0) == name@,
        series_len(r->Ok_0) == series_len(fields[0]),
        struct_fields(r->Ok_0) is Some,
        struct_fields(r->Ok_0).unwrap().len() == fields.len(),
        forall|i: int|
            0 <= i < fields.len() ==> (#[trigger] struct_fields(r->Ok_0).unwrap()[i])
                == in_one_chunk(fields[i]),
        forall|i: int|
            0 <= i < fields.len() ==> series_name(#[trigger] struct_fields(r->Ok_0).unwrap()[i])
                == series_name(fields[i]),
        forall|i: int|
            0 <= i < fields.len() ==> series_len(#[trigger] struct_fields(r->Ok_0).unwrap()[i])
                == series_len(fields[i]),
        forall|i: int|
            0 <= i < fields.len() ==> series_u32_lists(
                #[trigger] struct_fields(r->Ok_0).unwrap()[i],
            ) == series_u32_lists(fields[i]),
        forall|i: int|
            0 <= i < fields.len() ==> is_float_lists(
                #[trigger] struct_fields(r->Ok_0).unwrap()[i],
            ) == is_float_lists(fields[i]),
{
    Ok(StructChunked::new(name, &fields)?.into_series())
}

/// A column of lists of unsigned 32-bit integers in the making: the list
/// builder of `polars`.
#[verifier::external_body]
pub struct ListBuilder {
    inner: ListPrimitiveChunkedBuilder<UInt32Type>,
}

/// The name of the column in the making.
pub uninterp spec fn builder_name(b: ListBuilder) -> Seq<char>;

/// The lists appended so far, `None` standing for a null.
pub uninterp spec fn builder_rows(b: ListBuilder) -> Seq<Option<Seq<u32>>>;

impl ListBuilder {
    /// `ListPrimitiveChunkedBuilder::new` for the type `UInt32`: no rows yet.
    /// The capacities are hints: room for so many rows and so many entries.
    #[verifier::external_body]
    pub(crate) fn new(name: &str, capacity: usize, values_capacity: usize) -> (b: Self)
        requires
            fits_column(capacity as int),
            fits_entries(values_capacity as int),
        ensures
            builder_name(b) == name@,
            builder_rows(b) == Seq::<Option<Seq<u32>>>::empty(),
    {
        let inner = ListPrimitiveChunkedBuilder::<UInt32Type>::new(
            name,
            capacity,
            values_capacity,
            DataType::UInt32,
        );
        ListBuilder { inner }
    }

    /// `ListPrimitiveChunkedBuilder::append_slice`: one more row, the list of
    /// the given entries.
    #[verifier::external_body]
    pub(crate) fn append_slice(&mut self, items: &[u32])
        ensures
            builder_name(*final(self)) == builder_name(*old(self)),
            builder_rows(*final(self)) == builder_rows(*old(self)).push(Some(items@)),
    {
        self.inner.append_slice(items);
    }

    /// `append_null` of the list builder: one more row, a null.
    #[verifier::external_body]
    pub(crate) fn append_null(&mut self)
        ensures
            builder_name(*final(self)) == builder_name(*old(self)),
            builder_rows(*final(self)) == builder_rows(*old(self)).push(None),
    {
        self.inner.append_null();
    }

    /// `finish` of the list builder: the column with the rows appended.
    #[verifier::external_body]
    pub(crate) fn finish(self) -> (r: Series)
        requires
            fits_column(builder_rows(self).len() as int),
        ensures
            series_name(r) == builder_name(self),
            series_len(r) == builder_rows(self).len(),
            series_chunks(r) == 1,
            series_u32_lists(r) == Some(builder_rows(self)),
    {
        let mut builder = self;
        builder.inner.finish().into_series()
    }
}

/// The cells of several columns of lists, one column after the other.
pub open spec fn joined_lists(parts: Seq<Series>) -> Seq<Option<Seq<u32>>> {
    parts.map_values(|s: Series| series_u32_lists(s).unwrap()).flatten()
}

/// `ListChunked::from_chunk_iter` on the chunks of all the parts: one column
/// that holds the lists of the parts in order. The type of the lists is read
/// off the first chunk, so there has to be one.
#[verifier::external_body]
pub(crate) fn join_lists(name: &str, parts: Vec<Series>) -> (r: Series)
    requires
        parts.len() >= 1,
        forall|i: int|
            0 <= i < parts.len() ==> series_u32_lists(#[trigger] parts[i]) is Some && series_chunks(
                parts[i],
            ) >= 1,
        fits_column(joined_lists(parts@).len() as int),
    ensures
        series_name(r) == name@,
        series_len(r) == joined_lists(parts@).len(),
        series_chunks(r) >= 1,
        series_u32_lists(r) == Some(joined_lists(parts@)),
{
    ListChunked::from_chunk_iter(
        name,
        parts.iter().flat_map(|s| s.list().unwrap().downcast_iter().cloned()),
    ).into_series()
}

} // verus!
