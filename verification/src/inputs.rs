//! The inputs of the queries: the parameters, the identifier column and the
//! optional column that says which rows to skip.
use polars::prelude::Series;
use vstd::prelude::*;

use crate::error::KnnError;
use crate::series::{bool_cells, series_bool, series_u32, u32_cells, u32_refusal};

verus! {

/// The parameters of a query for nearest neighbors.
#[derive(Debug)]
pub struct KdtreeKwargs {
    /// How many neighbors to look for.
    pub k: usize,
    /// How many points a leaf of the tree may hold.
    pub leaf_size: usize,
    /// The name of the distance.
    pub metric: String,
    /// Whether the query may use the thread pool.
    pub parallel: bool,
}

/// The parameters of a query for all neighbors within a radius.
#[derive(Debug)]
pub struct KdtreeRadiusKwargs<R> {
    /// The radius.
    pub r: R,
    /// How many points a leaf of the tree may hold.
    pub leaf_size: usize,
    /// The name of the distance.
    pub metric: String,
    /// Whether the query may use the thread pool.
    pub parallel: bool,
}

/// What a query over every row reads from its input columns.
#[derive(Debug)]
pub struct PtwiseInputs {
    /// The identifiers, by row.
    pub id: Vec<u32>,
    /// By row, whether the row is queried; without a filter every row is.
    pub filter: Option<Vec<bool>>,
    /// The number of the first coordinate column among the inputs.
    pub first_column: usize,
    /// The number of coordinate columns.
    pub dim: usize,
}

/// None of the cells is null.
pub open spec fn without_nulls<T>(cells: Seq<Option<T>>) -> bool {
    forall|i: int| 0 <= i < cells.len() ==> #[trigger] cells[i] is Some
}

/// The values in cells of which none is null.
pub open spec fn values_of<T>(cells: Seq<Option<T>>) -> Seq<T> {
    cells.map_values(|cell: Option<T>| cell.unwrap())
}

/// By row, whether the row is queried: a row is left out if its cell says to
/// skip it; a null does not.
pub open spec fn kept_rows(skip: Seq<Option<bool>>) -> Seq<bool> {
    skip.map_values(|cell: Option<bool>| cell != Some(true))
}

/// The column can be read as identifiers.
pub open spec fn has_ids(s: Series) -> bool {
    series_u32(s) matches Some(cells) && without_nulls(cells)
}

/// The identifiers that a column can be read as, or why it cannot: it has to
/// be of unsigned 32-bit integers, else the refusal of `polars` is handed on,
/// and to hold no nulls.
pub open spec fn reads_ids<T>(s: Series, r: Result<T, KnnError>) -> bool {
    match series_u32(s) {
        None => r matches Err(KnnError::Polars(e)) && e == u32_refusal(s),
        Some(cells) => if without_nulls(cells) {
            r is Ok
        } else {
            r matches Err(KnnError::NullId(message)) && message@
                == "chunked array is not contiguous"@
        },
    }
}

/// Reads an identifier column.
fn read_ids(s: &Series) -> (r: Result<Vec<u32>, KnnError>)
    ensures
        reads_ids(*s, r),
        r matches Ok(id) ==> id@ == values_of(series_u32(*s).unwrap()),
        r matches Ok(id) ==> id.len() == series_u32(*s).unwrap().len(),
        r matches Ok(id) ==> forall|i: int|
            0 <= i < id.len() ==> series_u32(*s).unwrap()[i] == Some(#[trigger] id[i]),
{
    let cells = match u32_cells(s) {
        Ok(cells) => cells,
        Err(e) => {
            return Err(KnnError::Polars(e));
        },
    };
    let mut id: Vec<u32> = Vec::new();
    let mut i: usize = 0;
    while i < cells.len()
        invariant
            i <= cells.len(),
            series_u32(*s) == Some(cells@),
            without_nulls(cells@.take(i as int)),
            id@ == values_of(cells@.take(i as int)),
        decreases cells.len() - i,
    {
        match cells[i] {
            Some(value) => {
                id.push(value);
            },
            None => {
                assert(cells@[i as int] is None);
                return Err(KnnError::NullId("chunked array is not contiguous".to_string()));
            },
        }
        assert forall|j: int| 0 <= j < i + 1 implies #[trigger] cells@.take(i + 1)[j] is Some by {
            if j < i {
                assert(cells@.take(i as int)[j] is Some);
            }
        }
        assert(id@ =~= values_of(cells@.take(i + 1)));
        i = i + 1;
    }
    assert(cells@.take(cells.len() as int) =~= cells@);
    Ok(id)
}

/// By row, whether the row is queried.
fn keep_rows(skip: &Vec<Option<bool>>) -> (filter: Vec<bool>)
    ensures
        filter@ == kept_rows(skip@),
        filter.len() == skip.len(),
        forall|i: int| 0 <= i < skip.len() ==> #[trigger] filter[i] == (skip[i] != Some(true)),
{
    let mut filter: Vec<bool> = Vec::new();
    let mut i: usize = 0;
    while i < skip.len()
        invariant
            i <= skip.len(),
            filter@ == kept_rows(skip@.take(i as int)),
        decreases skip.len() - i,
    {
        let kept = match skip[i] {
            Some(b) => !b,
            None => true,
        };
        filter.push(kept);
        assert(filter@ =~= kept_rows(skip@.take(i + 1)));
        i = i + 1;
    }
    assert(skip@.take(skip.len() as int) =~= skip@);
    filter
}

/// What the inputs of a query over every row hold: the identifiers come
/// first, then a Boolean column of the rows to skip if there is one, then the
/// coordinates.
pub open spec fn are_inputs(inputs: Seq<Series>, p: PtwiseInputs) -> bool {
    &&& p.id@ == values_of(series_u32(inputs[0]).unwrap())
    &&& match series_bool(inputs[1]) {
        Some(skip) => {
            &&& p.filter matches Some(filter)
            &&& filter@ == kept_rows(skip)
            &&& p.first_column == 2
        },
        None => p.filter is None && p.first_column == 1,
    }
    &&& p.dim == inputs.len() - p.first_column
}

/// Reads the inputs of a query over every row. Behind identifiers that can be
/// read there has to be another column.
pub fn ptwise_inputs(inputs: &[Series]) -> (r: Result<PtwiseInputs, KnnError>)
    requires
        inputs.len() >= 1,
        has_ids(inputs[0]) ==> inputs.len() >= 2,
    ensures
        reads_ids(inputs[0], r),
        r matches Ok(p) ==> are_inputs(inputs@, p),
{
    let id = match read_ids(&inputs[0]) {
        Ok(id) => id,
        Err(e) => {
            return Err(e);
        },
    };
    let mut first_column: usize = 1;
    let filter = match bool_cells(&inputs[1]) {
        Ok(skip) => {
            first_column = 2;
            Some(keep_rows(&skip))
        },
        Err(_) => None,
    };
    let dim: usize = inputs.len() - first_column;
    Ok(PtwiseInputs { id, filter, first_column, dim })
}

/// Reads the inputs of a query for nearest neighbors of every row, which
/// needs at least one coordinate column. Behind identifiers that can be read
/// there has to be another column.
pub fn knn_inputs(inputs: &[Series]) -> (r: Result<PtwiseInputs, KnnError>)
    requires
        inputs.len() >= 1,
        has_ids(inputs[0]) ==> inputs.len() >= 2,
    ensures
        ({
            let no_column = inputs.len() == 2 && series_bool(inputs[1]) is Some;
            if no_column && has_ids(inputs[0]) {
                r matches Err(KnnError::Compute(message)) && message@ == "KNN: No column found."@
            } else {
                reads_ids(inputs[0], r)
            }
        }),
        r matches Ok(p) ==> are_inputs(inputs@, p) && p.dim >= 1,
{
    match ptwise_inputs(inputs) {
        Ok(p) => {
            if p.dim == 0 {
                return Err(KnnError::Compute("KNN: No column found.".to_string()));
            }
            Ok(p)
        },
        Err(e) => Err(e),
    }
}

/// Reads the identifiers of a query within a radius of every row. They come
/// first, and the coordinates follow.
pub fn radius_ids(inputs: &[Series]) -> (r: Result<Vec<u32>, KnnError>)
    requires
        inputs.len() >= 1,
    ensures
        reads_ids(inputs[0], r),
        r matches Ok(id) ==> id@ == values_of(series_u32(inputs[0]).unwrap()),
        r matches Ok(id) ==> id.len() == series_u32(inputs[0]).unwrap().len(),
        r matches Ok(id) ==> forall|i: int|
            0 <= i < id.len() ==> series_u32(inputs[0]).unwrap()[i] == Some(#[trigger] id[i]),
{
    read_ids(&inputs[0])
}

} // verus!
