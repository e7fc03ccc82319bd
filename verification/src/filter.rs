//! Marking the rows of a table that are nearest to a given point.
use kdtree::ErrorKind;
use polars::prelude::Series;
use vstd::prelude::*;

use crate::error::{error_text, search_failed, KnnError};
use crate::inputs::KdtreeKwargs;
use crate::search::rows_below;
use crate::series::{bool_column, fits_column, series_bool, series_len, series_name};

verus! {

/// The row is among those found.
pub open spec fn is_found<D>(found: Seq<(D, usize)>, row: int) -> bool {
    exists|j: int| 0 <= j < found.len() && (#[trigger] found[j]).1 == row
}

/// By row, whether the row is among those found.
pub open spec fn found_mask<D>(nrows: int, found: Seq<(D, usize)>) -> Seq<bool> {
    Seq::new(nrows as nat, |row: int| is_found(found, row))
}

/// What an answer of the search becomes: a mask of the rows found, or an
/// error with the reason why there are none.
pub open spec fn filters<D>(
    nrows: int,
    answer: Result<Vec<(D, usize)>, ErrorKind>,
    r: Result<Series, KnnError>,
) -> bool {
    match answer {
        Ok(found) => {
            &&& r is Ok
            &&& series_name(r->Ok_0) == ""@
            &&& series_len(r->Ok_0) == nrows
            &&& series_bool(r->Ok_0) == Some(
                found_mask(nrows, found@).map_values(|b: bool| Some(b)),
            )
        },
        Err(e) => r matches Err(KnnError::Compute(message)) && message@ == "KNN: "@ + error_text(e),
    }
}

/// What a search from a point, for `k` rows, comes to.
pub open spec fn filters_by<D, N: Fn(usize) -> Result<Vec<(D, usize)>, ErrorKind>>(
    nrows: int,
    nearest: N,
    k: usize,
    r: Result<Series, KnnError>,
) -> bool {
    exists|answer: Result<Vec<(D, usize)>, ErrorKind>| #[trigger]
        call_ensures(nearest, (k,), answer) && filters(nrows, answer, r)
}

/// Checks that a point has one coordinate for each of the `dim` columns.
pub fn check_point(pt_len: usize, dim: usize) -> (r: Result<(), KnnError>)
    ensures
        pt_len == dim ==> r is Ok,
        pt_len != dim ==> (r matches Err(KnnError::Compute(message)) && message@
            == "KNN: input point must be the same dimension as the number of columns in `others`."@),
{
    if pt_len != dim {
        return Err(
            KnnError::Compute(
                "KNN: input point must be the same dimension as the number of columns in `others`.".to_string(),
            ),
        );
    }
    Ok(())
}

/// The column that an answer of the search becomes.
pub fn filter_column<D>(nrows: usize, answer: Result<Vec<(D, usize)>, ErrorKind>) -> (r: Result<
    Series,
    KnnError,
>)
    requires
        fits_column(nrows as int),
        rows_below(answer, nrows as int),
    ensures
        filters(nrows as int, answer, r),
{
    let found = match answer {
        Ok(found) => found,
        Err(e) => {
            return Err(search_failed(&e));
        },
    };
    let mut out: Vec<bool> = vec![false; nrows];
    let mut j: usize = 0;
    while j < found.len()
        invariant
            j <= found.len(),
            forall|i: int| 0 <= i < found.len() ==> (#[trigger] found[i]).1 < nrows,
            out.len() == nrows,
            out@ =~= found_mask(nrows as int, found@.take(j as int)),
        decreases found.len() - j,
    {
        let row: usize = found[j].1;
        out[row] = true;
        proof {
            let before = found@.take(j as int);
            let after = found@.take(j + 1);
            assert forall|i: int| 0 <= i < nrows implies #[trigger] out@[i] == is_found(
                after,
                i,
            ) by {
                assert(after[j as int].1 == row);
                if is_found(before, i) {
                    let w = choose|w: int| 0 <= w < before.len() && (#[trigger] before[w]).1 == i;
                    assert(after[w].1 == i);
                }
                if is_found(after, i) && i != row {
                    let w = choose|w: int| 0 <= w < after.len() && (#[trigger] after[w]).1 == i;
                    assert(before[w].1 == i);
                }
            }
        }
        j = j + 1;
    }
    assert(found@.take(found.len() as int) =~= found@);
    Ok(bool_column("", out.as_slice()))
}

/// Marks the `k` rows nearest to a point that is not itself a row.
///
/// `nearest` searches from the point for as many rows as it is told.
pub fn pl_knn_filter<D, N: Fn(usize) -> Result<Vec<(D, usize)>, ErrorKind>>(
    nrows: usize,
    kwargs: &KdtreeKwargs,
    nearest: N,
) -> (r: Result<Series, KnnError>)
    requires
        fits_column(nrows as int),
        call_requires(nearest, (kwargs.k,)),
        forall|answer: Result<Vec<(D, usize)>, ErrorKind>| #[trigger]
            call_ensures(nearest, (kwargs.k,), answer) ==> rows_below(answer, nrows as int),
    ensures
        filters_by(nrows as int, nearest, kwargs.k, r),
{
    let answer = nearest(kwargs.k);
    filter_column(nrows, answer)
}

} // verus!
