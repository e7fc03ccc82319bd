//! Counting the neighbors of every row of a table within a radius.
use kdtree::ErrorKind;
use polars::prelude::Series;
use vstd::prelude::*;

use crate::error::KnnError;
use crate::gather::{gathered, lemma_gathered};
use crate::inputs::KdtreeKwargs;
use crate::pieces::{
    lemma_join, lemma_piece_bounds, lemma_row_has_place, piece_len, piece_of, piece_offset,
    piece_rows, place_in_piece, split_offsets,
};
use crate::pool::{map_pieces, thread_count};
use crate::series::{
    fits_column, join_u32, joined_u32, series_len, series_name, series_u32, u32_column, with_name,
};

verus! {

/// The cell that an answer of the count becomes: the number of neighbors, cut
/// to 32 bits, or a null for a failure.
pub open spec fn count_cell(answer: Result<usize, ErrorKind>) -> Option<u32> {
    match answer {
        Ok(count) => Some((count as int % 0x1_0000_0000) as u32),
        Err(_) => None,
    }
}

/// The count from a row can come out as this cell.
pub open spec fn may_count<R, W: Fn(usize, R) -> Result<usize, ErrorKind>>(
    within_count: W,
    row: int,
    r: R,
    cell: Option<u32>,
) -> bool {
    exists|answer: Result<usize, ErrorKind>|
        call_ensures(within_count, (row as usize, r), answer) && cell == count_cell(answer)
}

/// The cells hold the counts from the rows numbered `first` and up, each
/// within its own radius; a row without a radius has a null.
pub open spec fn counted<R, W: Fn(usize, R) -> Result<usize, ErrorKind>>(
    within_count: W,
    radii: Seq<Option<R>>,
    first: int,
    cells: Seq<Option<u32>>,
) -> bool {
    &&& cells.len() == radii.len()
    &&& forall|i: int|
        0 <= i < radii.len() ==> match radii[i] {
            Some(r) => may_count(within_count, first + i, r, #[trigger] cells[i]),
            None => cells[i] is None,
        }
}

/// The column holds the counts from the rows numbered `first` and up.
pub open spec fn holds_counts<R, W: Fn(usize, R) -> Result<usize, ErrorKind>>(
    column: Series,
    within_count: W,
    radii: Seq<Option<R>>,
    first: int,
) -> bool {
    series_u32(column) matches Some(cells) && counted(within_count, radii, first, cells)
}

/// The count can be called on each row that has a radius.
pub open spec fn can_count<R, W: Fn(usize, R) -> Result<usize, ErrorKind>>(
    within_count: W,
    radii: Seq<Option<R>>,
) -> bool {
    forall|row: usize, r: R|
        row < radii.len() && radii[row as int] == Some(r) ==> #[trigger] call_requires(
            within_count,
            (row, r),
        )
}

/// The same radius for every row.
pub open spec fn one_radius<R>(r: R, nrows: int) -> Seq<Option<R>> {
    Seq::new(nrows as nat, |row: int| Some(r))
}

/// The radius of each row: a single radius holds for every row.
pub open spec fn radii_by_row<R>(radius: Seq<Option<R>>, nrows: int) -> Seq<Option<R>> {
    if radius.len() == 1 {
        Seq::new(nrows as nat, |row: int| radius[0])
    } else {
        radius
    }
}

/// Counts the neighbors of one row.
fn count_row<R, W: Fn(usize, R) -> Result<usize, ErrorKind>>(
    within_count: &W,
    row: usize,
    r: R,
) -> (cell: Option<u32>)
    requires
        call_requires(*within_count, (row, r)),
    ensures
        may_count(*within_count, row as int, r, cell),
{
    let answer = within_count(row, r);
    proof {
        assert(call_ensures(*within_count, (row, r), answer));
    }
    match answer {
        Ok(count) => {
            let cut: u32 = #[verifier::truncate]
            (count as u32);
            proof {
                assert((count as u32) as u64 == (count as u64) % 0x1_0000_0000u64) by (bit_vector);
                assert(count_cell(answer) == Some(cut));
            }
            Some(cut)
        },
        Err(_) => None,
    }
}

/// Counts from the `len` rows numbered `offset` and up, each within its own
/// radius.
fn count_piece<R: Copy, W: Fn(usize, R) -> Result<usize, ErrorKind>>(
    within_count: &W,
    radius: &Vec<Option<R>>,
    offset: usize,
    len: usize,
) -> (column: Series)
    requires
        offset + len <= radius.len(),
        fits_column(len as int),
        can_count(*within_count, radius@),
    ensures
        series_name(column) == ""@,
        series_len(column) == len,
        holds_counts(
            column,
            *within_count,
            radius@.subrange(offset as int, offset + len),
            offset as int,
        ),
{
    let ghost radii = radius@.subrange(offset as int, offset + len);
    let mut cells: Vec<Option<u32>> = Vec::new();
    let mut i: usize = 0;
    while i < len
        invariant
            i <= len,
            offset + len <= radius.len(),
            can_count(*within_count, radius@),
            radii == radius@.subrange(offset as int, offset + len),
            counted(*within_count, radii.take(i as int), offset as int, cells@),
        decreases len - i,
    {
        let ghost before = cells@;
        let row: usize = offset + i;
        let cell = match radius[row] {
            Some(r) => count_row(within_count, row, r),
            None => None,
        };
        cells.push(cell);
        proof {
            assert forall|j: int| 0 <= j < i + 1 implies match radii.take(i + 1)[j] {
                Some(r) => may_count(*within_count, offset + j, r, #[trigger] cells@[j]),
                None => cells@[j] is None,
            } by {
                if j < i {
                    assert(radii.take(i as int)[j] == radii.take(i + 1)[j]);
                    assert(cells@[j] == before[j]);
                }
            }
        }
        i = i + 1;
    }
    assert(radii.take(len as int) =~= radii);
    u32_column("", cells)
}

/// Counts from the `len` rows numbered `offset` and up, all within the same
/// radius.
fn count_piece_within<R: Copy, W: Fn(usize, R) -> Result<usize, ErrorKind>>(
    within_count: &W,
    r: R,
    offset: usize,
    len: usize,
) -> (column: Series)
    requires
        offset + len <= usize::MAX,
        fits_column(len as int),
        forall|row: usize|
            offset <= row < offset + len ==> #[trigger] call_requires(*within_count, (row, r)),
    ensures
        series_name(column) == ""@,
        series_len(column) == len,
        holds_counts(column, *within_count, one_radius(r, len as int), offset as int),
{
    let mut cells: Vec<Option<u32>> = Vec::new();
    let mut i: usize = 0;
    while i < len
        invariant
            i <= len,
            offset + len <= usize::MAX,
            forall|row: usize|
                offset <= row < offset + len ==> #[trigger] call_requires(*within_count, (row, r)),
            counted(*within_count, one_radius(r, i as int), offset as int, cells@),
        decreases len - i,
    {
        let ghost before = cells@;
        let cell = count_row(within_count, offset + i, r);
        cells.push(cell);
        proof {
            assert forall|j: int| 0 <= j < i + 1 implies match one_radius(r, i + 1)[j] {
                Some(r) => may_count(*within_count, offset + j, r, #[trigger] cells@[j]),
                None => cells@[j] is None,
            } by {
                if j < i {
                    assert(one_radius(r, i as int)[j] == Some(r));
                    assert(cells@[j] == before[j]);
                }
            }
        }
        i = i + 1;
    }
    u32_column("", cells)
}

/// Columns that hold the counts for each piece, joined, hold those for the
/// whole table.
proof fn lemma_join_counts<R, W: Fn(usize, R) -> Result<usize, ErrorKind>>(
    columns: Seq<Series>,
    within_count: W,
    radii: Seq<Option<R>>,
    n: int,
)
    requires
        0 < n,
        columns.len() == n,
        forall|p: int|
            0 <= p < n ==> holds_counts(
                #[trigger] columns[p],
                within_count,
                piece_rows(radii, n, p),
                piece_offset(radii.len() as int, n, p),
            ),
    ensures
        forall|p: int| 0 <= p < n ==> series_u32(#[trigger] columns[p]) is Some,
        counted(within_count, radii, 0, joined_u32(columns)),
{
    let nrows = radii.len() as int;
    let parts = columns.map_values(|s: Series| series_u32(s).unwrap());
    assert forall|p: int| 0 <= p < n implies #[trigger] parts[p].len() == piece_len(nrows, n, p)
        && counted(within_count, piece_rows(radii, n, p), piece_offset(nrows, n, p), parts[p]) by {
        lemma_piece_bounds(nrows, n, p);
        assert(holds_counts(
            columns[p],
            within_count,
            piece_rows(radii, n, p),
            piece_offset(nrows, n, p),
        ));
    }
    lemma_gathered(parts, nrows, n);
    let cells = gathered(parts, nrows, n);
    lemma_join(parts, cells, n);
    assert forall|row: int| 0 <= row < nrows implies match radii[row] {
        Some(r) => may_count(within_count, 0 + row, r, #[trigger] cells[row]),
        None => cells[row] is None,
    } by {
        lemma_row_has_place(nrows, n, row);
        let p = piece_of(nrows, n, row);
        let i = place_in_piece(nrows, n, row);
        lemma_piece_bounds(nrows, n, p);
        assert(parts[p].len() == piece_len(nrows, n, p));
        assert(cells[row] == parts[p][i]);
        assert(piece_rows(radii, n, p)[i] == radii[row]);
    }
}

/// What a piece, given by its first row and its number of rows, contributes to
/// a count within one radius.
spec fn is_count_piece_within<R, W: Fn(usize, R) -> Result<usize, ErrorKind>>(
    column: Series,
    within_count: &W,
    r: R,
    piece: (usize, usize),
) -> bool {
    holds_counts(column, *within_count, one_radius(r, piece.1 as int), piece.0 as int)
}

/// Counts the neighbors of every row within one radius, in `n` pieces on the
/// thread pool.
fn count_in_pieces<R: Copy + Sync, W: Fn(usize, R) -> Result<usize, ErrorKind> + Sync>(
    nrows: usize,
    within_count: &W,
    r: R,
    n: usize,
) -> (column: Series)
    requires
        n >= 1,
        fits_column(nrows as int),
        forall|row: usize| row < nrows ==> #[trigger] call_requires(*within_count, (row, r)),
    ensures
        series_name(column) == "cnt"@,
        series_len(column) == nrows,
        holds_counts(column, *within_count, one_radius(r, nrows as int), 0),
{
    let pieces = split_offsets(nrows, n);
    let work = |piece: (usize, usize)| -> (column: Series)
        requires
            piece.0 + piece.1 <= nrows,
        ensures
            is_count_piece_within(column, within_count, r, piece),
        { count_piece_within(within_count, r, piece.0, piece.1) };
    proof {
        assert forall|p: int| 0 <= p < n implies call_requires(work, (#[trigger] pieces[p],)) by {
            lemma_piece_bounds(nrows as int, n as int, p);
        }
    }
    let columns = map_pieces(pieces, work);
    proof {
        let radii = one_radius(r, nrows as int);
        assert forall|p: int| 0 <= p < n implies holds_counts(
            #[trigger] columns@[p],
            *within_count,
            piece_rows(radii, n as int, p),
            piece_offset(nrows as int, n as int, p),
        ) by {
            lemma_piece_bounds(nrows as int, n as int, p);
            assert(call_ensures(work, (pieces[p],), columns[p]));
            assert(piece_rows(radii, n as int, p) =~= one_radius(
                r,
                piece_len(nrows as int, n as int, p),
            ));
        }
        lemma_join_counts(columns@, *within_count, radii, n as int);
    }
    join_u32("cnt", columns)
}

/// Counts the neighbors of every row within one radius. A row whose count
/// fails gets a null.
pub fn query_nb_cnt<R: Copy + Sync, W: Fn(usize, R) -> Result<usize, ErrorKind> + Sync>(
    nrows: usize,
    within_count: &W,
    r: R,
    can_parallel: bool,
) -> (column: Series)
    requires
        fits_column(nrows as int),
        forall|row: usize| row < nrows ==> #[trigger] call_requires(*within_count, (row, r)),
    ensures
        series_name(column) == (if can_parallel {
            "cnt"@
        } else {
            ""@
        }),
        series_len(column) == nrows,
        holds_counts(column, *within_count, one_radius(r, nrows as int), 0),
{
    if can_parallel {
        let n = thread_count();
        count_in_pieces(nrows, within_count, r, n)
    } else {
        count_piece_within(within_count, r, 0, nrows)
    }
}

/// What a piece, given by its first row and its number of rows, contributes to
/// a count within a radius for each row.
spec fn is_count_piece<R, W: Fn(usize, R) -> Result<usize, ErrorKind>>(
    column: Series,
    within_count: &W,
    radius: &Vec<Option<R>>,
    piece: (usize, usize),
) -> bool {
    holds_counts(
        column,
        *within_count,
        radius@.subrange(piece.0 as int, piece.0 + piece.1),
        piece.0 as int,
    )
}

/// Counts the neighbors of every row, each within its own radius, in `n`
/// pieces on the thread pool.
fn count_by_row_in_pieces<R: Copy + Sync, W: Fn(usize, R) -> Result<usize, ErrorKind> + Sync>(
    within_count: &W,
    radius: &Vec<Option<R>>,
    n: usize,
) -> (column: Series)
    requires
        n >= 1,
        fits_column(radius.len() as int),
        can_count(*within_count, radius@),
    ensures
        series_name(column) == "cnt"@,
        series_len(column) == radius.len(),
        holds_counts(column, *within_count, radius@, 0),
{
    let nrows = radius.len();
    let pieces = split_offsets(nrows, n);
    let work = |piece: (usize, usize)| -> (column: Series)
        requires
            piece.0 + piece.1 <= radius.len(),
        ensures
            is_count_piece(column, within_count, radius, piece),
        { count_piece(within_count, radius, piece.0, piece.1) };
    proof {
        assert forall|p: int| 0 <= p < n implies call_requires(work, (#[trigger] pieces[p],)) by {
            lemma_piece_bounds(nrows as int, n as int, p);
        }
    }
    let columns = map_pieces(pieces, work);
    proof {
        assert forall|p: int| 0 <= p < n implies holds_counts(
            #[trigger] columns@[p],
            *within_count,
            piece_rows(radius@, n as int, p),
            piece_offset(nrows as int, n as int, p),
        ) by {
            assert(call_ensures(work, (pieces[p],), columns[p]));
        }
        lemma_join_counts(columns@, *within_count, radius@, n as int);
    }
    join_u32("cnt", columns)
}

/// Counts the neighbors of every row within a radius: one radius for all
/// rows, or one for each. A row without a radius, or whose count fails, gets
/// a null.
pub fn pl_nb_cnt<R: Copy + Sync, W: Fn(usize, R) -> Result<usize, ErrorKind> + Sync>(
    radius: &Vec<Option<R>>,
    nrows: usize,
    kwargs: &KdtreeKwargs,
    caller_parallel: bool,
    within_count: &W,
) -> (r: Result<Series, KnnError>)
    requires
        radius.len() == 1 ==> radius[0] is Some,
        fits_column(nrows as int),
        can_count(*within_count, radii_by_row(radius@, nrows as int)),
    ensures
        radius.len() == 1 || radius.len() == nrows ==> {
            &&& r is Ok
            &&& series_name(r->Ok_0) == "cnt"@
            &&& series_len(r->Ok_0) == nrows
            &&& holds_counts(r->Ok_0, *within_count, radii_by_row(radius@, nrows as int), 0)
        },
        !(radius.len() == 1 || radius.len() == nrows) ==> (r matches Err(
            KnnError::ShapeMismatch(message),
        ) && message@
            == "Inputs must have the same length or one of them must be a scalar."@),
{
    let can_parallel = kwargs.parallel && !caller_parallel;
    if radius.len() == 1 {
        let single = radius[0].unwrap();
        proof {
            assert(radii_by_row(radius@, nrows as int) =~= one_radius(single, nrows as int));
            assert forall|row: usize| row < nrows implies #[trigger] call_requires(
                *within_count,
                (row, single),
            ) by {
                assert(radii_by_row(radius@, nrows as int)[row as int] == Some(single));
            }
        }
        let column = query_nb_cnt(nrows, within_count, single, can_parallel);
        Ok(with_name(column, "cnt"))
    } else if radius.len() == nrows {
        let column = if can_parallel {
            let n = thread_count();
            count_by_row_in_pieces(within_count, radius, n)
        } else {
            proof {
                assert(radius@.subrange(0, nrows as int) =~= radius@);
            }
            count_piece(within_count, radius, 0, nrows)
        };
        Ok(with_name(column, "cnt"))
    } else {
        Err(
            KnnError::ShapeMismatch(
                "Inputs must have the same length or one of them must be a scalar.".to_string(),
            ),
        )
    }
}

} // verus!
