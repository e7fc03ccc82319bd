//! Queries from every row of a table: the nearest neighbors, with or without
//! their distances, and all neighbors within a radius.
use kdtree::ErrorKind;
use polars::prelude::Series;
use vstd::prelude::*;

use crate::gather::lemma_join_ids;
use crate::inputs::{KdtreeKwargs, KdtreeRadiusKwargs, PtwiseInputs};
use crate::pieces::{
    lemma_piece_bounds, lemma_place_is_unique, piece_len, piece_offset, piece_rows, split_offsets,
};
use crate::pool::{map_pieces, thread_count};
use crate::search::{
    can_search, covers, finds_below, flags, found_rows, holds_ids, id_lists, may_find,
    queried_by_place, queried_from, queried_rows, row_ids, rows_below, searched,
};
use crate::series::{
    builder_name, builder_rows, fits_column, fits_entries, join_lists, joined_lists, series_chunks,
    series_len, series_name, ListBuilder,
};

verus! {

/// Whether the row at `at` is queried.
pub(crate) fn is_queried(filter: &Option<Vec<bool>>, at: usize) -> (r: bool)
    requires
        covers(flags(*filter), at + 1),
    ensures
        r == queried_from(flags(*filter), 0, at + 1)[at as int],
        *filter matches Some(kept) ==> r == kept[at as int],
        *filter is None ==> r,
{
    match filter {
        Some(kept) => kept[at],
        None => true,
    }
}

/// Searches from the `len` rows numbered `offset` and up and gathers the
/// identifiers of what is found. The flag of the first of them stands at
/// `start` in the filter.
fn id_piece<P: Copy, D, S: Fn(usize, P) -> Result<Vec<(D, usize)>, ErrorKind>>(
    id: &[u32],
    filter: &Option<Vec<bool>>,
    start: usize,
    offset: usize,
    len: usize,
    capacity: usize,
    values_capacity: usize,
    search: &S,
    param: P,
) -> (column: Series)
    requires
        offset + len <= usize::MAX,
        start + len <= usize::MAX,
        covers(flags(*filter), start + len),
        fits_column(len as int),
        fits_column(capacity as int),
        fits_entries(values_capacity as int),
        can_search(*search, param, offset as int, offset + len),
        finds_below(*search, param, offset + len, id.len() as int),
    ensures
        series_name(column) == ""@,
        series_len(column) == len,
        series_chunks(column) == 1,
        holds_ids(
            column,
            id@,
            *search,
            param,
            offset as int,
            queried_from(
                flags(*filter),
                start as int,
                len as int,
            ),
        ),
{
    let ghost queried = queried_from(
        flags(*filter),
        start as int,
        len as int,
    );
    let ghost mut found: Seq<Option<Seq<(D, usize)>>> = Seq::empty();
    let mut builder = ListBuilder::new("", capacity, values_capacity);
    proof {
        assert(id_lists(id@, found) =~= Seq::empty());
    }
    let mut i: usize = 0;
    while i < len
        invariant
            i <= len,
            offset + len <= usize::MAX,
            start + len <= usize::MAX,
            covers(flags(*filter), start + len),
            can_search(*search, param, offset as int, offset + len),
            finds_below(*search, param, offset + len, id.len() as int),
            queried == queried_from(
                flags(*filter),
                start as int,
                len as int,
            ),
            searched(
                *search,
                param,
                offset as int,
                queried.take(i as int),
                found,
            ),
            builder_name(builder) == ""@,
            builder_rows(builder) == id_lists(id@, found),
        decreases len - i,
    {
        let ghost before = found;
        let nearest = if is_queried(filter, start + i) {
            let answer = search(offset + i, param);
            proof {
                found = before.push(found_rows(answer));
                assert(call_ensures(*search, ((offset + i) as usize, param), answer));
                assert(may_find(*search, offset + i, param, found[i as int]));
                assert(rows_below(answer, id.len() as int));
            }
            match answer {
                Ok(rows) => Some(rows),
                Err(_) => None,
            }
        } else {
            proof {
                found = before.push(None);
            }
            None
        };
        match nearest {
            Some(rows) => {
                let ids = row_ids(id, &rows);
                builder.append_slice(ids.as_slice());
            },
            None => {
                builder.append_null();
            },
        }
        proof {
            assert(id_lists(id@, found) =~= builder_rows(builder));
            assert forall|j: int| 0 <= j < i + 1 implies if queried.take(i + 1)[j] {
                may_find(*search, offset + j, param, #[trigger] found[j])
            } else {
                found[j] is None
            } by {
                if j < i {
                    assert(queried.take(i as int)[j] == queried.take(i + 1)[j]);
                    assert(found[j] == before[j]);
                }
            }
        }
        i = i + 1;
    }
    assert(queried.take(len as int) =~= queried);
    builder.finish()
}

/// The flags of a piece whose rows count them from the start of the filter.
proof fn lemma_queried_by_place(filter: Option<Seq<bool>>, nrows: int, n: int, p: int)
    requires
        0 <= nrows,
        0 <= p < n,
    ensures
        piece_rows(queried_by_place(filter, nrows, n), n, p) == queried_from(
            filter,
            0,
            piece_len(nrows, n, p),
        ),
{
    let whole = queried_by_place(filter, nrows, n);
    lemma_piece_bounds(nrows, n, p);
    assert forall|i: int| 0 <= i < piece_len(nrows, n, p) implies piece_rows(whole, n, p)[i]
        == queried_from(filter, 0, piece_len(nrows, n, p))[i] by {
        lemma_place_is_unique(nrows, n, p, i);
    }
    assert(piece_rows(whole, n, p) =~= queried_from(filter, 0, piece_len(nrows, n, p)));
}

/// There is a flag for each of the rows of a piece of `len` rows.
spec fn has_flags(filter: &Option<Vec<bool>>, len: usize) -> bool {
    covers(flags(*filter), len as int)
}

/// The column is what a piece, given by its first row and its number of rows,
/// contributes to the whole.
spec fn is_id_piece<P, D, S: Fn(usize, P) -> Result<Vec<(D, usize)>, ErrorKind>>(
    column: Series,
    id: &[u32],
    filter: &Option<Vec<bool>>,
    search: &S,
    param: P,
    piece: (usize, usize),
) -> bool {
    &&& series_chunks(column) == 1
    &&& holds_ids(
        column,
        id@,
        *search,
        param,
        piece.0 as int,
        queried_from(flags(*filter), 0, piece.1 as int),
    )
}

/// Searches from every row, in `n` pieces on the thread pool, and gathers the
/// identifiers of what is found. Every piece counts its flags from the start
/// of the filter.
fn id_pieces<P: Copy + Sync, D, S: Fn(usize, P) -> Result<Vec<(D, usize)>, ErrorKind> + Sync>(
    name: &str,
    id: &[u32],
    filter: &Option<Vec<bool>>,
    nrows: usize,
    n: usize,
    values_capacity: usize,
    search: &S,
    param: P,
) -> (column: Series)
    requires
        n >= 1,
        covers(flags(*filter), piece_len(nrows as int, n as int, n - 1)),
        fits_column(nrows as int),
        fits_entries(values_capacity as int),
        can_search(*search, param, 0, nrows as int),
        finds_below(*search, param, nrows as int, id.len() as int),
    ensures
        series_name(column) == name@,
        series_len(column) == nrows,
        holds_ids(
            column,
            id@,
            *search,
            param,
            0,
            queried_by_place(flags(*filter), nrows as int, n as int),
        ),
{
    let ghost queried = queried_by_place(flags(*filter), nrows as int, n as int);
    let pieces = split_offsets(nrows, n);
    let work = |piece: (usize, usize)| -> (column: Series)
        requires
            piece.0 + piece.1 <= nrows,
            has_flags(filter, piece.1),
        ensures
            is_id_piece(column, id, filter, search, param, piece),
        {
            id_piece(id, filter, 0, piece.0, piece.1, piece.1, values_capacity, search, param)
        };
    proof {
        assert forall|p: int| 0 <= p < n implies call_requires(work, (#[trigger] pieces[p],)) by {
            lemma_piece_bounds(nrows as int, n as int, p);
            lemma_piece_bounds(nrows as int, n as int, n - 1);
            lemma_last_piece_is_longest(nrows as int, n as int, p);
        }
    }
    let columns = map_pieces(pieces, work);
    proof {
        assert forall|p: int| 0 <= p < n implies holds_ids(
            #[trigger] columns@[p],
            id@,
            *search,
            param,
            piece_offset(nrows as int, n as int, p),
            piece_rows(queried, n as int, p),
        ) && series_chunks(columns@[p]) == 1 by {
            lemma_queried_by_place(flags(*filter), nrows as int, n as int, p);
            assert(call_ensures(work, (pieces[p],), columns[p]));
        }
        let found = lemma_join_ids(columns@, id@, *search, param, queried, n as int);
        assert(joined_lists(columns@).len() == nrows);
    }
    join_lists(name, columns)
}

/// No piece has more rows than the last one.
proof fn lemma_last_piece_is_longest(len: int, n: int, p: int)
    requires
        0 <= len,
        0 <= p < n,
    ensures
        piece_len(len, n, p) <= piece_len(len, n, n - 1),
{
    let c = len / n;
    assert((n - 1) * c + c <= len) by (nonlinear_arith)
        requires
            0 <= len,
            0 < n,
            c == len / n,
    ;
}

/// The identifiers of the nearest neighbors of every row, found in `n` pieces
/// on the thread pool.
///
/// Each row that is queried is searched for its `k + 1` nearest rows: it is
/// its own nearest neighbor. Every piece counts its flags from the start of
/// the filter.
pub fn knn_ptwise_in_pieces<D, N: Fn(usize, usize) -> Result<Vec<(D, usize)>, ErrorKind> + Sync>(
    inputs: &PtwiseInputs,
    nrows: usize,
    k: usize,
    n: usize,
    nearest: &N,
) -> (column: Series)
    requires
        n >= 1,
        k < usize::MAX,
        inputs.filter is None ==> fits_entries(k + 1),
        covers(flags(inputs.filter), piece_len(nrows as int, n as int, n - 1)),
        fits_column(nrows as int),
        can_search(*nearest, (k + 1) as usize, 0, nrows as int),
        finds_below(*nearest, (k + 1) as usize, nrows as int, inputs.id.len() as int),
    ensures
        series_name(column) == "knn"@,
        series_len(column) == nrows,
        holds_ids(
            column,
            inputs.id@,
            *nearest,
            (k + 1) as usize,
            0,
            queried_by_place(flags(inputs.filter), nrows as int, n as int),
        ),
{
    let values_capacity: usize = if inputs.filter.is_none() {
        k + 1
    } else {
        0
    };
    id_pieces(
        "knn",
        inputs.id.as_slice(),
        &inputs.filter,
        nrows,
        n,
        values_capacity,
        nearest,
        k + 1,
    )
}

/// The identifiers of the nearest neighbors of every row, found on the thread
/// pool, in as many pieces as there are threads. There is no column if the
/// filter has fewer flags than the longest piece has rows.
pub fn knn_ptwise_on_pool<D, N: Fn(usize, usize) -> Result<Vec<(D, usize)>, ErrorKind> + Sync>(
    inputs: &PtwiseInputs,
    nrows: usize,
    k: usize,
    nearest: &N,
) -> (r: Option<Series>)
    requires
        k < usize::MAX,
        inputs.filter is None ==> fits_entries(k + 1),
        fits_column(nrows as int),
        can_search(*nearest, (k + 1) as usize, 0, nrows as int),
        finds_below(*nearest, (k + 1) as usize, nrows as int, inputs.id.len() as int),
    ensures
        exists|n: int|
            #![trigger queried_by_place(flags(inputs.filter), nrows as int, n)]
            n >= 1 && if covers(flags(inputs.filter), piece_len(nrows as int, n, n - 1)) {
                &&& r matches Some(column)
                &&& series_name(column) == "knn"@
                &&& series_len(column) == nrows
                &&& holds_ids(
                    column,
                    inputs.id@,
                    *nearest,
                    (k + 1) as usize,
                    0,
                    queried_by_place(flags(inputs.filter), nrows as int, n),
                )
            } else {
                r is None
            },
        covers(flags(inputs.filter), nrows as int) ==> r is Some,
{
    let n = thread_count();
    let ghost queried = queried_by_place(flags(inputs.filter), nrows as int, n as int);
    let longest: usize = split_offsets(nrows, n)[n - 1].1;
    proof {
        lemma_piece_bounds(nrows as int, n as int, n - 1);
    }
    let enough = match &inputs.filter {
        Some(kept) => longest <= kept.len(),
        None => true,
    };
    if enough {
        Some(knn_ptwise_in_pieces(inputs, nrows, k, n, nearest))
    } else {
        None
    }
}

/// The identifiers of the nearest neighbors of every row.
///
/// Each row that is queried is searched for its `k + 1` nearest rows: it is
/// its own nearest neighbor. A row that is not queried, or whose search
/// fails, gets a null.
///
/// On the thread pool the table is cut into as many pieces as there are
/// threads, and every piece counts its flags from the start of the filter.
pub fn pl_knn_ptwise<D, N: Fn(usize, usize) -> Result<Vec<(D, usize)>, ErrorKind> + Sync>(
    inputs: &PtwiseInputs,
    nrows: usize,
    kwargs: &KdtreeKwargs,
    caller_parallel: bool,
    nearest: &N,
) -> (column: Series)
    requires
        kwargs.k < usize::MAX,
        inputs.filter is None ==> fits_entries(kwargs.k + 1),
        covers(flags(inputs.filter), nrows as int),
        fits_column(nrows as int),
        fits_column(inputs.id.len() as int),
        can_search(*nearest, (kwargs.k + 1) as usize, 0, nrows as int),
        finds_below(*nearest, (kwargs.k + 1) as usize, nrows as int, inputs.id.len() as int),
    ensures
        series_len(column) == nrows,
        kwargs.parallel && !caller_parallel ==> series_name(column) == "knn"@ && exists|n: int|
            #![trigger queried_by_place(flags(inputs.filter), nrows as int, n)]
            n >= 1 && holds_ids(
                column,
                inputs.id@,
                *nearest,
                (kwargs.k + 1) as usize,
                0,
                queried_by_place(flags(inputs.filter), nrows as int, n),
            ),
        !(kwargs.parallel && !caller_parallel) ==> series_name(column) == ""@ && holds_ids(
            column,
            inputs.id@,
            *nearest,
            (kwargs.k + 1) as usize,
            0,
            queried_rows(flags(inputs.filter), nrows as int),
        ),
{
    let can_parallel = kwargs.parallel && !caller_parallel;
    if can_parallel {
        let n = thread_count();
        proof {
            lemma_piece_bounds(nrows as int, n as int, n - 1);
        }
        knn_ptwise_in_pieces(inputs, nrows, kwargs.k, n, nearest)
    } else {
        let values_capacity: usize = if inputs.filter.is_none() {
            kwargs.k + 1
        } else {
            0
        };
        id_piece(
            inputs.id.as_slice(),
            &inputs.filter,
            0,
            0,
            nrows,
            inputs.id.len(),
            values_capacity,
            nearest,
            kwargs.k + 1,
        )
    }
}

/// The identifiers of all rows within a radius of every row. A row whose
/// search fails gets a null.
pub fn pl_query_radius_ptwise<
    R: Copy + Sync,
    D,
    W: Fn(usize, R) -> Result<Vec<(D, usize)>, ErrorKind> + Sync,
>(
    id: &[u32],
    nrows: usize,
    kwargs: &KdtreeRadiusKwargs<R>,
    caller_parallel: bool,
    within: &W,
) -> (column: Series)
    requires
        fits_column(nrows as int),
        fits_column(id.len() as int),
        can_search(*within, kwargs.r, 0, nrows as int),
        finds_below(*within, kwargs.r, nrows as int, id.len() as int),
    ensures
        series_len(column) == nrows,
        series_name(column) == (if kwargs.parallel && !caller_parallel {
            "knn-radius"@
        } else {
            ""@
        }),
        holds_ids(column, id@, *within, kwargs.r, 0, queried_rows(None, nrows as int)),
{
    let everywhere: Option<Vec<bool>> = None;
    let can_parallel = kwargs.parallel && !caller_parallel;
    if can_parallel {
        let n = thread_count();
        proof {
            assert(queried_by_place(None, nrows as int, n as int) =~= queried_rows(
                None,
                nrows as int,
            ));
        }
        id_pieces("knn-radius", id, &everywhere, nrows, n, 8, within, kwargs.r)
    } else {
        id_piece(id, &everywhere, 0, 0, nrows, id.len(), 16, within, kwargs.r)
    }
}

} // verus!
