//! The nearest neighbors of every row of a table, together with their
//! distances.
use kdtree::ErrorKind;
use polars::prelude::Series;
use vstd::prelude::*;

use crate::error::KnnError;
use crate::gather::lemma_join_neighbors;
use crate::inputs::{KdtreeKwargs, PtwiseInputs};
use crate::pieces::{lemma_piece_bounds, piece_len, piece_offset, piece_rows, split_offsets};
use crate::pool::{map_pieces, thread_count};
use crate::ptwise::is_queried;
use crate::schema::{is_as_declared, is_full_output, ColumnField};
use crate::search::{
    can_search, covers, distance_lists, finds_below, flags, found_rows, holds_neighbors, id_lists,
    lists_of, may_find, queried_from, queried_rows, row_neighbors, rows_below, searched,
};
use crate::series::{
    builder_rows, fits_column, fits_entries, in_one_chunk, is_float_lists, join_lists, joined_lists,
    new_struct, renamed, series_chunks, series_len, series_name, series_u32_lists, struct_fields,
    with_name, ListBuilder,
};

verus! {

/// Searches from the `len` rows numbered `offset` and up and gathers the
/// identifiers and the distances of what is found.
fn neighbor_piece<D: Copy, N: Fn(usize, usize) -> Result<Vec<(D, usize)>, ErrorKind>>(
    id: &[u32],
    filter: &Option<Vec<bool>>,
    offset: usize,
    len: usize,
    capacity: usize,
    values_capacity: usize,
    nearest: &N,
    num: usize,
) -> (r: (Series, Vec<Option<Vec<D>>>))
    requires
        offset + len <= usize::MAX,
        covers(flags(*filter), offset + len),
        fits_column(len as int),
        fits_column(capacity as int),
        fits_entries(values_capacity as int),
        can_search(*nearest, num, offset as int, offset + len),
        finds_below(*nearest, num, offset + len, id.len() as int),
    ensures
        series_len(r.0) == len,
        series_chunks(r.0) == 1,
        holds_neighbors(
            r.0,
            r.1@,
            id@,
            *nearest,
            num,
            offset as int,
            queried_from(flags(*filter), offset as int, len as int),
        ),
{
    let ghost queried = queried_from(flags(*filter), offset as int, len as int);
    let ghost mut found: Seq<Option<Seq<(D, usize)>>> = Seq::empty();
    let mut builder = ListBuilder::new("", capacity, values_capacity);
    let mut distances: Vec<Option<Vec<D>>> = Vec::new();
    proof {
        assert(id_lists(id@, found) =~= Seq::empty());
        assert(lists_of(distances@) =~= distance_lists(found));
    }
    let mut i: usize = 0;
    while i < len
        invariant
            i <= len,
            offset + len <= usize::MAX,
            covers(flags(*filter), offset + len),
            can_search(*nearest, num, offset as int, offset + len),
            finds_below(*nearest, num, offset + len, id.len() as int),
            queried == queried_from(flags(*filter), offset as int, len as int),
            searched(*nearest, num, offset as int, queried.take(i as int), found),
            builder_rows(builder) == id_lists(id@, found),
            lists_of(distances@) == distance_lists(found),
        decreases len - i,
    {
        let ghost before = found;
        let ghost rows_before = distances@;
        let answer = if is_queried(filter, offset + i) {
            let answer = nearest(offset + i, num);
            proof {
                found = before.push(found_rows(answer));
                assert(call_ensures(*nearest, ((offset + i) as usize, num), answer));
                assert(may_find(*nearest, offset + i, num, found[i as int]));
                assert(rows_below(answer, id.len() as int));
            }
            match answer {
                Ok(rows) => Some(rows),
                Err(_) => None,
            }
        } else {
            proof {
                found = before.push(None);
            }
            None
        };
        match answer {
            Some(rows) => {
                let (ids, row_distances) = row_neighbors(id, &rows);
                builder.append_slice(ids.as_slice());
                distances.push(Some(row_distances));
            },
            None => {
                builder.append_null();
                distances.push(None);
            },
        }
        proof {
            assert(id_lists(id@, found) =~= builder_rows(builder));
            assert(lists_of(rows_before).len() == distance_lists(before).len());
            assert(rows_before.len() == i);
            assert forall|j: int| 0 <= j < i + 1 implies #[trigger] lists_of(distances@)[j]
                == distance_lists(found)[j] by {
                if j < i {
                    assert(lists_of(rows_before)[j] == distance_lists(before)[j]);
                }
            }
            assert(lists_of(distances@) =~= distance_lists(found));
            assert forall|j: int| 0 <= j < i + 1 implies if queried.take(i + 1)[j] {
                may_find(*nearest, offset + j, num, #[trigger] found[j])
            } else {
                found[j] is None
            } by {
                if j < i {
                    assert(queried.take(i as int)[j] == queried.take(i + 1)[j]);
                    assert(found[j] == before[j]);
                }
            }
        }
        i = i + 1;
    }
    assert(queried.take(len as int) =~= queried);
    (builder.finish(), distances)
}

/// What a piece contributes to the whole, given by its first row and its
/// number of rows.
spec fn is_neighbor_piece<D, N: Fn(usize, usize) -> Result<Vec<(D, usize)>, ErrorKind>>(
    r: (Series, Vec<Option<Vec<D>>>),
    id: &[u32],
    filter: &Option<Vec<bool>>,
    nearest: &N,
    num: usize,
    piece: (usize, usize),
) -> bool {
    &&& series_chunks(r.0) == 1
    &&& holds_neighbors(
        r.0,
        r.1@,
        id@,
        *nearest,
        num,
        piece.0 as int,
        queried_from(flags(*filter), piece.0 as int, piece.1 as int),
    )
}

/// The rows of all the pieces.
spec fn rows_of_pieces<D>(pieces: Seq<(Series, Vec<Option<Vec<D>>>)>) -> Seq<
    Seq<Option<Vec<D>>>,
> {
    pieces.map_values(|piece: (Series, Vec<Option<Vec<D>>>)| piece.1@)
}

/// The columns of the pieces, and their rows one piece after the other.
fn unzip_pieces<D>(pieces: Vec<(Series, Vec<Option<Vec<D>>>)>) -> (r: (
    Vec<Series>,
    Vec<Option<Vec<D>>>,
))
    ensures
        r.0@ == pieces@.map_values(|piece: (Series, Vec<Option<Vec<D>>>)| piece.0),
        r.1@ == rows_of_pieces(pieces@).flatten(),
{
    let ghost all = pieces@;
    let mut columns: Vec<Series> = Vec::new();
    let mut rows: Vec<Option<Vec<D>>> = Vec::new();
    proof {
        assert(rows_of_pieces(all).take(0).flatten_alt() =~= Seq::empty());
    }
    for piece in it: pieces.into_iter()
        invariant
            it.seq() == all,
            columns@ == all.take(it.index()).map_values(
                |piece: (Series, Vec<Option<Vec<D>>>)| piece.0,
            ),
            rows@ == rows_of_pieces(all).take(it.index()).flatten_alt(),
    {
        let ghost done = it.index();
        let (column, more) = piece;
        let mut more = more;
        columns.push(column);
        rows.append(&mut more);
        proof {
            let next = rows_of_pieces(all).take(done + 1);
            assert(next.drop_last() =~= rows_of_pieces(all).take(done));
            assert(columns@ =~= all.take(done + 1).map_values(
                |piece: (Series, Vec<Option<Vec<D>>>)| piece.0,
            ));
        }
    }
    proof {
        assert(all.take(all.len() as int) =~= all);
        assert(rows_of_pieces(all).take(all.len() as int) =~= rows_of_pieces(all));
        rows_of_pieces(all).lemma_flatten_and_flatten_alt_are_equivalent();
    }
    (columns, rows)
}

/// The flags of a piece whose rows go by their own.
proof fn lemma_queried_rows(filter: Option<Seq<bool>>, nrows: int, n: int, p: int)
    requires
        0 <= nrows,
        0 <= p < n,
    ensures
        piece_rows(queried_rows(filter, nrows), n, p) == queried_from(
            filter,
            piece_offset(nrows, n, p),
            piece_len(nrows, n, p),
        ),
{
    lemma_piece_bounds(nrows, n, p);
    assert(piece_rows(queried_rows(filter, nrows), n, p) =~= queried_from(
        filter,
        piece_offset(nrows, n, p),
        piece_len(nrows, n, p),
    ));
}

/// Searches from every row, in `n` pieces on the thread pool, and gathers the
/// identifiers and the distances of what is found.
fn neighbor_pieces<
    D: Copy + Send,
    N: Fn(usize, usize) -> Result<Vec<(D, usize)>, ErrorKind> + Sync,
>(
    id: &[u32],
    filter: &Option<Vec<bool>>,
    nrows: usize,
    n: usize,
    values_capacity: usize,
    nearest: &N,
    num: usize,
) -> (r: (Series, Vec<Option<Vec<D>>>))
    requires
        n >= 1,
        covers(flags(*filter), nrows as int),
        fits_column(nrows as int),
        fits_entries(values_capacity as int),
        can_search(*nearest, num, 0, nrows as int),
        finds_below(*nearest, num, nrows as int, id.len() as int),
    ensures
        series_len(r.0) == nrows,
        series_chunks(r.0) >= 1,
        holds_neighbors(
            r.0,
            r.1@,
            id@,
            *nearest,
            num,
            0,
            queried_rows(flags(*filter), nrows as int),
        ),
{
    let ghost queried = queried_rows(flags(*filter), nrows as int);
    let pieces = split_offsets(nrows, n);
    let work = |piece: (usize, usize)| -> (r: (Series, Vec<Option<Vec<D>>>))
        requires
            piece.0 + piece.1 <= nrows,
        ensures
            is_neighbor_piece(r, id, filter, nearest, num, piece),
        {
            neighbor_piece(id, filter, piece.0, piece.1, piece.1, values_capacity, nearest, num)
        };
    proof {
        assert forall|p: int| 0 <= p < n implies call_requires(work, (#[trigger] pieces[p],)) by {
            lemma_piece_bounds(nrows as int, n as int, p);
        }
    }
    let results = map_pieces(pieces, work);
    let ghost parts = results@;
    let (columns, distances) = unzip_pieces(results);
    proof {
        assert forall|p: int|
            #![trigger columns@[p]]
            0 <= p < n implies holds_neighbors(
            columns@[p],
            rows_of_pieces(parts)[p],
            id@,
            *nearest,
            num,
            piece_offset(nrows as int, n as int, p),
            piece_rows(queried, n as int, p),
        ) && series_chunks(columns@[p]) == 1 by {
            lemma_queried_rows(flags(*filter), nrows as int, n as int, p);
            assert(call_ensures(work, (pieces[p],), parts[p]));
        }
        let found = lemma_join_neighbors(
            columns@,
            rows_of_pieces(parts),
            id@,
            *nearest,
            num,
            queried,
            n as int,
        );
        assert(joined_lists(columns@).len() == nrows);
    }
    (join_lists("", columns), distances)
}

/// The column holds structs of two fields: first the lists of `idx`, under the
/// name `idx`, then the lists of `dist`, under the name `dist`.
pub open spec fn is_neighbor_column(column: Series, idx: Series, dist: Series) -> bool {
    &&& series_name(column) == "knn_dist"@
    &&& series_len(column) == series_len(idx)
    &&& struct_fields(column) matches Some(fields)
    &&& fields.len() == 2
    &&& fields[0] == in_one_chunk(renamed(idx, "idx"@))
    &&& series_name(fields[0]) == "idx"@
    &&& series_len(fields[0]) == series_len(idx)
    &&& series_u32_lists(fields[0]) == series_u32_lists(idx)
    &&& fields[1] == in_one_chunk(renamed(dist, "dist"@))
    &&& series_name(fields[1]) == "dist"@
    &&& series_len(fields[1]) == series_len(dist)
    &&& is_float_lists(fields[1]) == is_float_lists(dist)
}

/// Renaming changes the names of the two columns and not the lists in them.
pub open spec fn renaming_keeps_lists(idx: Series, dist: Series) -> bool {
    &&& series_name(renamed(idx, "idx"@)) == "idx"@
    &&& series_u32_lists(renamed(idx, "idx"@)) == series_u32_lists(idx)
    &&& series_name(renamed(dist, "dist"@)) == "dist"@
    &&& is_float_lists(renamed(dist, "dist"@)) == is_float_lists(dist)
}

/// The column holds the identifiers of what was found from each row, and the
/// column that `dist_lists` makes of the distances.
pub open spec fn holds_neighbor_structs<
    D,
    N: Fn(usize, usize) -> Result<Vec<(D, usize)>, ErrorKind>,
    L: Fn(Vec<Option<Vec<D>>>) -> Series,
>(
    column: Series,
    id: Seq<u32>,
    nearest: N,
    num: usize,
    queried: Seq<bool>,
    dist_lists: L,
) -> bool {
    exists|idx: Series, rows: Vec<Option<Vec<D>>>, dist: Series|
        {
            &&& #[trigger] call_ensures(dist_lists, (rows,), dist)
            &&& #[trigger] holds_neighbors(idx, rows@, id, nearest, num, 0, queried)
            &&& is_float_lists(dist)
            &&& is_neighbor_column(column, idx, dist)
            &&& renaming_keeps_lists(idx, dist)
        }
}

/// The column of structs that a query for neighbors and their distances
/// answers with: the identifiers under `idx` and the distances under `dist`.
pub fn knn_dist_column(idx: Series, dist: Series) -> (r: Result<Series, KnnError>)
    requires
        series_len(idx) == series_len(dist),
        series_chunks(idx) >= 1,
        series_chunks(dist) >= 1,
    ensures
        r is Ok,
        is_neighbor_column(r->Ok_0, idx, dist),
        renaming_keeps_lists(idx, dist),
{
    let mut fields: Vec<Series> = Vec::new();
    fields.push(with_name(idx, "idx"));
    fields.push(with_name(dist, "dist"));
    proof {
        reveal_strlit("idx");
        reveal_strlit("dist");
        assert("idx"@.len() != "dist"@.len());
    }
    match new_struct("knn_dist", fields) {
        Ok(column) => Ok(column),
        Err(e) => Err(KnnError::Polars(e)),
    }
}

/// The identifiers and the distances of the nearest neighbors of every row.
///
/// Each row that is queried is searched for its `k + 1` nearest rows: it is
/// its own nearest neighbor. A row that is not queried, or whose search
/// fails, gets a null in both fields. `dist_lists` makes a column of lists of
/// floating-point numbers out of the distances. The column is as
/// `knn_full_output` declares it.
pub fn pl_knn_ptwise_w_dist<
    D: Copy + Send,
    N: Fn(usize, usize) -> Result<Vec<(D, usize)>, ErrorKind> + Sync,
    L: Fn(Vec<Option<Vec<D>>>) -> Series,
>(
    inputs: &PtwiseInputs,
    nrows: usize,
    kwargs: &KdtreeKwargs,
    caller_parallel: bool,
    nearest: &N,
    dist_lists: L,
) -> (r: Result<Series, KnnError>)
    requires
        kwargs.k < usize::MAX,
        inputs.filter is None ==> fits_entries(kwargs.k + 1),
        covers(flags(inputs.filter), nrows as int),
        fits_column(nrows as int),
        fits_column(inputs.id.len() as int),
        can_search(*nearest, (kwargs.k + 1) as usize, 0, nrows as int),
        finds_below(*nearest, (kwargs.k + 1) as usize, nrows as int, inputs.id.len() as int),
        forall|rows: Vec<Option<Vec<D>>>|
            rows.len() == nrows ==> #[trigger] call_requires(dist_lists, (rows,)),
        forall|rows: Vec<Option<Vec<D>>>, dist: Series|
            rows.len() == nrows && #[trigger] call_ensures(dist_lists, (rows,), dist)
                ==> series_len(dist) == nrows && series_chunks(dist) >= 1 && is_float_lists(dist),
    ensures
        r is Ok,
        series_name(r->Ok_0) == "knn_dist"@,
        series_len(r->Ok_0) == nrows,
        holds_neighbor_structs(
            r->Ok_0,
            inputs.id@,
            *nearest,
            (kwargs.k + 1) as usize,
            queried_rows(flags(inputs.filter), nrows as int),
            dist_lists,
        ),
        forall|declared: ColumnField| #[trigger]
            is_full_output(declared) ==> is_as_declared(r->Ok_0, declared),
{
    let can_parallel = kwargs.parallel && !caller_parallel;
    let id = inputs.id.as_slice();
    let values_capacity: usize = if inputs.filter.is_none() {
        kwargs.k + 1
    } else {
        0
    };
    let (idx, rows) = if can_parallel {
        let n = thread_count();
        neighbor_pieces(id, &inputs.filter, nrows, n, values_capacity, nearest, kwargs.k + 1)
    } else {
        neighbor_piece(
            id,
            &inputs.filter,
            0,
            nrows,
            id.len(),
            values_capacity,
            nearest,
            kwargs.k + 1,
        )
    };
    let ghost gathered = (idx, rows);
    proof {
        assert(lists_of(rows@).len() == nrows);
    }
    let dist = dist_lists(rows);
    proof {
        assert(call_ensures(dist_lists, (gathered.1,), dist));
        assert(holds_neighbors(
            gathered.0,
            gathered.1@,
            inputs.id@,
            *nearest,
            (kwargs.k + 1) as usize,
            0,
            queried_rows(flags(inputs.filter), nrows as int),
        ));
    }
    knn_dist_column(idx, dist)
}

} // verus!
