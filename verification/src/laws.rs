//! What holds of the queries as a whole.
use kdtree::ErrorKind;
use polars::prelude::Series;
use vstd::prelude::*;

use crate::counts::{count_cell, holds_counts, may_count, one_radius, radii_by_row};
use crate::filter::{found_mask, is_found};
use crate::pieces::{
    lemma_piece_bounds, lemma_place_is_unique, lemma_row_has_place, piece_len, piece_of,
    piece_offset, place_in_piece,
};
use crate::schema::{is_as_declared, is_full_output, ColumnField};
use crate::search::{
    distance_lists, finds_below, found_rows, holds_ids, holds_neighbors, id_lists, lists_of,
    may_find, queried_by_place, queried_rows, rows_below, searched,
};
use crate::series::{is_float_lists, series_u32, series_u32_lists, struct_fields};
use crate::tree::{adds, fills};
use crate::with_dist::{holds_neighbor_structs, is_neighbor_column};

verus! {

/// The search has one answer for each of the first `nrows` rows.
pub open spec fn has_one_answer<P, D, S: Fn(usize, P) -> Result<Vec<(D, usize)>, ErrorKind>>(
    search: S,
    param: P,
    nrows: int,
) -> bool {
    forall|
        row: usize,
        one: Result<Vec<(D, usize)>, ErrorKind>,
        other: Result<Vec<(D, usize)>, ErrorKind>,
    |
        row < nrows && #[trigger] call_ensures(search, (row, param), one)
            && #[trigger] call_ensures(
            search,
            (row, param),
            other,
        ) ==> found_rows(one) == found_rows(other)
}

/// The search from a row can succeed.
pub open spec fn can_succeed<P, D, S: Fn(usize, P) -> Result<Vec<(D, usize)>, ErrorKind>>(
    search: S,
    row: int,
    param: P,
) -> bool {
    exists|answer: Result<Vec<(D, usize)>, ErrorKind>| #[trigger]
        call_ensures(search, (row as usize, param), answer) && answer is Ok
}

/// The pieces that a table is cut into lie one behind the other, and every
/// row is in exactly one of them.
pub proof fn pieces_partition_the_rows(len: int, n: int)
    requires
        0 <= len,
        0 < n,
    ensures
        piece_offset(len, n, 0) == 0,
        forall|p: int|
            0 <= p < n - 1 ==> #[trigger] piece_offset(len, n, p) + piece_len(len, n, p)
                == piece_offset(len, n, p + 1),
        piece_offset(len, n, n - 1) + piece_len(len, n, n - 1) == len,
        forall|row: int|
            0 <= row < len ==> 0 <= #[trigger] piece_of(len, n, row) < n && 0 <= place_in_piece(
                len,
                n,
                row,
            ) < piece_len(len, n, piece_of(len, n, row)),
        forall|p: int, row: int|
            0 <= p < n && #[trigger] piece_offset(len, n, p) <= row < piece_offset(len, n, p)
                + piece_len(len, n, p) ==> p == #[trigger] piece_of(len, n, row),
{
    lemma_piece_bounds(len, n, 0);
    lemma_piece_bounds(len, n, n - 1);
    assert forall|p: int| 0 <= p < n - 1 implies #[trigger] piece_offset(len, n, p) + piece_len(
        len,
        n,
        p,
    ) == piece_offset(len, n, p + 1) by {
        lemma_piece_bounds(len, n, p);
    }
    assert forall|row: int| 0 <= row < len implies 0 <= #[trigger] piece_of(len, n, row) < n && 0
        <= place_in_piece(len, n, row) < piece_len(len, n, piece_of(len, n, row)) by {
        lemma_row_has_place(len, n, row);
    }
    assert forall|p: int, row: int|
        0 <= p < n && #[trigger] piece_offset(len, n, p) <= row < piece_offset(len, n, p)
            + piece_len(len, n, p) implies p == #[trigger] piece_of(len, n, row) by {
        lemma_place_is_unique(len, n, p, row - piece_offset(len, n, p));
    }
}

/// What is found is determined by the search and by which rows are queried.
proof fn lemma_found_is_determined<P, D, S: Fn(usize, P) -> Result<Vec<(D, usize)>, ErrorKind>>(
    search: S,
    param: P,
    queried: Seq<bool>,
    one: Seq<Option<Seq<(D, usize)>>>,
    other: Seq<Option<Seq<(D, usize)>>>,
)
    requires
        has_one_answer(search, param, queried.len() as int),
        searched(search, param, 0, queried, one),
        searched(search, param, 0, queried, other),
    ensures
        one == other,
{
    assert forall|i: int| 0 <= i < queried.len() implies one[i] == other[i] by {
        if queried[i] {
            assert(may_find(search, 0 + i, param, one[i]));
            assert(may_find(search, 0 + i, param, other[i]));
        }
    }
    assert(one =~= other);
}

/// The identifiers that a query gathers depend on the search and on which rows
/// are queried, on nothing else: a query within a radius gathers the same on
/// the thread pool as without it, on however many threads.
pub proof fn ids_are_determined<P, D, S: Fn(usize, P) -> Result<Vec<(D, usize)>, ErrorKind>>(
    one: Series,
    other: Series,
    id: Seq<u32>,
    search: S,
    param: P,
    queried: Seq<bool>,
)
    requires
        has_one_answer(search, param, queried.len() as int),
        holds_ids(one, id, search, param, 0, queried),
        holds_ids(other, id, search, param, 0, queried),
    ensures
        series_u32_lists(one) == series_u32_lists(other),
{
    let f = choose|f: Seq<Option<Seq<(D, usize)>>>| #[trigger]
        searched(search, param, 0, queried, f) && series_u32_lists(one) == Some(id_lists(id, f));
    let g = choose|g: Seq<Option<Seq<(D, usize)>>>| #[trigger]
        searched(search, param, 0, queried, g) && series_u32_lists(other) == Some(id_lists(id, g));
    lemma_found_is_determined(search, param, queried, f, g);
}

/// The identifiers and the distances that a query gathers depend on the search
/// and on which rows are queried, on nothing else: the query gathers the same
/// on the thread pool as without it, with any filter.
pub proof fn neighbors_are_determined<
    P,
    D,
    S: Fn(usize, P) -> Result<Vec<(D, usize)>, ErrorKind>,
>(
    one: Series,
    one_distances: Seq<Option<Vec<D>>>,
    other: Series,
    other_distances: Seq<Option<Vec<D>>>,
    id: Seq<u32>,
    search: S,
    param: P,
    queried: Seq<bool>,
)
    requires
        has_one_answer(search, param, queried.len() as int),
        holds_neighbors(one, one_distances, id, search, param, 0, queried),
        holds_neighbors(other, other_distances, id, search, param, 0, queried),
    ensures
        series_u32_lists(one) == series_u32_lists(other),
        lists_of(one_distances) == lists_of(other_distances),
{
    let f = choose|f: Seq<Option<Seq<(D, usize)>>>|
        {
            &&& #[trigger] searched(search, param, 0, queried, f)
            &&& series_u32_lists(one) == Some(id_lists(id, f))
            &&& lists_of(one_distances) == distance_lists(f)
        };
    let g = choose|g: Seq<Option<Seq<(D, usize)>>>|
        {
            &&& #[trigger] searched(search, param, 0, queried, g)
            &&& series_u32_lists(other) == Some(id_lists(id, g))
            &&& lists_of(other_distances) == distance_lists(g)
        };
    lemma_found_is_determined(search, param, queried, f, g);
}

/// A query for nearest neighbors in `n` pieces gathers the same as one that
/// goes through the rows in order exactly if no row on which the search
/// succeeds has, at its place within its piece, another flag than its own. So
/// it always does without a filter, and with a single piece.
pub proof fn pieces_agree_with_rows<P, D, S: Fn(usize, P) -> Result<Vec<(D, usize)>, ErrorKind>>(
    in_pieces: Series,
    in_order: Series,
    id: Seq<u32>,
    search: S,
    param: P,
    filter: Option<Seq<bool>>,
    nrows: int,
    n: int,
)
    requires
        0 <= nrows,
        0 < n,
        has_one_answer(search, param, nrows),
        holds_ids(in_pieces, id, search, param, 0, queried_by_place(filter, nrows, n)),
        holds_ids(in_order, id, search, param, 0, queried_rows(filter, nrows)),
    ensures
        series_u32_lists(in_pieces) == series_u32_lists(in_order) <==> (forall|row: int|
            0 <= row < nrows && #[trigger] can_succeed(search, row, param) ==> queried_by_place(
                filter,
                nrows,
                n,
            )[row] == queried_rows(filter, nrows)[row]),
        filter is None || n == 1 ==> series_u32_lists(in_pieces) == series_u32_lists(in_order),
{
    let by_place = queried_by_place(filter, nrows, n);
    let by_row = queried_rows(filter, nrows);
    let f = choose|f: Seq<Option<Seq<(D, usize)>>>| #[trigger]
        searched(search, param, 0, by_place, f) && series_u32_lists(in_pieces) == Some(
            id_lists(id, f),
        );
    let g = choose|g: Seq<Option<Seq<(D, usize)>>>| #[trigger]
        searched(search, param, 0, by_row, g) && series_u32_lists(in_order) == Some(
            id_lists(id, g),
        );
    let agree = forall|row: int|
        0 <= row < nrows && #[trigger] can_succeed(search, row, param) ==> by_place[row]
            == by_row[row];
    assert forall|row: int| 0 <= row < nrows implies (f[row] is Some ==> by_place[row]
        && can_succeed(search, row, param)) && (g[row] is Some ==> by_row[row] && can_succeed(
        search,
        row,
        param,
    )) by {
        if by_place[row] {
            assert(may_find(search, 0 + row, param, f[row]));
        } else {
            assert(f[row] is None);
        }
        if by_row[row] {
            assert(may_find(search, 0 + row, param, g[row]));
        } else {
            assert(g[row] is None);
        }
    }
    if agree {
        assert forall|row: int| 0 <= row < nrows implies f[row] == g[row] by {
            if by_place[row] && by_row[row] {
                assert(may_find(search, 0 + row, param, f[row]));
                assert(may_find(search, 0 + row, param, g[row]));
            } else if f[row] is Some || g[row] is Some {
                assert(can_succeed(search, row, param));
            }
        }
        assert(f =~= g);
    }
    if series_u32_lists(in_pieces) == series_u32_lists(in_order) {
        assert forall|row: int|
            0 <= row < nrows && #[trigger] can_succeed(search, row, param) implies by_place[row]
            == by_row[row] by {
            let answer = choose|answer: Result<Vec<(D, usize)>, ErrorKind>| #[trigger]
                call_ensures(search, (row as usize, param), answer) && answer is Ok;
            assert(id_lists(id, f)[row] == id_lists(id, g)[row]);
            if by_place[row] {
                assert(may_find(search, 0 + row, param, f[row]));
                assert(f[row] is Some);
            } else {
                assert(f[row] is None);
            }
            if by_row[row] {
                assert(may_find(search, 0 + row, param, g[row]));
                assert(g[row] is Some);
            } else {
                assert(g[row] is None);
            }
        }
    }
    if n == 1 {
        assert forall|row: int| 0 <= row < nrows implies by_place[row] == by_row[row] by {
            lemma_row_has_place(nrows, n, row);
            lemma_piece_bounds(nrows, n, 0);
        }
    }
}

/// A row has a null exactly where it is not queried or its search fails, and
/// every entry of a list is one of the identifiers.
pub proof fn lists_are_of_identifiers<P, D, S: Fn(usize, P) -> Result<Vec<(D, usize)>, ErrorKind>>(
    column: Series,
    id: Seq<u32>,
    search: S,
    param: P,
    queried: Seq<bool>,
)
    requires
        has_one_answer(search, param, queried.len() as int),
        finds_below(search, param, queried.len() as int, id.len() as int),
        holds_ids(column, id, search, param, 0, queried),
    ensures
        series_u32_lists(column) is Some,
        series_u32_lists(column).unwrap().len() == queried.len(),
        forall|row: int|
            0 <= row < queried.len() ==> ((
            #[trigger] series_u32_lists(column).unwrap()[row]) is Some <==> queried[row]
                && can_succeed(search, row, param)),
        forall|row: int, j: int|
            #![trigger series_u32_lists(column).unwrap()[row].unwrap()[j]]
            0 <= row < queried.len() && series_u32_lists(column).unwrap()[row] is Some && 0 <= j
                < series_u32_lists(column).unwrap()[row].unwrap().len() ==> id.contains(
                series_u32_lists(column).unwrap()[row].unwrap()[j],
            ),
{
    let f = choose|f: Seq<Option<Seq<(D, usize)>>>| #[trigger]
        searched(search, param, 0, queried, f) && series_u32_lists(column) == Some(id_lists(id, f));
    let lists = id_lists(id, f);
    assert forall|row: int| 0 <= row < queried.len() implies ((#[trigger] lists[row]) is Some
        <==> queried[row] && can_succeed(search, row, param)) by {
        if queried[row] {
            assert(may_find(search, 0 + row, param, f[row]));
        } else {
            assert(f[row] is None);
        }
    }
    assert forall|row: int, j: int|
        #![trigger lists[row].unwrap()[j]]
        0 <= row < queried.len() && lists[row] is Some && 0 <= j
            < lists[row].unwrap().len() implies id.contains(lists[row].unwrap()[j]) by {
        if queried[row] {
            assert(may_find(search, 0 + row, param, f[row]));
            let answer = choose|answer: Result<Vec<(D, usize)>, ErrorKind>| #[trigger]
                call_ensures(search, ((0 + row) as usize, param), answer) && f[row] == found_rows(
                    answer,
                );
            assert(rows_below(answer, id.len() as int));
            let rows = answer->Ok_0;
            assert(rows[j].1 < id.len());
            assert(lists[row].unwrap()[j] == id[rows[j].1 as int]);
        } else {
            assert(f[row] is None);
        }
    }
}

/// The list of identifiers and the list of distances of a row go together:
/// both are null or neither is, and they have the same length.
pub proof fn lists_go_together<P, D, S: Fn(usize, P) -> Result<Vec<(D, usize)>, ErrorKind>>(
    column: Series,
    distances: Seq<Option<Vec<D>>>,
    id: Seq<u32>,
    search: S,
    param: P,
    queried: Seq<bool>,
)
    requires
        holds_neighbors(column, distances, id, search, param, 0, queried),
    ensures
        series_u32_lists(column) is Some,
        series_u32_lists(column).unwrap().len() == distances.len(),
        forall|row: int|
            0 <= row < distances.len() ==> match (
                series_u32_lists(column).unwrap()[row],
                #[trigger] distances[row],
            ) {
                (Some(ids), Some(list)) => ids.len() == list.len(),
                (None, None) => true,
                _ => false,
            },
{
    let f = choose|f: Seq<Option<Seq<(D, usize)>>>|
        {
            &&& #[trigger] searched(search, param, 0, queried, f)
            &&& series_u32_lists(column) == Some(id_lists(id, f))
            &&& lists_of(distances) == distance_lists(f)
        };
    assert(lists_of(distances).len() == distance_lists(f).len());
    assert forall|row: int| 0 <= row < distances.len() implies match (
        id_lists(id, f)[row],
        #[trigger] distances[row],
    ) {
        (Some(ids), Some(list)) => ids.len() == list.len(),
        (None, None) => true,
        _ => false,
    } by {
        assert(lists_of(distances)[row] == distance_lists(f)[row]);
    }
}

/// Asking for the distances too does not change which neighbors a row gets:
/// the first field of the structs holds the lists that the query without
/// distances gathers.
pub proof fn distances_do_not_change_the_neighbors<
    D,
    N: Fn(usize, usize) -> Result<Vec<(D, usize)>, ErrorKind>,
    L: Fn(Vec<Option<Vec<D>>>) -> Series,
>(
    without: Series,
    with: Series,
    id: Seq<u32>,
    nearest: N,
    num: usize,
    queried: Seq<bool>,
    dist_lists: L,
)
    requires
        has_one_answer(nearest, num, queried.len() as int),
        holds_ids(without, id, nearest, num, 0, queried),
        holds_neighbor_structs(with, id, nearest, num, queried, dist_lists),
    ensures
        struct_fields(with) is Some,
        series_u32_lists(struct_fields(with).unwrap()[0]) == series_u32_lists(without),
{
    let (idx, rows, dist) = choose|idx: Series, rows: Vec<Option<Vec<D>>>, dist: Series|
        {
            &&& #[trigger] call_ensures(dist_lists, (rows,), dist)
            &&& #[trigger] holds_neighbors(idx, rows@, id, nearest, num, 0, queried)
            &&& is_neighbor_column(with, idx, dist)
        };
    ids_are_determined(without, idx, id, nearest, num, queried);
}

/// The structs that a query for neighbors and distances answers with depend on
/// the search, on which rows are queried and on `dist_lists`, on nothing else:
/// the fields hold the same on the thread pool as without it, if `dist_lists`
/// makes one column out of the same lists.
pub proof fn neighbor_structs_are_determined<
    D,
    N: Fn(usize, usize) -> Result<Vec<(D, usize)>, ErrorKind>,
    L: Fn(Vec<Option<Vec<D>>>) -> Series,
>(
    one: Series,
    other: Series,
    id: Seq<u32>,
    nearest: N,
    num: usize,
    queried: Seq<bool>,
    dist_lists: L,
)
    requires
        has_one_answer(nearest, num, queried.len() as int),
        holds_neighbor_structs(one, id, nearest, num, queried, dist_lists),
        holds_neighbor_structs(other, id, nearest, num, queried, dist_lists),
        forall|a: Vec<Option<Vec<D>>>, b: Vec<Option<Vec<D>>>, c: Series, d: Series|
            lists_of(a@) == lists_of(b@) && #[trigger] call_ensures(dist_lists, (a,), c)
                && #[trigger] call_ensures(dist_lists, (b,), d) ==> c == d,
    ensures
        struct_fields(one) is Some,
        struct_fields(other) is Some,
        series_u32_lists(struct_fields(one).unwrap()[0]) == series_u32_lists(
            struct_fields(other).unwrap()[0],
        ),
        struct_fields(one).unwrap()[1] == struct_fields(other).unwrap()[1],
{
    let (i, r, d) = choose|i: Series, r: Vec<Option<Vec<D>>>, d: Series|
        {
            &&& #[trigger] call_ensures(dist_lists, (r,), d)
            &&& #[trigger] holds_neighbors(i, r@, id, nearest, num, 0, queried)
            &&& is_neighbor_column(one, i, d)
        };
    let (j, s, e) = choose|j: Series, s: Vec<Option<Vec<D>>>, e: Series|
        {
            &&& #[trigger] call_ensures(dist_lists, (s,), e)
            &&& #[trigger] holds_neighbors(j, s@, id, nearest, num, 0, queried)
            &&& is_neighbor_column(other, j, e)
        };
    neighbors_are_determined(i, r@, j, s@, id, nearest, num, queried);
}

/// The column of neighbors and distances is as declared: it has the declared
/// name, and its fields have the declared names and types in the declared
/// order.
pub proof fn column_is_as_declared<
    D,
    N: Fn(usize, usize) -> Result<Vec<(D, usize)>, ErrorKind>,
    L: Fn(Vec<Option<Vec<D>>>) -> Series,
>(
    column: Series,
    declared: ColumnField,
    id: Seq<u32>,
    nearest: N,
    num: usize,
    queried: Seq<bool>,
    dist_lists: L,
)
    requires
        is_full_output(declared),
        holds_neighbor_structs(column, id, nearest, num, queried, dist_lists),
    ensures
        is_as_declared(column, declared),
{
    let (idx, rows, dist) = choose|idx: Series, rows: Vec<Option<Vec<D>>>, dist: Series|
        {
            &&& #[trigger] call_ensures(dist_lists, (rows,), dist)
            &&& #[trigger] holds_neighbors(idx, rows@, id, nearest, num, 0, queried)
            &&& is_float_lists(dist)
            &&& is_neighbor_column(column, idx, dist)
        };
    assert(holds_neighbors(idx, rows@, id, nearest, num, 0, queried));
}

/// A row is among its own neighbors: if the search from a row finds that row,
/// the list of the row has its own identifier.
pub proof fn a_row_is_its_own_neighbor<P, D, S: Fn(usize, P) -> Result<Vec<(D, usize)>, ErrorKind>>(
    column: Series,
    id: Seq<u32>,
    search: S,
    param: P,
    queried: Seq<bool>,
    row: int,
)
    requires
        0 <= row < queried.len(),
        holds_ids(column, id, search, param, 0, queried),
        forall|rows: Vec<(D, usize)>| #[trigger]
            call_ensures(search, (row as usize, param), Ok(rows)) ==> is_found(rows@, row),
    ensures
        series_u32_lists(column) is Some,
        series_u32_lists(column).unwrap()[row] matches Some(list) ==> list.contains(id[row]),
{
    let f = choose|f: Seq<Option<Seq<(D, usize)>>>| #[trigger]
        searched(search, param, 0, queried, f) && series_u32_lists(column) == Some(id_lists(id, f));
    if f[row] is Some {
        assert(queried[row]);
        assert(may_find(search, 0 + row, param, f[row]));
        let answer = choose|answer: Result<Vec<(D, usize)>, ErrorKind>| #[trigger]
            call_ensures(search, ((0 + row) as usize, param), answer) && f[row] == found_rows(
                answer,
            );
        let rows = answer->Ok_0;
        assert(call_ensures(search, (row as usize, param), Ok(rows)));
        let j = choose|j: int| 0 <= j < rows@.len() && (#[trigger] rows@[j]).1 == row;
        let list = id_lists(id, f)[row].unwrap();
        assert(list[j] == id[row]);
    }
}

/// The rows that a mask marks.
pub open spec fn marked(mask: Seq<bool>) -> Set<int> {
    Set::new(|row: int| 0 <= row < mask.len() && mask[row])
}

/// A filter for the `k` rows nearest to a point marks the rows that were found
/// and no others: no more than `k` of them, and exactly as many as were found
/// if no row was found twice.
pub proof fn filter_marks_what_was_found<D>(nrows: int, found: Seq<(D, usize)>, k: nat)
    requires
        0 <= nrows,
        found.len() <= k,
        forall|j: int| 0 <= j < found.len() ==> (#[trigger] found[j]).1 < nrows,
    ensures
        forall|j: int|
            0 <= j < found.len() ==> marked(found_mask(nrows, found)).contains(
                (#[trigger] found[j]).1 as int,
            ),
        forall|row: int| #[trigger]
            marked(found_mask(nrows, found)).contains(row) ==> is_found(found, row),
        marked(found_mask(nrows, found)).finite(),
        marked(found_mask(nrows, found)).len() <= k,
        (forall|i: int, j: int|
            0 <= i < j < found.len() ==> (#[trigger] found[i]).1 != (#[trigger] found[j]).1)
            ==> marked(found_mask(nrows, found)).len() == found.len(),
{
    let rows = found.map_values(|row: (D, usize)| row.1 as int);
    let set = marked(found_mask(nrows, found));
    assert forall|row: int| set.contains(row) <==> rows.to_set().contains(row) by {
        if set.contains(row) {
            let j = choose|j: int| 0 <= j < found.len() && (#[trigger] found[j]).1 == row;
            assert(rows[j] == row);
        }
        if rows.to_set().contains(row) {
            let j = choose|j: int| 0 <= j < rows.len() && rows[j] == row;
            assert(found[j].1 == row);
        }
    }
    assert(set =~= rows.to_set());
    rows.lemma_cardinality_of_set();
    if forall|i: int, j: int|
        0 <= i < j < found.len() ==> (#[trigger] found[i]).1 != (#[trigger] found[j]).1 {
        assert(rows.no_duplicates());
        rows.unique_seq_to_set();
    }
    assert forall|j: int| 0 <= j < found.len() implies set.contains(
        (#[trigger] found[j]).1 as int,
    ) by {
        assert(rows[j] == found[j].1);
        assert(rows.to_set().contains(rows[j]));
    }
}

/// The count has one answer for each of the first `nrows` rows and each radius.
pub open spec fn has_one_count<R, W: Fn(usize, R) -> Result<usize, ErrorKind>>(
    within_count: W,
    nrows: int,
) -> bool {
    forall|row: usize, r: R, one: Result<usize, ErrorKind>, other: Result<usize, ErrorKind>|
        row < nrows && #[trigger] call_ensures(within_count, (row, r), one)
            && #[trigger] call_ensures(within_count, (row, r), other) ==> count_cell(one)
            == count_cell(other)
}

/// The counts depend on the count function and the radii, on nothing else:
/// they are the same on the thread pool as without it.
pub proof fn counts_are_determined<R, W: Fn(usize, R) -> Result<usize, ErrorKind>>(
    one: Series,
    other: Series,
    within_count: W,
    radii: Seq<Option<R>>,
)
    requires
        has_one_count(within_count, radii.len() as int),
        holds_counts(one, within_count, radii, 0),
        holds_counts(other, within_count, radii, 0),
    ensures
        series_u32(one) == series_u32(other),
{
    let f = series_u32(one).unwrap();
    let g = series_u32(other).unwrap();
    assert forall|i: int| 0 <= i < radii.len() implies f[i] == g[i] by {
        match radii[i] {
            Some(r) => {
                assert(may_count(within_count, 0 + i, r, f[i]));
                assert(may_count(within_count, 0 + i, r, g[i]));
            },
            None => {
                assert(f[i] is None);
                assert(g[i] is None);
            },
        }
    }
    assert(f =~= g);
}

/// Counting within a single radius is counting within that radius given for
/// every row.
pub proof fn single_radius_is_for_every_row<R, W: Fn(usize, R) -> Result<usize, ErrorKind>>(
    single: Series,
    by_row: Series,
    within_count: W,
    r: R,
    nrows: int,
)
    requires
        0 <= nrows,
        has_one_count(within_count, nrows),
        holds_counts(single, within_count, radii_by_row(seq![Some(r)], nrows), 0),
        holds_counts(by_row, within_count, radii_by_row(one_radius(r, nrows), nrows), 0),
    ensures
        series_u32(single) == series_u32(by_row),
{
    assert(radii_by_row(seq![Some(r)], nrows) =~= radii_by_row(one_radius(r, nrows), nrows));
    counts_are_determined(single, by_row, within_count, radii_by_row(seq![Some(r)], nrows));
}

/// A count that fits in 32 bits is kept as it is.
pub proof fn small_counts_are_kept(count: usize)
    requires
        count <= u32::MAX,
    ensures
        count_cell(Ok(count)) == Some(count as u32),
{
}

/// A row counts itself: if every count from a row that succeeds is of at least
/// one row and of no more rows than there are, so is the cell of the row.
pub proof fn a_row_counts_itself<R, W: Fn(usize, R) -> Result<usize, ErrorKind>>(
    column: Series,
    within_count: W,
    radii: Seq<Option<R>>,
    row: int,
)
    requires
        0 <= row < radii.len() <= u32::MAX,
        holds_counts(column, within_count, radii, 0),
        forall|r: R, count: usize| #[trigger]
            call_ensures(within_count, (row as usize, r), Ok(count)) ==> 1 <= count
                <= radii.len(),
    ensures
        series_u32(column) is Some,
        series_u32(column).unwrap()[row] matches Some(cell) ==> 1 <= cell <= radii.len(),
{
    let cells = series_u32(column).unwrap();
    match radii[row] {
        Some(r) => {
            assert(may_count(within_count, 0 + row, r, cells[row]));
        },
        None => {
            assert(cells[row] is None);
        },
    }
}

/// Counting the neighbors within a radius gives the lengths of the lists that
/// a query within that radius gathers, if the count from a row answers with
/// the number of rows that the search from it finds and fails where it fails.
/// A length that does not fit in 32 bits is cut to them.
pub proof fn counts_are_the_lengths_of_the_lists<
    R,
    D,
    S: Fn(usize, R) -> Result<Vec<(D, usize)>, ErrorKind>,
    W: Fn(usize, R) -> Result<usize, ErrorKind>,
>(
    lists: Series,
    counts: Series,
    id: Seq<u32>,
    within: S,
    within_count: W,
    r: R,
    nrows: int,
)
    requires
        0 <= nrows,
        holds_ids(lists, id, within, r, 0, queried_rows(None, nrows)),
        holds_counts(counts, within_count, one_radius(r, nrows), 0),
        forall|
            row: usize,
            found: Result<Vec<(D, usize)>, ErrorKind>,
            count: Result<usize, ErrorKind>,
        |
            row < nrows && #[trigger] call_ensures(within, (row, r), found)
                && #[trigger] call_ensures(within_count, (row, r), count) ==> match found {
                Ok(rows) => count == Ok::<usize, ErrorKind>(rows.len()),
                Err(_) => count is Err,
            },
    ensures
        series_u32_lists(lists) is Some,
        series_u32(counts) is Some,
        forall|row: int|
            0 <= row < nrows ==> match series_u32_lists(lists).unwrap()[row] {
                Some(list) => {
                    &&& #[trigger] series_u32(counts).unwrap()[row] == Some(
                        (list.len() % 0x1_0000_0000) as u32,
                    )
                    &&& list.len() <= u32::MAX ==> series_u32(counts).unwrap()[row] == Some(
                        list.len() as u32,
                    )
                },
                None => series_u32(counts).unwrap()[row] is None,
            },
{
    let queried = queried_rows(None, nrows);
    let f = choose|f: Seq<Option<Seq<(D, usize)>>>| #[trigger]
        searched(within, r, 0, queried, f) && series_u32_lists(lists) == Some(id_lists(id, f));
    let cells = series_u32(counts).unwrap();
    assert forall|row: int| 0 <= row < nrows implies match id_lists(id, f)[row] {
        Some(list) => #[trigger] cells[row] == Some((list.len() % 0x1_0000_0000) as u32),
        None => cells[row] is None,
    } by {
        assert(queried[row]);
        assert(may_find(within, 0 + row, r, f[row]));
        assert(one_radius(r, nrows)[row] == Some(r));
        assert(may_count(within_count, 0 + row, r, cells[row]));
    }
}

/// A tree holds the rows whose addition succeeded, under their own numbers,
/// and nothing else, if an empty tree holds nothing and an addition that
/// succeeds adds the row and one that fails changes nothing.
pub proof fn tree_holds_the_rows_added<
    T,
    C: Fn(usize, usize) -> T,
    A: Fn(T, usize) -> (T, Result<(), ErrorKind>),
>(
    dim: usize,
    leaf_size: usize,
    nrows: int,
    with_capacity: C,
    add_row: A,
    states: Seq<T>,
    held: spec_fn(T) -> Set<int>,
)
    requires
        0 <= nrows <= usize::MAX,
        fills(dim, leaf_size, nrows, with_capacity, add_row, states),
        forall|tree: T| #[trigger]
            call_ensures(with_capacity, (dim, leaf_size), tree) ==> held(tree) == Set::<
                int,
            >::empty(),
        forall|before: T, row: usize, after: T, outcome: Result<(), ErrorKind>| #[trigger]
            call_ensures(add_row, (before, row), (after, outcome)) ==> held(after) == (
            if outcome is Ok {
                held(before).insert(row as int)
            } else {
                held(before)
            }),
    ensures
        forall|row: int| #[trigger] held(states.last()).contains(row) ==> 0 <= row < nrows,
        forall|row: int|
            0 <= row < nrows ==> (#[trigger] held(states.last()).contains(row) <==> exists|
                outcome: Result<(), ErrorKind>,
            | #[trigger]
                call_ensures(add_row, (states[row], row as usize), (states[row + 1], outcome))
                    && outcome is Ok),
{
    lemma_tree_holds(dim, leaf_size, nrows, with_capacity, add_row, states, held, nrows);
}

/// What the tree holds once `k` rows have been tried.
proof fn lemma_tree_holds<
    T,
    C: Fn(usize, usize) -> T,
    A: Fn(T, usize) -> (T, Result<(), ErrorKind>),
>(
    dim: usize,
    leaf_size: usize,
    nrows: int,
    with_capacity: C,
    add_row: A,
    states: Seq<T>,
    held: spec_fn(T) -> Set<int>,
    k: int,
)
    requires
        0 <= k <= nrows <= usize::MAX,
        fills(dim, leaf_size, nrows, with_capacity, add_row, states),
        forall|tree: T| #[trigger]
            call_ensures(with_capacity, (dim, leaf_size), tree) ==> held(tree) == Set::<
                int,
            >::empty(),
        forall|before: T, row: usize, after: T, outcome: Result<(), ErrorKind>| #[trigger]
            call_ensures(add_row, (before, row), (after, outcome)) ==> held(after) == (
            if outcome is Ok {
                held(before).insert(row as int)
            } else {
                held(before)
            }),
    ensures
        forall|row: int| #[trigger] held(states[k]).contains(row) ==> 0 <= row < k,
        forall|row: int|
            0 <= row < k ==> (#[trigger] held(states[k]).contains(row) <==> exists|
                outcome: Result<(), ErrorKind>,
            | #[trigger]
                call_ensures(add_row, (states[row], row as usize), (states[row + 1], outcome))
                    && outcome is Ok),
    decreases k,
{
    if k > 0 {
        lemma_tree_holds(dim, leaf_size, nrows, with_capacity, add_row, states, held, k - 1);
        assert(adds(add_row, k - 1, states));
        let o = choose|o: Result<(), ErrorKind>| #[trigger]
            call_ensures(add_row, (states[k - 1], (k - 1) as usize), (states[k - 1 + 1], o));
        assert(held(states[k]) == (if o is Ok {
            held(states[k - 1]).insert(k - 1)
        } else {
            held(states[k - 1])
        }));
        assert forall|row: int| 0 <= row < k implies (#[trigger] held(states[k]).contains(row)
            <==> exists|outcome: Result<(), ErrorKind>| #[trigger]
            call_ensures(add_row, (states[row], row as usize), (states[row + 1], outcome))
                && outcome is Ok) by {
            if row < k - 1 {
                assert(held(states[k]).contains(row) == held(states[k - 1]).contains(row));
            } else {
                assert(!held(states[k - 1]).contains(row));
            }
        }
    }
}

} // verus!
