//! From the pieces of a table back to the table: what was found in each piece,
//! taken together, is what was found from every row.
use kdtree::ErrorKind;
use polars::prelude::Series;
use vstd::prelude::*;

use crate::pieces::{
    lemma_join, lemma_piece_bounds, lemma_place_is_unique, lemma_row_has_place, piece_len, piece_of,
    piece_offset, piece_rows, place_in_piece,
};
use crate::search::{
    distance_lists, holds_ids, holds_neighbors, id_lists, lists_of, may_find, searched,
};
use crate::series::{joined_lists, series_u32_lists};

verus! {

/// One entry per row, put together from the entries of each of `n` pieces.
pub open spec fn gathered<T>(parts: Seq<Seq<T>>, nrows: int, n: int) -> Seq<T> {
    Seq::new(
        nrows as nat,
        |row: int| parts[piece_of(nrows, n, row)][place_in_piece(nrows, n, row)],
    )
}

/// The pieces of what was gathered are the parts it was gathered from.
pub proof fn lemma_gathered<T>(parts: Seq<Seq<T>>, nrows: int, n: int)
    requires
        0 <= nrows,
        0 < n,
        parts.len() == n,
        forall|p: int| 0 <= p < n ==> (#[trigger] parts[p]).len() == piece_len(nrows, n, p),
    ensures
        forall|p: int|
            0 <= p < n ==> #[trigger] parts[p] == piece_rows(gathered(parts, nrows, n), n, p),
{
    let whole = gathered(parts, nrows, n);
    assert forall|p: int| 0 <= p < n implies #[trigger] parts[p] == piece_rows(whole, n, p) by {
        lemma_piece_bounds(nrows, n, p);
        assert forall|i: int| 0 <= i < parts[p].len() implies parts[p][i] == piece_rows(
            whole,
            n,
            p,
        )[i] by {
            lemma_place_is_unique(nrows, n, p, i);
        }
        assert(parts[p] =~= piece_rows(whole, n, p));
    }
}

/// If each piece was searched, the whole table was.
proof fn lemma_all_searched<P, D, S: Fn(usize, P) -> Result<Vec<(D, usize)>, ErrorKind>>(
    parts: Seq<Seq<Option<Seq<(D, usize)>>>>,
    search: S,
    param: P,
    queried: Seq<bool>,
    n: int,
)
    requires
        0 < n,
        parts.len() == n,
        forall|p: int|
            0 <= p < n ==> searched(
                search,
                param,
                piece_offset(queried.len() as int, n, p),
                piece_rows(queried, n, p),
                #[trigger] parts[p],
            ),
    ensures
        searched(search, param, 0, queried, gathered(parts, queried.len() as int, n)),
        forall|p: int|
            0 <= p < n ==> #[trigger] parts[p] == piece_rows(
                gathered(parts, queried.len() as int, n),
                n,
                p,
            ),
{
    let nrows = queried.len() as int;
    let found = gathered(parts, nrows, n);
    assert forall|p: int| 0 <= p < n implies (#[trigger] parts[p]).len() == piece_len(
        nrows,
        n,
        p,
    ) by {
        lemma_piece_bounds(nrows, n, p);
    }
    lemma_gathered(parts, nrows, n);
    assert forall|row: int| 0 <= row < nrows implies if queried[row] {
        may_find(search, 0 + row, param, #[trigger] found[row])
    } else {
        found[row] is None
    } by {
        lemma_row_has_place(nrows, n, row);
        let p = piece_of(nrows, n, row);
        let i = place_in_piece(nrows, n, row);
        lemma_piece_bounds(nrows, n, p);
        assert(found[row] == parts[p][i]);
        assert(piece_rows(queried, n, p)[i] == queried[row]);
        assert(searched(
            search,
            param,
            piece_offset(nrows, n, p),
            piece_rows(queried, n, p),
            parts[p],
        ));
    }
}

/// Columns that hold the identifiers for each piece, joined, hold those for
/// the whole table.
pub proof fn lemma_join_ids<P, D, S: Fn(usize, P) -> Result<Vec<(D, usize)>, ErrorKind>>(
    columns: Seq<Series>,
    id: Seq<u32>,
    search: S,
    param: P,
    queried: Seq<bool>,
    n: int,
) -> (found: Seq<Option<Seq<(D, usize)>>>)
    requires
        0 < n,
        columns.len() == n,
        forall|p: int|
            0 <= p < n ==> holds_ids(
                #[trigger] columns[p],
                id,
                search,
                param,
                piece_offset(queried.len() as int, n, p),
                piece_rows(queried, n, p),
            ),
    ensures
        forall|p: int| 0 <= p < n ==> series_u32_lists(#[trigger] columns[p]) is Some,
        searched(search, param, 0, queried, found),
        joined_lists(columns) == id_lists(id, found),
{
    let nrows = queried.len() as int;
    let parts = Seq::new(
        n as nat,
        |p: int|
            choose|found: Seq<Option<Seq<(D, usize)>>>| #[trigger]
                searched(
                    search,
                    param,
                    piece_offset(nrows, n, p),
                    piece_rows(queried, n, p),
                    found,
                ) && series_u32_lists(columns[p]) == Some(id_lists(id, found)),
    );
    assert forall|p: int| 0 <= p < n implies searched(
        search,
        param,
        piece_offset(nrows, n, p),
        piece_rows(queried, n, p),
        #[trigger] parts[p],
    ) && series_u32_lists(columns[p]) == Some(id_lists(id, parts[p])) by {
        assert(holds_ids(
            columns[p],
            id,
            search,
            param,
            piece_offset(nrows, n, p),
            piece_rows(queried, n, p),
        ));
    }
    lemma_all_searched(parts, search, param, queried, n);
    let found = gathered(parts, nrows, n);
    lemma_lists_of_pieces(columns, id, parts, found, n);
    found
}

/// Columns made from the pieces of what was found, joined, are made from the
/// whole of it.
proof fn lemma_lists_of_pieces<D>(
    columns: Seq<Series>,
    id: Seq<u32>,
    parts: Seq<Seq<Option<Seq<(D, usize)>>>>,
    found: Seq<Option<Seq<(D, usize)>>>,
    n: int,
)
    requires
        0 < n,
        columns.len() == n,
        parts.len() == n,
        forall|p: int| 0 <= p < n ==> #[trigger] parts[p] == piece_rows(found, n, p),
        forall|p: int|
            0 <= p < n ==> series_u32_lists(#[trigger] columns[p]) == Some(id_lists(id, parts[p])),
    ensures
        joined_lists(columns) == id_lists(id, found),
{
    let lists = columns.map_values(|s: Series| series_u32_lists(s).unwrap());
    let whole = id_lists(id, found);
    assert forall|p: int| 0 <= p < n implies #[trigger] lists[p] == piece_rows(whole, n, p) by {
        lemma_piece_bounds(found.len() as int, n, p);
        assert(series_u32_lists(columns[p]) == Some(id_lists(id, parts[p])));
        assert(lists[p] =~= piece_rows(whole, n, p));
    }
    lemma_join(lists, whole, n);
}

/// Columns that hold the identifiers and rows of vectors that hold the
/// distances for each piece, joined, hold those for the whole table.
pub proof fn lemma_join_neighbors<P, D, S: Fn(usize, P) -> Result<Vec<(D, usize)>, ErrorKind>>(
    columns: Seq<Series>,
    distances: Seq<Seq<Option<Vec<D>>>>,
    id: Seq<u32>,
    search: S,
    param: P,
    queried: Seq<bool>,
    n: int,
) -> (found: Seq<Option<Seq<(D, usize)>>>)
    requires
        0 < n,
        columns.len() == n,
        distances.len() == n,
        forall|p: int|
            #![trigger columns[p]]
            0 <= p < n ==> holds_neighbors(
                columns[p],
                distances[p],
                id,
                search,
                param,
                piece_offset(queried.len() as int, n, p),
                piece_rows(queried, n, p),
            ),
    ensures
        forall|p: int| 0 <= p < n ==> series_u32_lists(#[trigger] columns[p]) is Some,
        searched(search, param, 0, queried, found),
        joined_lists(columns) == id_lists(id, found),
        lists_of(distances.flatten()) == distance_lists(found),
{
    let nrows = queried.len() as int;
    let parts = Seq::new(
        n as nat,
        |p: int|
            choose|found: Seq<Option<Seq<(D, usize)>>>|
                {
                    &&& #[trigger] searched(
                        search,
                        param,
                        piece_offset(nrows, n, p),
                        piece_rows(queried, n, p),
                        found,
                    )
                    &&& series_u32_lists(columns[p]) == Some(id_lists(id, found))
                    &&& lists_of(distances[p]) == distance_lists(found)
                },
    );
    assert forall|p: int| 0 <= p < n implies searched(
        search,
        param,
        piece_offset(nrows, n, p),
        piece_rows(queried, n, p),
        #[trigger] parts[p],
    ) && series_u32_lists(columns[p]) == Some(id_lists(id, parts[p])) && lists_of(distances[p])
        == distance_lists(parts[p]) by {
        assert(holds_neighbors(
            columns[p],
            distances[p],
            id,
            search,
            param,
            piece_offset(nrows, n, p),
            piece_rows(queried, n, p),
        ));
    }
    lemma_all_searched(parts, search, param, queried, n);
    let found = gathered(parts, nrows, n);
    lemma_lists_of_pieces(columns, id, parts, found, n);
    assert forall|p: int| 0 <= p < n implies (#[trigger] distances[p]).len() == piece_len(
        nrows,
        n,
        p,
    ) by {
        lemma_piece_bounds(nrows, n, p);
        assert(lists_of(distances[p]).len() == distance_lists(parts[p]).len());
    }
    lemma_gathered(distances, nrows, n);
    let whole = gathered(distances, nrows, n);
    lemma_join(distances, whole, n);
    assert forall|row: int| 0 <= row < nrows implies lists_of(whole)[row] == distance_lists(
        found,
    )[row] by {
        lemma_row_has_place(nrows, n, row);
        let p = piece_of(nrows, n, row);
        let i = place_in_piece(nrows, n, row);
        assert(distances[p].len() == piece_len(nrows, n, p));
        assert(parts[p].len() == distance_lists(parts[p]).len() == lists_of(distances[p]).len());
        assert(whole[row] == distances[p][i]);
        assert(found[row] == parts[p][i]);
        assert(lists_of(distances[p])[i] == distance_lists(parts[p])[i]);
    }
    assert(lists_of(whole) =~= distance_lists(found));
    found
}

} // verus!
