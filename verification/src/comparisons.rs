//! How the columns of two queries compare when the searches behind them do.
use kdtree::ErrorKind;
use polars::prelude::Series;
use vstd::prelude::*;

use crate::counts::{count_cell, holds_counts, may_count, radii_by_row};
use crate::error::KnnError;
use crate::filter::{filters, filters_by, found_mask, is_found};
use crate::search::{
    distance_lists, distances_of, found_rows, holds_ids, holds_neighbors, id_lists, lists_of,
    may_find, rows_below, searched,
};
use crate::series::{
    in_one_chunk, renamed, series_bool, series_u32, series_u32_lists, struct_fields,
};
use crate::tree::{adds, fills};
use crate::with_dist::{holds_neighbor_structs, is_neighbor_column};

verus! {

/// From each of the first `nrows` rows, every answer of the one search and
/// every answer of the other stand in the given relation.
pub open spec fn answers_relate<
    P,
    Q,
    D,
    S: Fn(usize, P) -> Result<Vec<(D, usize)>, ErrorKind>,
    T: Fn(usize, Q) -> Result<Vec<(D, usize)>, ErrorKind>,
>(
    one: S,
    one_param: P,
    other: T,
    other_param: Q,
    nrows: int,
    related: spec_fn(Option<Seq<(D, usize)>>, Option<Seq<(D, usize)>>) -> bool,
) -> bool {
    forall|row: usize, a: Result<Vec<(D, usize)>, ErrorKind>, b: Result<Vec<(D, usize)>, ErrorKind>|
        row < nrows && #[trigger] call_ensures(one, (row, one_param), a)
            && #[trigger] call_ensures(other, (row, other_param), b) ==> related(
            found_rows(a),
            found_rows(b),
        )
}

/// The same rows were found, in the same order and at the same distances, or
/// both searches failed.
pub open spec fn found_alike<D>() -> spec_fn(
    Option<Seq<(D, usize)>>,
    Option<Seq<(D, usize)>>,
) -> bool {
    |a: Option<Seq<(D, usize)>>, b: Option<Seq<(D, usize)>>| a == b
}

/// The distances of what was found first are the first distances of what was
/// found then, or both searches failed.
pub open spec fn found_further<D>() -> spec_fn(
    Option<Seq<(D, usize)>>,
    Option<Seq<(D, usize)>>,
) -> bool {
    |a: Option<Seq<(D, usize)>>, b: Option<Seq<(D, usize)>>|
        match (a, b) {
            (Some(a), Some(b)) => distances_of(a).is_prefix_of(distances_of(b)),
            (None, None) => true,
            _ => false,
        }
}

/// Every row that was found first was found then, or both searches failed.
pub open spec fn found_again<D>() -> spec_fn(
    Option<Seq<(D, usize)>>,
    Option<Seq<(D, usize)>>,
) -> bool {
    |a: Option<Seq<(D, usize)>>, b: Option<Seq<(D, usize)>>|
        match (a, b) {
            (Some(a), Some(b)) => all_found_again(a, b),
            (None, None) => true,
            _ => false,
        }
}

/// Every row among the first is among the second.
pub open spec fn all_found_again<D>(a: Seq<(D, usize)>, b: Seq<(D, usize)>) -> bool {
    forall|row: int| #[trigger] is_found(a, row) ==> is_found(b, row)
}

/// What two searches found from the same rows is related, row by row, as
/// their answers are.
proof fn lemma_found_relates<
    P,
    Q,
    D,
    S: Fn(usize, P) -> Result<Vec<(D, usize)>, ErrorKind>,
    T: Fn(usize, Q) -> Result<Vec<(D, usize)>, ErrorKind>,
>(
    one: S,
    one_param: P,
    other: T,
    other_param: Q,
    queried: Seq<bool>,
    f: Seq<Option<Seq<(D, usize)>>>,
    g: Seq<Option<Seq<(D, usize)>>>,
    related: spec_fn(Option<Seq<(D, usize)>>, Option<Seq<(D, usize)>>) -> bool,
)
    requires
        searched(one, one_param, 0, queried, f),
        searched(other, other_param, 0, queried, g),
        answers_relate(one, one_param, other, other_param, queried.len() as int, related),
        related(None, None),
    ensures
        forall|row: int| 0 <= row < queried.len() ==> related(#[trigger] f[row], g[row]),
{
    assert forall|row: int| 0 <= row < queried.len() implies related(#[trigger] f[row], g[row]) by {
        if queried[row] {
            assert(may_find(one, 0 + row, one_param, f[row]));
            assert(may_find(other, 0 + row, other_param, g[row]));
        } else {
            assert(f[row] is None);
            assert(g[row] is None);
        }
    }
}

/// Two searches that answer alike give the same lists of neighbors: two trees
/// over the same rows may differ in the size of their leaves.
pub proof fn like_searches_give_like_lists<
    P,
    Q,
    D,
    S: Fn(usize, P) -> Result<Vec<(D, usize)>, ErrorKind>,
    T: Fn(usize, Q) -> Result<Vec<(D, usize)>, ErrorKind>,
>(
    a: Series,
    b: Series,
    id: Seq<u32>,
    one: S,
    one_param: P,
    other: T,
    other_param: Q,
    queried: Seq<bool>,
)
    requires
        holds_ids(a, id, one, one_param, 0, queried),
        holds_ids(b, id, other, other_param, 0, queried),
        answers_relate(one, one_param, other, other_param, queried.len() as int, found_alike()),
    ensures
        series_u32_lists(a) == series_u32_lists(b),
{
    let f = choose|f: Seq<Option<Seq<(D, usize)>>>| #[trigger]
        searched(one, one_param, 0, queried, f) && series_u32_lists(a) == Some(id_lists(id, f));
    let g = choose|g: Seq<Option<Seq<(D, usize)>>>| #[trigger]
        searched(other, other_param, 0, queried, g) && series_u32_lists(b) == Some(id_lists(id, g));
    lemma_found_relates(one, one_param, other, other_param, queried, f, g, found_alike());
    assert(f =~= g);
}

/// If a search finds again what another one finds, so do the lists: the same
/// rows have nulls, and every identifier in a list of the one query is in the
/// list of the other. So a larger radius loses no neighbor.
pub proof fn lists_lose_no_neighbor<
    P,
    Q,
    D,
    S: Fn(usize, P) -> Result<Vec<(D, usize)>, ErrorKind>,
    T: Fn(usize, Q) -> Result<Vec<(D, usize)>, ErrorKind>,
>(
    a: Series,
    b: Series,
    id: Seq<u32>,
    one: S,
    one_param: P,
    other: T,
    other_param: Q,
    queried: Seq<bool>,
)
    requires
        holds_ids(a, id, one, one_param, 0, queried),
        holds_ids(b, id, other, other_param, 0, queried),
        answers_relate(one, one_param, other, other_param, queried.len() as int, found_again()),
    ensures
        series_u32_lists(a) is Some,
        series_u32_lists(b) is Some,
        forall|row: int|
            0 <= row < queried.len() ==> match (
                #[trigger] series_u32_lists(a).unwrap()[row],
                series_u32_lists(b).unwrap()[row],
            ) {
                (Some(small), Some(large)) => forall|v: u32| #[trigger]
                    small.contains(v) ==> large.contains(v),
                (None, None) => true,
                _ => false,
            },
{
    let f = choose|f: Seq<Option<Seq<(D, usize)>>>| #[trigger]
        searched(one, one_param, 0, queried, f) && series_u32_lists(a) == Some(id_lists(id, f));
    let g = choose|g: Seq<Option<Seq<(D, usize)>>>| #[trigger]
        searched(other, other_param, 0, queried, g) && series_u32_lists(b) == Some(id_lists(id, g));
    lemma_found_relates(one, one_param, other, other_param, queried, f, g, found_again());
    assert forall|row: int| 0 <= row < queried.len() implies match (
        #[trigger] id_lists(id, f)[row],
        id_lists(id, g)[row],
    ) {
        (Some(small), Some(large)) => forall|v: u32| #[trigger]
            small.contains(v) ==> large.contains(v),
        (None, None) => true,
        _ => false,
    } by {
        assert(found_again()(f[row], g[row]));
        if f[row] is Some {
            let small = id_lists(id, f)[row].unwrap();
            let large = id_lists(id, g)[row].unwrap();
            let x = f[row].unwrap();
            let y = g[row].unwrap();
            assert forall|v: u32| #[trigger] small.contains(v) implies large.contains(v) by {
                let i = choose|i: int| 0 <= i < small.len() && small[i] == v;
                assert(x[i].1 == x[i].1 as int);
                assert(is_found(x, x[i].1 as int));
                let j = choose|j: int| 0 <= j < y.len() && (#[trigger] y[j]).1 == x[i].1 as int;
                assert(large[j] == v);
            }
        }
    }
}

/// The second field of the structs was made of these distances.
pub open spec fn has_distances<D, L: Fn(Vec<Option<Vec<D>>>) -> Series>(
    column: Series,
    dist_lists: L,
    distances: Vec<Option<Vec<D>>>,
) -> bool {
    exists|dist: Series| #[trigger]
        call_ensures(dist_lists, (distances,), dist) && struct_fields(column).unwrap()[1]
            == in_one_chunk(renamed(dist, "dist"@))
}

/// By row, the one list of distances is the beginning of the other, or both
/// are null.
pub open spec fn are_prefixes<D>(a: Seq<Option<Vec<D>>>, b: Seq<Option<Vec<D>>>) -> bool {
    &&& a.len() == b.len()
    &&& forall|row: int|
        0 <= row < a.len() ==> match (#[trigger] a[row], b[row]) {
            (Some(small), Some(large)) => small@.is_prefix_of(large@),
            (None, None) => true,
            _ => false,
        }
}

/// If the distances found for fewer neighbors are the first ones found for
/// more, so are the distances in the structs: the same rows have nulls, and
/// every list of the query for fewer is a prefix of that of the query for
/// more.
pub proof fn fewer_neighbors_are_the_first<
    D,
    N: Fn(usize, usize) -> Result<Vec<(D, usize)>, ErrorKind>,
    L: Fn(Vec<Option<Vec<D>>>) -> Series,
>(
    a: Series,
    b: Series,
    id: Seq<u32>,
    nearest: N,
    fewer: usize,
    more: usize,
    queried: Seq<bool>,
    dist_lists: L,
)
    requires
        fewer <= more,
        holds_neighbor_structs(a, id, nearest, fewer, queried, dist_lists),
        holds_neighbor_structs(b, id, nearest, more, queried, dist_lists),
        answers_relate(nearest, fewer, nearest, more, queried.len() as int, found_further()),
    ensures
        exists|first: Vec<Option<Vec<D>>>, all: Vec<Option<Vec<D>>>|
            {
                &&& first.len() == queried.len()
                &&& #[trigger] has_distances(a, dist_lists, first)
                &&& #[trigger] has_distances(b, dist_lists, all)
                &&& are_prefixes(first@, all@)
            },
        struct_fields(a) is Some,
        struct_fields(b) is Some,
        series_u32_lists(struct_fields(a).unwrap()[0]) is Some,
        series_u32_lists(struct_fields(b).unwrap()[0]) is Some,
        forall|row: int|
            0 <= row < queried.len() ==> ((
            #[trigger] series_u32_lists(struct_fields(a).unwrap()[0]).unwrap()[row]) is Some
                <==> series_u32_lists(struct_fields(b).unwrap()[0]).unwrap()[row] is Some),
{
    let (i, r, d) = choose|i: Series, r: Vec<Option<Vec<D>>>, d: Series|
        {
            &&& #[trigger] call_ensures(dist_lists, (r,), d)
            &&& #[trigger] holds_neighbors(i, r@, id, nearest, fewer, 0, queried)
            &&& is_neighbor_column(a, i, d)
        };
    let (j, s, e) = choose|j: Series, s: Vec<Option<Vec<D>>>, e: Series|
        {
            &&& #[trigger] call_ensures(dist_lists, (s,), e)
            &&& #[trigger] holds_neighbors(j, s@, id, nearest, more, 0, queried)
            &&& is_neighbor_column(b, j, e)
        };
    let f = choose|f: Seq<Option<Seq<(D, usize)>>>|
        {
            &&& #[trigger] searched(nearest, fewer, 0, queried, f)
            &&& series_u32_lists(i) == Some(id_lists(id, f))
            &&& lists_of(r@) == distance_lists(f)
        };
    let g = choose|g: Seq<Option<Seq<(D, usize)>>>|
        {
            &&& #[trigger] searched(nearest, more, 0, queried, g)
            &&& series_u32_lists(j) == Some(id_lists(id, g))
            &&& lists_of(s@) == distance_lists(g)
        };
    lemma_found_relates(nearest, fewer, nearest, more, queried, f, g, found_further());
    assert(lists_of(r@).len() == distance_lists(f).len());
    assert(lists_of(s@).len() == distance_lists(g).len());
    assert forall|row: int| 0 <= row < r@.len() implies match (#[trigger] r@[row], s@[row]) {
        (Some(small), Some(large)) => small@.is_prefix_of(large@),
        (None, None) => true,
        _ => false,
    } by {
        assert(found_further()(f[row], g[row]));
        assert(lists_of(r@)[row] == distance_lists(f)[row]);
        assert(lists_of(s@)[row] == distance_lists(g)[row]);
    }
    assert forall|row: int| 0 <= row < queried.len() implies ((
    #[trigger] id_lists(id, f)[row]) is Some <==> id_lists(id, g)[row] is Some) by {
        assert(found_further()(f[row], g[row]));
    }
    assert(has_distances(a, dist_lists, r));
    assert(has_distances(b, dist_lists, s));
}

/// The two counts come to the same from each of the first `nrows` rows of the
/// one, each taken with the row of the other that stands for it.
pub open spec fn counts_agree<
    R,
    V: Fn(usize, R) -> Result<usize, ErrorKind>,
    W: Fn(usize, R) -> Result<usize, ErrorKind>,
>(one: V, other: W, row_of: spec_fn(int) -> int, nrows: int) -> bool {
    forall|row: usize, at: usize, r: R, a: Result<usize, ErrorKind>, b: Result<usize, ErrorKind>|
        row < nrows && at == row_of(row as int) && #[trigger] call_ensures(one, (row, r), a)
            && #[trigger] call_ensures(other, (at, r), b) ==> count_cell(a) == count_cell(b)
}

/// Two counts that agree give the same column, whatever else the parameters
/// of the queries say: `k` is not used, and the size of the leaves matters only
/// as far as the trees count differently.
pub proof fn like_counts_give_like_columns<
    R,
    V: Fn(usize, R) -> Result<usize, ErrorKind>,
    W: Fn(usize, R) -> Result<usize, ErrorKind>,
>(a: Series, b: Series, one: V, other: W, radii: Seq<Option<R>>)
    requires
        holds_counts(a, one, radii, 0),
        holds_counts(b, other, radii, 0),
        counts_agree(one, other, |row: int| row, radii.len() as int),
    ensures
        series_u32(a) == series_u32(b),
{
    let f = series_u32(a).unwrap();
    let g = series_u32(b).unwrap();
    let row_of = |row: int| row;
    assert forall|row: int| 0 <= row < radii.len() implies f[row] == g[row] by {
        match radii[row] {
            Some(r) => {
                assert(may_count(one, 0 + row, r, f[row]));
                assert(may_count(other, 0 + row, r, g[row]));
                assert((row as usize) as int == row_of((row as usize) as int));
            },
            None => {
                assert(f[row] is None);
                assert(g[row] is None);
            },
        }
    }
    assert(f =~= g);
}

/// The sequence lists every row below its length once.
pub open spec fn is_permutation(p: Seq<int>) -> bool {
    &&& p.no_duplicates()
    &&& forall|j: int| 0 <= j < p.len() ==> 0 <= #[trigger] p[j] < p.len()
}

/// The order of the rows does not matter to the counts: if the rows, with
/// their radii, are put in another order and the counts agree, so do the cells
/// of the columns, nulls included.
pub proof fn counts_go_with_their_rows<
    R,
    V: Fn(usize, R) -> Result<usize, ErrorKind>,
    W: Fn(usize, R) -> Result<usize, ErrorKind>,
>(
    before: Series,
    after: Series,
    count_before: W,
    count_after: V,
    radius_before: Seq<Option<R>>,
    radius_after: Seq<Option<R>>,
    p: Seq<int>,
)
    requires
        p.len() <= usize::MAX,
        is_permutation(p),
        radius_before.len() == 1 || radius_before.len() == p.len(),
        radius_after.len() == radius_before.len(),
        radius_before.len() == 1 ==> radius_after[0] == radius_before[0],
        radius_before.len() != 1 ==> forall|j: int|
            0 <= j < p.len() ==> #[trigger] radius_after[j] == radius_before[p[j]],
        holds_counts(before, count_before, radii_by_row(radius_before, p.len() as int), 0),
        holds_counts(after, count_after, radii_by_row(radius_after, p.len() as int), 0),
        counts_agree(count_after, count_before, |row: int| p[row], p.len() as int),
    ensures
        series_u32(before) is Some,
        series_u32(after) is Some,
        forall|j: int|
            0 <= j < p.len() ==> #[trigger] series_u32(after).unwrap()[j] == series_u32(
                before,
            ).unwrap()[p[j]],
{
    let f = series_u32(before).unwrap();
    let g = series_u32(after).unwrap();
    let row_of = |row: int| p[row];
    let radii = radii_by_row(radius_after, p.len() as int);
    assert forall|j: int| 0 <= j < p.len() implies #[trigger] g[j] == f[p[j]] by {
        let i = p[j];
        assert(0 <= i < p.len());
        assert(radii_by_row(radius_before, p.len() as int)[i] == radii[j]);
        match radii[j] {
            Some(r) => {
                assert(may_count(count_after, 0 + j, r, g[j]));
                assert(may_count(count_before, 0 + i, r, f[i]));
                assert((i as usize) as int == row_of((j as usize) as int));
            },
            None => {
                assert(g[j] is None);
                assert(f[i] is None);
            },
        }
    }
}

/// From each of the first `nrows` rows, a count within a larger radius is no
/// smaller and no more than there are rows, and both counts succeed or none.
pub open spec fn counts_grow<R, W: Fn(usize, R) -> Result<usize, ErrorKind>>(
    within_count: W,
    at_most: spec_fn(R, R) -> bool,
    nrows: int,
) -> bool {
    forall|row: usize, r: R, s: R, a: Result<usize, ErrorKind>, b: Result<usize, ErrorKind>|
        row < nrows && at_most(r, s) && #[trigger] call_ensures(within_count, (row, r), a)
            && #[trigger] call_ensures(within_count, (row, s), b) ==> match (a, b) {
            (Ok(small), Ok(large)) => small <= large <= nrows,
            (Err(_), Err(_)) => true,
            _ => false,
        }
}

/// Larger radii give no smaller counts: if the count from a row does not fall
/// as the radius grows, neither do the cells, and the same rows have nulls.
pub proof fn larger_radii_count_no_fewer<R, W: Fn(usize, R) -> Result<usize, ErrorKind>>(
    a: Series,
    b: Series,
    within_count: W,
    at_most: spec_fn(R, R) -> bool,
    smaller: Seq<Option<R>>,
    larger: Seq<Option<R>>,
)
    requires
        smaller.len() == larger.len() <= u32::MAX,
        forall|row: int|
            0 <= row < smaller.len() ==> match (#[trigger] smaller[row], larger[row]) {
                (Some(r), Some(s)) => at_most(r, s),
                (None, None) => true,
                _ => false,
            },
        holds_counts(a, within_count, smaller, 0),
        holds_counts(b, within_count, larger, 0),
        counts_grow(within_count, at_most, smaller.len() as int),
    ensures
        series_u32(a) is Some,
        series_u32(b) is Some,
        forall|row: int|
            0 <= row < smaller.len() ==> match (
                #[trigger] series_u32(a).unwrap()[row],
                series_u32(b).unwrap()[row],
            ) {
                (Some(few), Some(many)) => few <= many,
                (None, None) => true,
                _ => false,
            },
{
    let f = series_u32(a).unwrap();
    let g = series_u32(b).unwrap();
    assert forall|row: int| 0 <= row < smaller.len() implies match (#[trigger] f[row], g[row]) {
        (Some(few), Some(many)) => few <= many,
        (None, None) => true,
        _ => false,
    } by {
        match (smaller[row], larger[row]) {
            (Some(r), Some(s)) => {
                assert(may_count(within_count, 0 + row, r, f[row]));
                assert(may_count(within_count, 0 + row, s, g[row]));
            },
            _ => {
                assert(f[row] is None);
                assert(g[row] is None);
            },
        }
    }
}

/// Every row that the one search finds from its point, for `one_k` rows, the
/// other finds from its own, for `other_k` rows, wherever both succeed.
pub open spec fn point_finds_again<
    D,
    M: Fn(usize) -> Result<Vec<(D, usize)>, ErrorKind>,
    N: Fn(usize) -> Result<Vec<(D, usize)>, ErrorKind>,
>(one: M, one_k: usize, other: N, other_k: usize) -> bool {
    forall|a: Vec<(D, usize)>, b: Vec<(D, usize)>| #[trigger]
        call_ensures(one, (one_k,), Ok(a)) && #[trigger] call_ensures(other, (other_k,), Ok(b))
            ==> all_found_again(a@, b@)
}

/// A filter for more rows keeps every mark: if the search finds again what it
/// found for fewer rows, every row that is marked stays marked.
pub proof fn filter_for_more_keeps_the_marks<
    D,
    M: Fn(usize) -> Result<Vec<(D, usize)>, ErrorKind>,
    N: Fn(usize) -> Result<Vec<(D, usize)>, ErrorKind>,
>(
    a: Result<Series, KnnError>,
    b: Result<Series, KnnError>,
    nrows: int,
    one: M,
    fewer: usize,
    other: N,
    more: usize,
)
    requires
        0 <= nrows,
        fewer <= more,
        a is Ok,
        b is Ok,
        filters_by(nrows, one, fewer, a),
        filters_by(nrows, other, more, b),
        point_finds_again(one, fewer, other, more),
    ensures
        series_bool(a->Ok_0) is Some,
        series_bool(b->Ok_0) is Some,
        forall|row: int|
            0 <= row < nrows && #[trigger] series_bool(a->Ok_0).unwrap()[row] == Some(true)
                ==> series_bool(b->Ok_0).unwrap()[row] == Some(true),
{
    let x = choose|x: Result<Vec<(D, usize)>, ErrorKind>| #[trigger]
        call_ensures(one, (fewer,), x) && filters(nrows, x, a);
    let y = choose|y: Result<Vec<(D, usize)>, ErrorKind>| #[trigger]
        call_ensures(other, (more,), y) && filters(nrows, y, b);
    let f = x->Ok_0;
    let g = y->Ok_0;
    assert(call_ensures(one, (fewer,), Ok(f)) && call_ensures(other, (more,), Ok(g)));
    assert forall|row: int|
        0 <= row < nrows && #[trigger] series_bool(a->Ok_0).unwrap()[row] == Some(
            true,
        ) implies series_bool(b->Ok_0).unwrap()[row] == Some(true) by {
        assert(found_mask(nrows, f@)[row]);
        assert(is_found(f@, row));
        assert(is_found(g@, row));
    }
}

/// Two filters whose searches find the same rows make the same mask.
pub proof fn like_filters_mark_alike<
    D,
    M: Fn(usize) -> Result<Vec<(D, usize)>, ErrorKind>,
    N: Fn(usize) -> Result<Vec<(D, usize)>, ErrorKind>,
>(
    a: Result<Series, KnnError>,
    b: Result<Series, KnnError>,
    nrows: int,
    one: M,
    one_k: usize,
    other: N,
    other_k: usize,
)
    requires
        0 <= nrows,
        a is Ok,
        b is Ok,
        filters_by(nrows, one, one_k, a),
        filters_by(nrows, other, other_k, b),
        point_finds_again(one, one_k, other, other_k),
        point_finds_again(other, other_k, one, one_k),
    ensures
        series_bool(a->Ok_0) == series_bool(b->Ok_0),
{
    let x = choose|x: Result<Vec<(D, usize)>, ErrorKind>| #[trigger]
        call_ensures(one, (one_k,), x) && filters(nrows, x, a);
    let y = choose|y: Result<Vec<(D, usize)>, ErrorKind>| #[trigger]
        call_ensures(other, (other_k,), y) && filters(nrows, y, b);
    let f = x->Ok_0;
    let g = y->Ok_0;
    assert(call_ensures(one, (one_k,), Ok(f)) && call_ensures(other, (other_k,), Ok(g)));
    assert forall|row: int| 0 <= row < nrows implies found_mask(nrows, f@)[row] == found_mask(
        nrows,
        g@,
    )[row] by {
        assert(is_found(f@, row) ==> is_found(g@, row));
        assert(is_found(g@, row) ==> is_found(f@, row));
    }
    assert(found_mask(nrows, f@) =~= found_mask(nrows, g@));
}

/// The identifiers of the rows that a mask marks.
pub open spec fn marked_ids(id: Seq<u32>, mask: Seq<Option<bool>>) -> Set<u32> {
    Set::new(
        |v: u32|
            exists|i: int| 0 <= i < mask.len() && #[trigger] mask[i] == Some(true) && id[i] == v,
    )
}

/// The search from a row and the search from a point find the same rows.
pub open spec fn point_is_row<
    D,
    S: Fn(usize, usize) -> Result<Vec<(D, usize)>, ErrorKind>,
    N: Fn(usize) -> Result<Vec<(D, usize)>, ErrorKind>,
>(nearest: S, row: int, from_point: N, num: usize) -> bool {
    forall|a: Result<Vec<(D, usize)>, ErrorKind>, b: Result<Vec<(D, usize)>, ErrorKind>| #[trigger]
        call_ensures(nearest, (row as usize, num), a) && #[trigger] call_ensures(
            from_point,
            (num,),
            b,
        ) ==> match (a, b) {
            (Ok(x), Ok(y)) => all_found_again(x@, y@) && all_found_again(y@, x@),
            (Err(_), Err(_)) => true,
            _ => false,
        }
}

/// A point that is a row of the table costs one neighbor more: where the
/// search from the point finds what the search from the row finds, the filter
/// for `k + 1` rows marks exactly the rows in the list that the query for `k`
/// neighbors has for that row, and fails where that list is null.
pub proof fn filter_from_a_row_marks_its_list<
    D,
    S: Fn(usize, usize) -> Result<Vec<(D, usize)>, ErrorKind>,
    N: Fn(usize) -> Result<Vec<(D, usize)>, ErrorKind>,
>(
    column: Series,
    mask: Result<Series, KnnError>,
    id: Seq<u32>,
    nearest: S,
    from_point: N,
    k: usize,
    queried: Seq<bool>,
    row: int,
)
    requires
        k < usize::MAX,
        0 <= row < queried.len(),
        queried[row],
        id.len() == queried.len(),
        holds_ids(column, id, nearest, (k + 1) as usize, 0, queried),
        filters_by(queried.len() as int, from_point, (k + 1) as usize, mask),
        point_is_row(nearest, row, from_point, (k + 1) as usize),
        forall|answer: Result<Vec<(D, usize)>, ErrorKind>| #[trigger]
            call_ensures(from_point, ((k + 1) as usize,), answer) ==> rows_below(
                answer,
                queried.len() as int,
            ),
    ensures
        series_u32_lists(column) is Some,
        match series_u32_lists(column).unwrap()[row] {
            Some(list) => {
                &&& mask is Ok
                &&& series_bool(mask->Ok_0) matches Some(marks)
                &&& marks.len() == queried.len()
                &&& marked_ids(id, marks) == list.to_set()
                &&& id.no_duplicates() ==> forall|i: int|
                    0 <= i < marks.len() ==> (#[trigger] marks[i] == Some(true) <==> list.contains(
                        id[i],
                    ))
            },
            None => mask is Err,
        },
{
    let num = (k + 1) as usize;
    let nrows = queried.len() as int;
    let f = choose|f: Seq<Option<Seq<(D, usize)>>>| #[trigger]
        searched(nearest, num, 0, queried, f) && series_u32_lists(column) == Some(id_lists(id, f));
    assert(may_find(nearest, 0 + row, num, f[row]));
    let x = choose|x: Result<Vec<(D, usize)>, ErrorKind>| #[trigger]
        call_ensures(nearest, ((0 + row) as usize, num), x) && f[row] == found_rows(x);
    let y = choose|y: Result<Vec<(D, usize)>, ErrorKind>| #[trigger]
        call_ensures(from_point, (num,), y) && filters(nrows, y, mask);
    if f[row] is Some {
        let found = x->Ok_0@;
        let from = y->Ok_0@;
        let list = id_lists(id, f)[row].unwrap();
        let marks = series_bool(mask->Ok_0).unwrap();
        assert(rows_below(y, nrows));
        assert forall|i: int| 0 <= i < nrows implies (#[trigger] marks[i] == Some(true)
            <==> is_found(found, i)) by {
            assert(found_mask(nrows, from)[i] == is_found(from, i));
            assert(is_found(found, i) ==> is_found(from, i));
            assert(is_found(from, i) ==> is_found(found, i));
        }
        assert forall|v: u32| marked_ids(id, marks).contains(v) <==> list.to_set().contains(v) by {
            if marked_ids(id, marks).contains(v) {
                let i = choose|i: int|
                    0 <= i < marks.len() && #[trigger] marks[i] == Some(true) && id[i] == v;
                assert(is_found(found, i));
                let j = choose|j: int| 0 <= j < found.len() && (#[trigger] found[j]).1 == i;
                assert(list[j] == v);
                assert(list.contains(v));
            }
            if list.to_set().contains(v) {
                let j = choose|j: int| 0 <= j < list.len() && list[j] == v;
                let i = found[j].1 as int;
                assert(is_found(found, i));
                assert(is_found(from, i));
                let w = choose|w: int| 0 <= w < from.len() && (#[trigger] from[w]).1 == i;
                assert((y->Ok_0)[w].1 < nrows);
                assert(marks[i] == Some(true));
            }
        }
        assert(marked_ids(id, marks) =~= list.to_set());
        if id.no_duplicates() {
            assert forall|i: int| 0 <= i < marks.len() implies (#[trigger] marks[i] == Some(true)
                <==> list.contains(id[i])) by {
                assert(marked_ids(id, marks).contains(id[i]) <==> list.to_set().contains(id[i]));
                if list.contains(id[i]) {
                    let w = choose|w: int|
                        0 <= w < marks.len() && #[trigger] marks[w] == Some(true) && id[w] == id[i];
                    assert(w == i);
                }
            }
        }
    }
}

/// The size of the leaves does not matter to what a tree holds: two trees over
/// the same rows hold the rows that can be added and no others, if an empty
/// tree has room and holds nothing, and a tree with room takes a row exactly if
/// the row can be added, and still has room then.
pub proof fn leaf_size_changes_no_row<
    T,
    C: Fn(usize, usize) -> T,
    A: Fn(T, usize) -> (T, Result<(), ErrorKind>),
>(
    dim: usize,
    one_size: usize,
    other_size: usize,
    nrows: int,
    with_capacity: C,
    add_row: A,
    one: Seq<T>,
    other: Seq<T>,
    has_room: spec_fn(T) -> bool,
    held: spec_fn(T) -> Set<int>,
    can_add: spec_fn(int) -> bool,
)
    requires
        0 <= nrows <= usize::MAX,
        fills(dim, one_size, nrows, with_capacity, add_row, one),
        fills(dim, other_size, nrows, with_capacity, add_row, other),
        forall|leaf_size: usize, tree: T|
            (leaf_size == one_size || leaf_size == other_size) && #[trigger] call_ensures(
                with_capacity,
                (dim, leaf_size),
                tree,
            ) ==> has_room(tree) && held(tree) == Set::<int>::empty(),
        forall|before: T, row: usize, after: T, outcome: Result<(), ErrorKind>|
            has_room(before) && #[trigger] call_ensures(add_row, (before, row), (after, outcome))
                ==> has_room(after) && held(after) == (if can_add(row as int) {
                held(before).insert(row as int)
            } else {
                held(before)
            }),
    ensures
        held(one.last()) == held(other.last()),
        held(one.last()) == Set::new(|row: int| 0 <= row < nrows && can_add(row)),
{
    lemma_holds_what_can_be_added(
        dim,
        one_size,
        nrows,
        with_capacity,
        add_row,
        one,
        has_room,
        held,
        can_add,
        nrows,
    );
    lemma_holds_what_can_be_added(
        dim,
        other_size,
        nrows,
        with_capacity,
        add_row,
        other,
        has_room,
        held,
        can_add,
        nrows,
    );
}

/// What the tree holds once `k` rows have been tried.
proof fn lemma_holds_what_can_be_added<
    T,
    C: Fn(usize, usize) -> T,
    A: Fn(T, usize) -> (T, Result<(), ErrorKind>),
>(
    dim: usize,
    leaf_size: usize,
    nrows: int,
    with_capacity: C,
    add_row: A,
    states: Seq<T>,
    has_room: spec_fn(T) -> bool,
    held: spec_fn(T) -> Set<int>,
    can_add: spec_fn(int) -> bool,
    k: int,
)
    requires
        0 <= k <= nrows <= usize::MAX,
        fills(dim, leaf_size, nrows, with_capacity, add_row, states),
        forall|tree: T| #[trigger]
            call_ensures(with_capacity, (dim, leaf_size), tree) ==> has_room(tree) && held(tree)
                == Set::<int>::empty(),
        forall|before: T, row: usize, after: T, outcome: Result<(), ErrorKind>|
            has_room(before) && #[trigger] call_ensures(add_row, (before, row), (after, outcome))
                ==> has_room(after) && held(after) == (if can_add(row as int) {
                held(before).insert(row as int)
            } else {
                held(before)
            }),
    ensures
        has_room(states[k]),
        held(states[k]) == Set::new(|row: int| 0 <= row < k && can_add(row)),
    decreases k,
{
    if k > 0 {
        lemma_holds_what_can_be_added(
            dim,
            leaf_size,
            nrows,
            with_capacity,
            add_row,
            states,
            has_room,
            held,
            can_add,
            k - 1,
        );
        assert(adds(add_row, k - 1, states));
    }
    assert(held(states[k]) =~= Set::new(|row: int| 0 <= row < k && can_add(row)));
}

} // verus!
