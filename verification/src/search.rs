//! What a query over the rows of a table asks of its search, and what it
//! makes of the answers.
//!
//! A search takes a row number and a parameter (how many neighbors, or how
//! far) and answers with the rows it found, each with its distance, or fails.
use kdtree::ErrorKind;
use polars::prelude::Series;
use vstd::prelude::*;

use crate::pieces::place_in_piece;
use crate::series::series_u32_lists;

verus! {

/// The rows that an answer found; `None` for a failure.
pub open spec fn found_rows<D>(answer: Result<Vec<(D, usize)>, ErrorKind>) -> Option<
    Seq<(D, usize)>,
> {
    match answer {
        Ok(rows) => Some(rows@),
        Err(_) => None,
    }
}

/// The search from a row can come out with these rows found.
pub open spec fn may_find<P, D, S: Fn(usize, P) -> Result<Vec<(D, usize)>, ErrorKind>>(
    search: S,
    row: int,
    param: P,
    found: Option<Seq<(D, usize)>>,
) -> bool {
    exists|answer: Result<Vec<(D, usize)>, ErrorKind>|
        call_ensures(search, (row as usize, param), answer) && found == found_rows(answer)
}

/// `found` holds what was found from the rows numbered `first` and up: from a
/// queried row what the search answered, from any other row nothing.
pub open spec fn searched<P, D, S: Fn(usize, P) -> Result<Vec<(D, usize)>, ErrorKind>>(
    search: S,
    param: P,
    first: int,
    queried: Seq<bool>,
    found: Seq<Option<Seq<(D, usize)>>>,
) -> bool {
    &&& found.len() == queried.len()
    &&& forall|i: int|
        0 <= i < queried.len() ==> if queried[i] {
            may_find(search, first + i, param, #[trigger] found[i])
        } else {
            found[i] is None
        }
}

/// The search can be called on each of the rows from `first` to `end`.
pub open spec fn can_search<P, D, S: Fn(usize, P) -> Result<Vec<(D, usize)>, ErrorKind>>(
    search: S,
    param: P,
    first: int,
    end: int,
) -> bool {
    forall|row: usize| first <= row < end ==> #[trigger] call_requires(search, (row, param))
}

/// Every row that the search finds from one of the rows below `end` has a
/// number below `bound`.
pub open spec fn finds_below<P, D, S: Fn(usize, P) -> Result<Vec<(D, usize)>, ErrorKind>>(
    search: S,
    param: P,
    end: int,
    bound: int,
) -> bool {
    forall|row: usize, answer: Result<Vec<(D, usize)>, ErrorKind>|
        row < end && #[trigger] call_ensures(search, (row, param), answer) ==> rows_below(
            answer,
            bound,
        )
}

/// Every row in the answer has a number below `bound`.
pub open spec fn rows_below<D>(answer: Result<Vec<(D, usize)>, ErrorKind>, bound: int) -> bool {
    answer matches Ok(rows) ==> forall|j: int|
        0 <= j < rows.len() ==> (#[trigger] rows[j]).1 < bound
}

/// The identifiers of the rows found, in the order in which they were found.
pub open spec fn ids_of<D>(id: Seq<u32>, found: Seq<(D, usize)>) -> Seq<u32> {
    found.map_values(|row: (D, usize)| id[row.1 as int])
}

/// The distances of the rows found.
pub open spec fn distances_of<D>(found: Seq<(D, usize)>) -> Seq<D> {
    found.map_values(|row: (D, usize)| row.0)
}

/// One list of identifiers per row; a null where nothing was found.
pub open spec fn id_lists<D>(id: Seq<u32>, found: Seq<Option<Seq<(D, usize)>>>) -> Seq<
    Option<Seq<u32>>,
> {
    found.map_values(
        |rows: Option<Seq<(D, usize)>>|
            match rows {
                Some(rows) => Some(ids_of(id, rows)),
                None => None,
            },
    )
}

/// One list of distances per row; a null where nothing was found.
pub open spec fn distance_lists<D>(found: Seq<Option<Seq<(D, usize)>>>) -> Seq<Option<Seq<D>>> {
    found.map_values(
        |rows: Option<Seq<(D, usize)>>|
            match rows {
                Some(rows) => Some(distances_of(rows)),
                None => None,
            },
    )
}

/// The lists that rows of vectors hold.
pub open spec fn lists_of<D>(rows: Seq<Option<Vec<D>>>) -> Seq<Option<Seq<D>>> {
    rows.map_values(
        |row: Option<Vec<D>>|
            match row {
                Some(list) => Some(list@),
                None => None,
            },
    )
}

/// The column holds the identifiers of what was found from the rows numbered
/// `first` and up.
pub open spec fn holds_ids<P, D, S: Fn(usize, P) -> Result<Vec<(D, usize)>, ErrorKind>>(
    column: Series,
    id: Seq<u32>,
    search: S,
    param: P,
    first: int,
    queried: Seq<bool>,
) -> bool {
    exists|found: Seq<Option<Seq<(D, usize)>>>|
        #[trigger] searched(search, param, first, queried, found)
            && series_u32_lists(column) == Some(id_lists(id, found))
}

/// The column holds the identifiers, and the rows of vectors the distances,
/// of what was found from the rows numbered `first` and up.
pub open spec fn holds_neighbors<P, D, S: Fn(usize, P) -> Result<Vec<(D, usize)>, ErrorKind>>(
    column: Series,
    distances: Seq<Option<Vec<D>>>,
    id: Seq<u32>,
    search: S,
    param: P,
    first: int,
    queried: Seq<bool>,
) -> bool {
    exists|found: Seq<Option<Seq<(D, usize)>>>|
        {
            &&& #[trigger] searched(search, param, first, queried, found)
            &&& series_u32_lists(column) == Some(id_lists(id, found))
            &&& lists_of(distances) == distance_lists(found)
        }
}

/// The flags of a row filter, if there is one.
pub open spec fn flags(filter: Option<Vec<bool>>) -> Option<Seq<bool>> {
    match filter {
        Some(kept) => Some(kept@),
        None => None,
    }
}

/// There is a flag for each of the first `n` rows, if there is a filter.
pub open spec fn covers(filter: Option<Seq<bool>>, n: int) -> bool {
    filter matches Some(kept) ==> n <= kept.len()
}

/// Whether each of `len` rows is queried, when the flag of the first one
/// stands at `start`: without a filter every row is.
pub open spec fn queried_from(filter: Option<Seq<bool>>, start: int, len: int) -> Seq<bool> {
    Seq::new(
        len as nat,
        |i: int|
            match filter {
                Some(kept) => kept[start + i],
                None => true,
            },
    )
}

/// Whether each row of a table is queried, each row going by its own flag.
pub open spec fn queried_rows(filter: Option<Seq<bool>>, nrows: int) -> Seq<bool> {
    queried_from(filter, 0, nrows)
}

/// Whether each row of a table is queried when the table is cut into `n`
/// pieces and every piece counts its flags from the start of the filter: a
/// row goes by the flag at its place within its piece.
pub open spec fn queried_by_place(filter: Option<Seq<bool>>, nrows: int, n: int) -> Seq<bool> {
    Seq::new(
        nrows as nat,
        |row: int|
            match filter {
                Some(kept) => kept[place_in_piece(nrows, n, row)],
                None => true,
            },
    )
}

/// The identifiers of the rows found, in the order in which they were found.
pub fn row_ids<D>(id: &[u32], found: &Vec<(D, usize)>) -> (ids: Vec<u32>)
    requires
        forall|j: int| 0 <= j < found.len() ==> (#[trigger] found[j]).1 < id.len(),
    ensures
        ids@ == ids_of(id@, found@),
        ids.len() == found.len(),
        forall|t: int| 0 <= t < found.len() ==> #[trigger] ids[t] == id[found[t].1 as int],
{
    let mut ids: Vec<u32> = Vec::new();
    let mut j: usize = 0;
    while j < found.len()
        invariant
            j <= found.len(),
            forall|j: int| 0 <= j < found.len() ==> (#[trigger] found[j]).1 < id.len(),
            ids@ == ids_of(id@, found@.take(j as int)),
        decreases found.len() - j,
    {
        let row: usize = found[j].1;
        ids.push(id[row]);
        assert(ids@ =~= ids_of(id@, found@.take(j + 1)));
        j = j + 1;
    }
    assert(found@.take(found.len() as int) =~= found@);
    ids
}

/// The identifiers and the distances of the rows found, in the order in which
/// they were found.
pub fn row_neighbors<D: Copy>(id: &[u32], found: &Vec<(D, usize)>) -> (r: (Vec<u32>, Vec<D>))
    requires
        forall|j: int| 0 <= j < found.len() ==> (#[trigger] found[j]).1 < id.len(),
    ensures
        r.0@ == ids_of(id@, found@),
        r.1@ == distances_of(found@),
        r.0.len() == found.len(),
        r.1.len() == found.len(),
        forall|t: int| 0 <= t < found.len() ==> #[trigger] r.0[t] == id[found[t].1 as int],
        forall|t: int| 0 <= t < found.len() ==> #[trigger] r.1[t] == found[t].0,
{
    let mut ids: Vec<u32> = Vec::new();
    let mut distances: Vec<D> = Vec::new();
    let mut j: usize = 0;
    while j < found.len()
        invariant
            j <= found.len(),
            forall|j: int| 0 <= j < found.len() ==> (#[trigger] found[j]).1 < id.len(),
            ids@ == ids_of(id@, found@.take(j as int)),
            distances@ == distances_of(found@.take(j as int)),
        decreases found.len() - j,
    {
        let (distance, row) = found[j];
        ids.push(id[row]);
        distances.push(distance);
        assert(ids@ =~= ids_of(id@, found@.take(j + 1)));
        assert(distances@ =~= distances_of(found@.take(j + 1)));
        j = j + 1;
    }
    assert(found@.take(found.len() as int) =~= found@);
    (ids, distances)
}

} // verus!
