//! What the queries do, row by row and cell by cell: what each cell of a column
//! has to do with the inputs and with the answers of the search, and on which
//! inputs the queries can be called.
use kdtree::ErrorKind;
use polars::prelude::Series;
use vstd::multiset::Multiset;
use vstd::prelude::*;

use crate::counts::{can_count, count_cell, holds_counts, may_count, one_radius, radii_by_row};
use crate::error::{error_text, KnnError};
use crate::filter::{filters, filters_by, found_mask, is_found};
use crate::inputs::{are_inputs, has_ids, kept_rows, reads_ids, values_of, PtwiseInputs};
use crate::pieces::{lemma_piece_bounds, lemma_place_is_unique, piece_len, piece_offset};
use crate::schema::{is_as_declared, is_full_output, ColumnField, ColumnType};
use crate::search::{
    can_search, covers, distance_lists, finds_below, flags, found_rows, holds_ids, holds_neighbors,
    id_lists, lists_of, may_find, queried_by_place, queried_rows, rows_below, searched,
};
use crate::series::{
    fits_column, fits_entries, in_one_chunk, is_float_lists, joined_lists, joined_u32, renamed,
    series_bool, series_len, series_name, series_u32, series_u32_lists, struct_fields, u32_refusal,
};
use crate::tree::{adds, fills};
use crate::with_dist::{holds_neighbor_structs, is_neighbor_column};

verus! {

/// The list of a row that is queried has, entry by entry, the identifiers of
/// what some answer of the search from that row found, and is null if that
/// answer is a failure; the list of any other row is null.
proof fn lemma_list_of_row<P, D, S: Fn(usize, P) -> Result<Vec<(D, usize)>, ErrorKind>>(
    column: Series,
    id: Seq<u32>,
    search: S,
    param: P,
    queried: Seq<bool>,
    row: int,
)
    requires
        0 <= row < queried.len(),
        holds_ids(column, id, search, param, 0, queried),
    ensures
        series_u32_lists(column) is Some,
        series_u32_lists(column).unwrap().len() == queried.len(),
        !queried[row] ==> series_u32_lists(column).unwrap()[row] is None,
        queried[row] ==> exists|answer: Result<Vec<(D, usize)>, ErrorKind>| #[trigger]
            call_ensures(search, (row as usize, param), answer) && match answer {
                Ok(found) => {
                    &&& series_u32_lists(column).unwrap()[row] matches Some(list)
                    &&& list.len() == found.len()
                    &&& forall|t: int|
                        0 <= t < found.len() ==> #[trigger] list[t] == id[found[t].1 as int]
                },
                Err(_) => series_u32_lists(column).unwrap()[row] is None,
            },
{
    let f = choose|f: Seq<Option<Seq<(D, usize)>>>| #[trigger]
        searched(search, param, 0, queried, f) && series_u32_lists(column) == Some(id_lists(id, f));
    let cell = series_u32_lists(column).unwrap()[row];
    assert(cell == id_lists(id, f)[row]);
    if queried[row] {
        assert(may_find(search, 0 + row, param, f[row]));
        let answer = choose|answer: Result<Vec<(D, usize)>, ErrorKind>| #[trigger]
            call_ensures(search, ((0 + row) as usize, param), answer) && f[row] == found_rows(
                answer,
            );
        assert(call_ensures(search, (row as usize, param), answer));
    } else {
        assert(f[row] is None);
    }
}

/// A query for nearest neighbors that goes through the rows in order: a row
/// whose own flag says so gets, entry by entry, the identifiers of the rows
/// that a search from it for `k + 1` rows found, or a null if that search
/// failed; a row whose own flag does not say so gets a null. Without a filter
/// every row is searched.
pub proof fn neighbors_by_row<D, N: Fn(usize, usize) -> Result<Vec<(D, usize)>, ErrorKind>>(
    column: Series,
    inputs: PtwiseInputs,
    nrows: usize,
    k: usize,
    nearest: N,
    row: int,
)
    requires
        0 <= row < nrows,
        k < usize::MAX,
        holds_ids(
            column,
            inputs.id@,
            nearest,
            (k + 1) as usize,
            0,
            queried_rows(flags(inputs.filter), nrows as int),
        ),
    ensures
        series_u32_lists(column) is Some,
        series_u32_lists(column).unwrap().len() == nrows,
        inputs.filter matches Some(kept) && !kept@[row] ==> series_u32_lists(column).unwrap()[row]
            is None,
        (inputs.filter matches Some(kept) ==> kept@[row]) ==> exists|
            answer: Result<Vec<(D, usize)>, ErrorKind>,
        | #[trigger]
            call_ensures(nearest, (row as usize, (k + 1) as usize), answer) && match answer {
                Ok(found) => {
                    &&& series_u32_lists(column).unwrap()[row] matches Some(list)
                    &&& list.len() == found.len()
                    &&& forall|t: int|
                        0 <= t < found.len() ==> #[trigger] list[t]
                            == inputs.id@[found[t].1 as int]
                },
                Err(_) => series_u32_lists(column).unwrap()[row] is None,
            },
{
    let queried = queried_rows(flags(inputs.filter), nrows as int);
    lemma_list_of_row(column, inputs.id@, nearest, (k + 1) as usize, queried, row);
    assert(queried[row] == (match inputs.filter {
        Some(kept) => kept@[row],
        None => true,
    }));
}

/// A query for nearest neighbors in `n` pieces: the row at place `i` of piece
/// number `p` is row `p * (nrows / n) + i` of the table. It goes by the flag
/// at `i`, and gets, entry by entry, the identifiers of the rows that a search
/// from it for `k + 1` rows found. All pieces have `nrows / n` rows, except
/// that the last one takes what is left.
pub proof fn neighbors_by_place<D, N: Fn(usize, usize) -> Result<Vec<(D, usize)>, ErrorKind>>(
    column: Series,
    inputs: PtwiseInputs,
    nrows: usize,
    k: usize,
    n: int,
    nearest: N,
    p: int,
    i: int,
)
    requires
        0 <= p < n,
        0 <= i,
        p < n - 1 ==> i < nrows as int / n,
        p == n - 1 ==> p * (nrows as int / n) + i < nrows,
        k < usize::MAX,
        holds_ids(
            column,
            inputs.id@,
            nearest,
            (k + 1) as usize,
            0,
            queried_by_place(flags(inputs.filter), nrows as int, n),
        ),
    ensures
        0 <= p * (nrows as int / n) + i < nrows,
        series_u32_lists(column) is Some,
        series_u32_lists(column).unwrap().len() == nrows,
        inputs.filter matches Some(kept) && !kept@[i] ==> series_u32_lists(column).unwrap()[p * (
        nrows as int / n) + i] is None,
        (inputs.filter matches Some(kept) ==> kept@[i]) ==> exists|
            answer: Result<Vec<(D, usize)>, ErrorKind>,
        | #[trigger]
            call_ensures(
                nearest,
                ((p * (nrows as int / n) + i) as usize, (k + 1) as usize),
                answer,
            ) && match answer {
                Ok(found) => {
                    &&& series_u32_lists(column).unwrap()[p * (nrows as int / n)
                        + i] matches Some(list)
                    &&& list.len() == found.len()
                    &&& forall|t: int|
                        0 <= t < found.len() ==> #[trigger] list[t]
                            == inputs.id@[found[t].1 as int]
                },
                Err(_) => series_u32_lists(column).unwrap()[p * (nrows as int / n) + i] is None,
            },
{
    let queried = queried_by_place(flags(inputs.filter), nrows as int, n);
    let row = p * (nrows as int / n) + i;
    lemma_piece_bounds(nrows as int, n, p);
    lemma_place_is_unique(nrows as int, n, p, i);
    assert(piece_offset(nrows as int, n, p) + i == row);
    lemma_list_of_row(column, inputs.id@, nearest, (k + 1) as usize, queried, row);
    assert(queried[row] == (match inputs.filter {
        Some(kept) => kept@[i],
        None => true,
    }));
}

/// A column of lists has a cell for each row of the table, also if it has none.
pub proof fn lists_are_as_many_as_rows<P, D, S: Fn(usize, P) -> Result<Vec<(D, usize)>, ErrorKind>>(
    column: Series,
    id: Seq<u32>,
    search: S,
    param: P,
    filter: Option<Vec<bool>>,
    nrows: usize,
    n: int,
)
    requires
        holds_ids(column, id, search, param, 0, queried_rows(flags(filter), nrows as int))
            || holds_ids(
            column,
            id,
            search,
            param,
            0,
            queried_by_place(flags(filter), nrows as int, n),
        ),
    ensures
        series_u32_lists(column) is Some,
        series_u32_lists(column).unwrap().len() == nrows,
{
}

/// A query within a radius searches from every row with that radius, and the
/// row gets, entry by entry, the identifiers of the rows found, or a null if
/// the search failed.
pub proof fn radius_neighbors_by_row<R, D, W: Fn(usize, R) -> Result<Vec<(D, usize)>, ErrorKind>>(
    column: Series,
    id: Seq<u32>,
    nrows: usize,
    r: R,
    within: W,
    row: int,
)
    requires
        0 <= row < nrows,
        holds_ids(column, id, within, r, 0, queried_rows(None, nrows as int)),
    ensures
        series_u32_lists(column) is Some,
        series_u32_lists(column).unwrap().len() == nrows,
        exists|answer: Result<Vec<(D, usize)>, ErrorKind>| #[trigger]
            call_ensures(within, (row as usize, r), answer) && match answer {
                Ok(found) => {
                    &&& series_u32_lists(column).unwrap()[row] matches Some(list)
                    &&& list.len() == found.len()
                    &&& forall|t: int|
                        0 <= t < found.len() ==> #[trigger] list[t] == id[found[t].1 as int]
                },
                Err(_) => series_u32_lists(column).unwrap()[row] is None,
            },
{
    let queried = queried_rows(None, nrows as int);
    lemma_list_of_row(column, id, within, r, queried, row);
    assert(queried[row]);
}

/// A query for neighbors and distances: the column is of structs of the fields
/// `idx` and `dist`, and `dist` is what `dist_lists` made of the lists of
/// distances. A row whose own flag says so has, entry by entry, the identifier
/// and the distance of each row that one and the same search from it for
/// `k + 1` rows found; if that search failed, and if its flag does not say so,
/// it has a null in both.
pub proof fn neighbors_and_distances_by_row<
    D,
    N: Fn(usize, usize) -> Result<Vec<(D, usize)>, ErrorKind>,
    L: Fn(Vec<Option<Vec<D>>>) -> Series,
>(
    column: Series,
    inputs: PtwiseInputs,
    nrows: usize,
    k: usize,
    nearest: N,
    dist_lists: L,
) -> (made: (Vec<Option<Vec<D>>>, Series))
    requires
        k < usize::MAX,
        holds_neighbor_structs(
            column,
            inputs.id@,
            nearest,
            (k + 1) as usize,
            queried_rows(flags(inputs.filter), nrows as int),
            dist_lists,
        ),
    ensures
        series_name(column) == "knn_dist"@,
        struct_fields(column) is Some,
        struct_fields(column).unwrap().len() == 2,
        series_name(struct_fields(column).unwrap()[0]) == "idx"@,
        series_name(struct_fields(column).unwrap()[1]) == "dist"@,
        is_float_lists(struct_fields(column).unwrap()[1]),
        series_u32_lists(struct_fields(column).unwrap()[0]) is Some,
        series_u32_lists(struct_fields(column).unwrap()[0]).unwrap().len() == nrows,
        call_ensures(dist_lists, (made.0,), made.1),
        struct_fields(column).unwrap()[1] == in_one_chunk(renamed(made.1, "dist"@)),
        made.0.len() == nrows,
        forall|row: int|
            0 <= row < nrows && (inputs.filter matches Some(kept) && !kept@[row])
                ==> #[trigger] made.0@[row] is None && series_u32_lists(
                struct_fields(column).unwrap()[0],
            ).unwrap()[row] is None,
        forall|row: int|
            0 <= row < nrows && (inputs.filter matches Some(kept) ==> kept@[row])
                ==> match #[trigger] made.0@[row] {
                Some(distances) => exists|found: Vec<(D, usize)>|
                    {
                        &&& #[trigger] call_ensures(
                            nearest,
                            (row as usize, (k + 1) as usize),
                            Ok::<Vec<(D, usize)>, ErrorKind>(found),
                        )
                        &&& series_u32_lists(
                            struct_fields(column).unwrap()[0],
                        ).unwrap()[row] matches Some(list)
                        &&& list.len() == found.len()
                        &&& distances.len() == found.len()
                        &&& forall|t: int|
                            0 <= t < found.len() ==> #[trigger] list[t]
                                == inputs.id@[found[t].1 as int]
                        &&& forall|t: int|
                            0 <= t < found.len() ==> #[trigger] distances@[t] == found[t].0
                    },
                None => series_u32_lists(
                    struct_fields(column).unwrap()[0],
                ).unwrap()[row] is None && exists|e: ErrorKind| #[trigger]
                    call_ensures(
                        nearest,
                        (row as usize, (k + 1) as usize),
                        Err::<Vec<(D, usize)>, ErrorKind>(e),
                    ),
            },
{
    let num = (k + 1) as usize;
    let id = inputs.id@;
    let queried = queried_rows(flags(inputs.filter), nrows as int);
    let (idx, rows, dist) = choose|idx: Series, rows: Vec<Option<Vec<D>>>, dist: Series|
        {
            &&& #[trigger] call_ensures(dist_lists, (rows,), dist)
            &&& #[trigger] holds_neighbors(idx, rows@, id, nearest, num, 0, queried)
            &&& is_float_lists(dist)
            &&& is_neighbor_column(column, idx, dist)
        };
    let f = choose|f: Seq<Option<Seq<(D, usize)>>>|
        {
            &&& #[trigger] searched(nearest, num, 0, queried, f)
            &&& series_u32_lists(idx) == Some(id_lists(id, f))
            &&& lists_of(rows@) == distance_lists(f)
        };
    let lists = series_u32_lists(struct_fields(column).unwrap()[0]).unwrap();
    assert(lists == id_lists(id, f));
    assert(lists_of(rows@).len() == distance_lists(f).len());
    assert forall|row: int|
        #![trigger rows@[row]]
        0 <= row < nrows && (inputs.filter matches Some(kept)
            && !kept@[row]) implies rows@[row] is None && lists[row] is None by {
        assert(!queried[row]);
        assert(f[row] is None);
        assert(lists_of(rows@)[row] == distance_lists(f)[row]);
    }
    assert forall|row: int|
        0 <= row < nrows && (inputs.filter matches Some(kept) ==> kept@[row]) implies match #[trigger]
    rows@[row] {
        Some(distances) => exists|found: Vec<(D, usize)>|
            {
                &&& #[trigger] call_ensures(
                    nearest,
                    (row as usize, (k + 1) as usize),
                    Ok::<Vec<(D, usize)>, ErrorKind>(found),
                )
                &&& lists[row] matches Some(list)
                &&& list.len() == found.len()
                &&& distances.len() == found.len()
                &&& forall|t: int|
                    0 <= t < found.len() ==> #[trigger] list[t] == inputs.id@[found[t].1 as int]
                &&& forall|t: int| 0 <= t < found.len() ==> #[trigger] distances@[t] == found[t].0
            },
        None => lists[row] is None && exists|e: ErrorKind| #[trigger]
            call_ensures(
                nearest,
                (row as usize, (k + 1) as usize),
                Err::<Vec<(D, usize)>, ErrorKind>(e),
            ),
    } by {
        assert(queried[row]);
        assert(may_find(nearest, 0 + row, num, f[row]));
        let answer = choose|answer: Result<Vec<(D, usize)>, ErrorKind>| #[trigger]
            call_ensures(nearest, ((0 + row) as usize, num), answer) && f[row] == found_rows(
                answer,
            );
        assert(lists_of(rows@)[row] == distance_lists(f)[row]);
        assert(call_ensures(nearest, (row as usize, num), answer));
        match answer {
            Ok(found) => {
                let distances = rows@[row].unwrap();
                assert(lists_of(rows@)[row] == Some(distances@));
                assert(call_ensures(
                    nearest,
                    (row as usize, num),
                    Ok::<Vec<(D, usize)>, ErrorKind>(found),
                ));
            },
            Err(e) => {
                assert(call_ensures(
                    nearest,
                    (row as usize, num),
                    Err::<Vec<(D, usize)>, ErrorKind>(e),
                ));
            },
        }
    }
    (rows, dist)
}

/// The two fields of a column of neighbors and distances are the two columns it
/// is made of, in that order, under their new names.
pub proof fn struct_is_of_its_two_columns(column: Series, idx: Series, dist: Series)
    requires
        is_neighbor_column(column, idx, dist),
    ensures
        series_name(column) == "knn_dist"@,
        series_len(column) == series_len(idx),
        struct_fields(column) is Some,
        struct_fields(column).unwrap().len() == 2,
        series_name(struct_fields(column).unwrap()[0]) == "idx"@,
        series_u32_lists(struct_fields(column).unwrap()[0]) == series_u32_lists(idx),
        struct_fields(column).unwrap()[0] == in_one_chunk(renamed(idx, "idx"@)),
        series_name(struct_fields(column).unwrap()[1]) == "dist"@,
        struct_fields(column).unwrap()[1] == in_one_chunk(renamed(dist, "dist"@)),
{
}

/// The declared type is a struct named `knn_dist` of the lists of unsigned
/// 32-bit integers `idx` and the lists of 64-bit floating-point numbers `dist`.
pub proof fn declared_type_is_of_two_lists(declared: ColumnField)
    requires
        is_full_output(declared),
    ensures
        declared.name@ == "knn_dist"@,
        declared.dtype matches ColumnType::Struct(fields) && {
            &&& fields.len() == 2
            &&& fields[0].name@ == "idx"@
            &&& fields[0].dtype == ColumnType::List(Box::new(ColumnType::UInt32))
            &&& fields[1].name@ == "dist"@
            &&& fields[1].dtype == ColumnType::List(Box::new(ColumnType::Float64))
        },
{
}

/// A column that is as a declared type of two fields has these two fields, by
/// name and type.
pub proof fn column_as_declared_has_the_fields(column: Series, declared: ColumnField)
    requires
        is_full_output(declared),
        is_as_declared(column, declared),
    ensures
        series_name(column) == "knn_dist"@,
        struct_fields(column) is Some,
        struct_fields(column).unwrap().len() == 2,
        series_name(struct_fields(column).unwrap()[0]) == "idx"@,
        series_u32_lists(struct_fields(column).unwrap()[0]) is Some,
        series_name(struct_fields(column).unwrap()[1]) == "dist"@,
        is_float_lists(struct_fields(column).unwrap()[1]),
{
    let columns = struct_fields(column).unwrap();
    assert(series_name(columns[0]) == "idx"@);
    assert(series_name(columns[1]) == "dist"@);
}

/// The cell of a row with a radius is the number that some answer of the count
/// from that row within that radius gives, cut to 32 bits, or a null if that
/// answer is a failure.
proof fn lemma_count_of_row<R, W: Fn(usize, R) -> Result<usize, ErrorKind>>(
    column: Series,
    within_count: W,
    radii: Seq<Option<R>>,
    row: int,
    r: R,
)
    requires
        0 <= row < radii.len(),
        radii[row] == Some(r),
        holds_counts(column, within_count, radii, 0),
    ensures
        exists|answer: Result<usize, ErrorKind>| #[trigger]
            call_ensures(within_count, (row as usize, r), answer) && match answer {
                Ok(count) => {
                    &&& series_u32(column).unwrap()[row] matches Some(cell)
                    &&& cell as int == count as int % 0x1_0000_0000
                    &&& count <= u32::MAX ==> cell == count
                },
                Err(_) => series_u32(column).unwrap()[row] is None,
            },
{
    let cells = series_u32(column).unwrap();
    assert(may_count(within_count, 0 + row, r, cells[row]));
    let answer = choose|answer: Result<usize, ErrorKind>| #[trigger]
        call_ensures(within_count, ((0 + row) as usize, r), answer) && cells[row] == count_cell(
            answer,
        );
    assert(call_ensures(within_count, (row as usize, r), answer));
}

/// Counting within one radius counts from every row within it.
pub proof fn counts_within_one_radius<R, W: Fn(usize, R) -> Result<usize, ErrorKind>>(
    column: Series,
    within_count: W,
    r: R,
    nrows: usize,
    row: int,
)
    requires
        0 <= row < nrows,
        holds_counts(column, within_count, one_radius(r, nrows as int), 0),
    ensures
        series_u32(column) is Some,
        series_u32(column).unwrap().len() == nrows,
        exists|answer: Result<usize, ErrorKind>| #[trigger]
            call_ensures(within_count, (row as usize, r), answer) && match answer {
                Ok(count) => {
                    &&& series_u32(column).unwrap()[row] matches Some(cell)
                    &&& cell as int == count as int % 0x1_0000_0000
                    &&& count <= u32::MAX ==> cell == count
                },
                Err(_) => series_u32(column).unwrap()[row] is None,
            },
{
    lemma_count_of_row(column, within_count, one_radius(r, nrows as int), row, r);
}

/// Given a single radius, the cell of every row is the number counted from it
/// within that radius, or a null if the count failed.
pub proof fn counts_within_the_single_radius<R, W: Fn(usize, R) -> Result<usize, ErrorKind>>(
    column: Series,
    within_count: W,
    radius: Seq<Option<R>>,
    r: R,
    nrows: usize,
    row: int,
)
    requires
        radius.len() == 1,
        radius[0] == Some(r),
        0 <= row < nrows,
        holds_counts(column, within_count, radii_by_row(radius, nrows as int), 0),
    ensures
        series_u32(column) is Some,
        series_u32(column).unwrap().len() == nrows,
        exists|answer: Result<usize, ErrorKind>| #[trigger]
            call_ensures(within_count, (row as usize, r), answer) && match answer {
                Ok(count) => {
                    &&& series_u32(column).unwrap()[row] matches Some(cell)
                    &&& cell as int == count as int % 0x1_0000_0000
                    &&& count <= u32::MAX ==> cell == count
                },
                Err(_) => series_u32(column).unwrap()[row] is None,
            },
{
    lemma_count_of_row(column, within_count, radii_by_row(radius, nrows as int), row, r);
}

/// Given a radius for each row, the cell of a row is the number counted from it
/// within its own radius, or a null if the count failed or the radius is null.
pub proof fn counts_within_own_radius<R, W: Fn(usize, R) -> Result<usize, ErrorKind>>(
    column: Series,
    within_count: W,
    radius: Seq<Option<R>>,
    nrows: usize,
    row: int,
)
    requires
        radius.len() == nrows,
        0 <= row < nrows,
        holds_counts(column, within_count, radii_by_row(radius, nrows as int), 0),
    ensures
        series_u32(column) is Some,
        series_u32(column).unwrap().len() == nrows,
        radius[row] is None ==> series_u32(column).unwrap()[row] is None,
        radius[row] matches Some(r) ==> exists|answer: Result<usize, ErrorKind>| #[trigger]
            call_ensures(within_count, (row as usize, r), answer) && match answer {
                Ok(count) => {
                    &&& series_u32(column).unwrap()[row] matches Some(cell)
                    &&& cell as int == count as int % 0x1_0000_0000
                    &&& count <= u32::MAX ==> cell == count
                },
                Err(_) => series_u32(column).unwrap()[row] is None,
            },
{
    let radii = radii_by_row(radius, nrows as int);
    assert(radii[row] == radius[row]);
    match radius[row] {
        Some(r) => {
            lemma_count_of_row(column, within_count, radii, row, r);
        },
        None => {
            assert(series_u32(column).unwrap()[row] is None);
        },
    }
}

/// A column of counts has a cell for each row of the table, also if it has
/// none.
pub proof fn counts_are_as_many_as_rows<R, W: Fn(usize, R) -> Result<usize, ErrorKind>>(
    column: Series,
    within_count: W,
    radius: Seq<Option<R>>,
    nrows: usize,
)
    requires
        radius.len() == 1 || radius.len() == nrows,
        holds_counts(column, within_count, radii_by_row(radius, nrows as int), 0),
    ensures
        series_u32(column) is Some,
        series_u32(column).unwrap().len() == nrows,
{
}

/// Reading a column as identifiers succeeds exactly if it is of unsigned 32-bit
/// integers and none of its cells is null; it fails with the refusal of
/// `polars` if it is of another type, and with the message for missing
/// identifiers if a cell is null.
pub proof fn ids_are_read_or_refused<T>(s: Series, r: Result<T, KnnError>)
    requires
        reads_ids(s, r),
    ensures
        r is Ok <==> (series_u32(s) matches Some(cells) && forall|i: int|
            0 <= i < cells.len() ==> #[trigger] cells[i] is Some),
        series_u32(s) is None ==> (r matches Err(KnnError::Polars(e)) && e == u32_refusal(s)),
        forall|i: int|
            series_u32(s) is Some && 0 <= i < series_u32(s).unwrap().len()
                && #[trigger] series_u32(s).unwrap()[i] is None ==> (r matches Err(
                KnnError::NullId(message),
            ) && message@ == "chunked array is not contiguous"@),
{
}

/// A column can be read as identifiers exactly if it is of unsigned 32-bit
/// integers and none of its cells is null.
pub proof fn ids_can_be_read(s: Series)
    ensures
        has_ids(s) <==> (series_u32(s) matches Some(cells) && forall|i: int|
            0 <= i < cells.len() ==> #[trigger] cells[i] is Some),
{
}

/// Every row has the identifier in its own cell: there are as many identifiers
/// as cells.
pub proof fn ids_are_the_cells(s: Series, id: Seq<u32>)
    requires
        has_ids(s),
        id == values_of(series_u32(s).unwrap()),
    ensures
        id.len() == series_u32(s).unwrap().len(),
        forall|i: int|
            0 <= i < id.len() ==> series_u32(s).unwrap()[i] == Some(#[trigger] id[i]),
{
    let cells = series_u32(s).unwrap();
    assert forall|i: int| 0 <= i < id.len() implies cells[i] == Some(#[trigger] id[i]) by {
        assert(cells[i] is Some);
    }
}

/// The inputs of a query over every row: every row has the identifier in its
/// own cell of the first column; if the second column is Boolean, a row is
/// queried exactly if its own cell is not true, and the coordinates start at
/// the third column; otherwise there is no filter and they start at the second.
pub proof fn inputs_are_the_columns(inputs: Seq<Series>, p: PtwiseInputs)
    requires
        inputs.len() >= 2,
        has_ids(inputs[0]),
        are_inputs(inputs, p),
    ensures
        p.id.len() == series_u32(inputs[0]).unwrap().len(),
        forall|i: int|
            0 <= i < p.id.len() ==> series_u32(inputs[0]).unwrap()[i] == Some(#[trigger] p.id@[i]),
        p.filter is Some <==> series_bool(inputs[1]) is Some,
        p.filter matches Some(kept) ==> kept.len() == series_bool(inputs[1]).unwrap().len(),
        p.filter matches Some(kept) ==> forall|i: int|
            0 <= i < kept.len() ==> (#[trigger] kept@[i] <==> series_bool(inputs[1]).unwrap()[i]
                != Some(true)),
        p.filter is Some ==> p.first_column == 2 && p.dim == inputs.len() - 2,
        p.filter is None ==> p.first_column == 1 && p.dim == inputs.len() - 1,
{
    ids_are_the_cells(inputs[0], p.id@);
    if series_bool(inputs[1]) is Some {
        assert(kept_rows(series_bool(inputs[1]).unwrap()) == p.filter.unwrap()@);
    }
}

/// A search from a point that succeeds makes a column with a mark for each row
/// of the table: a row has it set exactly if the search found that row. One
/// that fails makes an error with the reason.
pub proof fn marks_are_of_the_rows_found<D>(
    nrows: usize,
    answer: Result<Vec<(D, usize)>, ErrorKind>,
    r: Result<Series, KnnError>,
)
    requires
        filters(nrows as int, answer, r),
    ensures
        r is Ok <==> answer is Ok,
        answer matches Ok(found) ==> {
            &&& series_name(r->Ok_0) == ""@
            &&& series_len(r->Ok_0) == nrows
            &&& series_bool(r->Ok_0) matches Some(marks)
            &&& marks.len() == nrows
            &&& forall|i: int| 0 <= i < nrows ==> #[trigger] marks[i] is Some
            &&& forall|i: int|
                0 <= i < nrows ==> (#[trigger] marks[i] == Some(true) <==> exists|j: int|
                    0 <= j < found.len() && (#[trigger] found[j]).1 == i)
        },
        answer matches Err(e) ==> {
            &&& r matches Err(KnnError::Compute(message))
            &&& e is WrongDimension ==> message@ == "KNN: "@ + "wrong dimension"@
            &&& e is NonFiniteCoordinate ==> message@ == "KNN: "@ + "non-finite coordinate"@
            &&& e is ZeroCapacity ==> message@ == "KNN: "@ + "zero capacity"@
        },
{
    if let Ok(found) = answer {
        let marks = series_bool(r->Ok_0).unwrap();
        assert forall|i: int| 0 <= i < nrows implies #[trigger] marks[i] == Some(
            is_found(found@, i),
        ) by {
            assert(marks[i] == Some(found_mask(nrows as int, found@)[i]));
        }
    }
}

/// A filter for `k` rows goes by one answer of the search for `k` rows, and
/// marks exactly the rows that this answer found.
pub proof fn filter_goes_by_one_answer<D, N: Fn(usize) -> Result<Vec<(D, usize)>, ErrorKind>>(
    nrows: usize,
    nearest: N,
    k: usize,
    r: Result<Series, KnnError>,
)
    requires
        filters_by(nrows as int, nearest, k, r),
    ensures
        exists|answer: Result<Vec<(D, usize)>, ErrorKind>| #[trigger]
            call_ensures(nearest, (k,), answer) && match answer {
                Ok(found) => {
                    &&& r is Ok
                    &&& series_bool(r->Ok_0) matches Some(marks)
                    &&& marks.len() == nrows
                    &&& forall|i: int|
                        0 <= i < nrows ==> (#[trigger] marks[i] == Some(true) <==> exists|j: int|
                            0 <= j < found.len() && (#[trigger] found[j]).1 == i)
                },
                Err(_) => r matches Err(KnnError::Compute(_)),
            },
{
    let answer = choose|answer: Result<Vec<(D, usize)>, ErrorKind>| #[trigger]
        call_ensures(nearest, (k,), answer) && filters(nrows as int, answer, r);
    marks_are_of_the_rows_found(nrows, answer, r);
    assert(call_ensures(nearest, (k,), answer));
}

/// The text for each reason why a search fails.
pub proof fn reasons_have_their_texts()
    ensures
        error_text(ErrorKind::WrongDimension) == "wrong dimension"@,
        error_text(ErrorKind::NonFiniteCoordinate) == "non-finite coordinate"@,
        error_text(ErrorKind::ZeroCapacity) == "zero capacity"@,
{
}

/// A tree is built by adding every row once and in order: whatever record is
/// kept of the additions made to a tree, in the tree that was built it reads
/// 0, 1, 2 and so on up to the last row, and nothing more.
pub proof fn every_row_is_added_once_and_in_order<
    T,
    C: Fn(usize, usize) -> T,
    A: Fn(T, usize) -> (T, Result<(), ErrorKind>),
>(
    dim: usize,
    leaf_size: usize,
    nrows: usize,
    with_capacity: C,
    add_row: A,
    states: Seq<T>,
    record: spec_fn(T) -> Seq<int>,
)
    requires
        fills(dim, leaf_size, nrows as int, with_capacity, add_row, states),
        forall|tree: T| #[trigger]
            call_ensures(with_capacity, (dim, leaf_size), tree) ==> record(tree).len() == 0,
        forall|before: T, row: usize, after: T, outcome: Result<(), ErrorKind>| #[trigger]
            call_ensures(add_row, (before, row), (after, outcome)) ==> record(after) == record(
                before,
            ).push(row as int),
    ensures
        record(states.last()).len() == nrows,
        forall|i: int| 0 <= i < nrows ==> #[trigger] record(states.last())[i] == i,
{
    lemma_record(dim, leaf_size, nrows, with_capacity, add_row, states, record, nrows as int);
}

/// The record once `k` rows have been added.
proof fn lemma_record<
    T,
    C: Fn(usize, usize) -> T,
    A: Fn(T, usize) -> (T, Result<(), ErrorKind>),
>(
    dim: usize,
    leaf_size: usize,
    nrows: usize,
    with_capacity: C,
    add_row: A,
    states: Seq<T>,
    record: spec_fn(T) -> Seq<int>,
    k: int,
)
    requires
        0 <= k <= nrows,
        fills(dim, leaf_size, nrows as int, with_capacity, add_row, states),
        forall|tree: T| #[trigger]
            call_ensures(with_capacity, (dim, leaf_size), tree) ==> record(tree).len() == 0,
        forall|before: T, row: usize, after: T, outcome: Result<(), ErrorKind>| #[trigger]
            call_ensures(add_row, (before, row), (after, outcome)) ==> record(after) == record(
                before,
            ).push(row as int),
    ensures
        record(states[k]).len() == k,
        forall|i: int| 0 <= i < k ==> #[trigger] record(states[k])[i] == i,
    decreases k,
{
    if k > 0 {
        lemma_record(dim, leaf_size, nrows, with_capacity, add_row, states, record, k - 1);
        assert(adds(add_row, k - 1, states));
        assert(record(states[k]) == record(states[k - 1]).push(k - 1));
    }
}

/// A tree that was built holds every row whose addition succeeded exactly once,
/// and no other row, if an empty tree holds nothing, an addition that succeeds
/// adds the row once and one that fails changes nothing.
pub proof fn tree_holds_a_row_once<
    T,
    C: Fn(usize, usize) -> T,
    A: Fn(T, usize) -> (T, Result<(), ErrorKind>),
>(
    dim: usize,
    leaf_size: usize,
    nrows: usize,
    with_capacity: C,
    add_row: A,
    states: Seq<T>,
    held: spec_fn(T) -> Multiset<int>,
)
    requires
        fills(dim, leaf_size, nrows as int, with_capacity, add_row, states),
        forall|tree: T| #[trigger]
            call_ensures(with_capacity, (dim, leaf_size), tree) ==> held(tree) == Multiset::<
                int,
            >::empty(),
        forall|before: T, row: usize, after: T, outcome: Result<(), ErrorKind>| #[trigger]
            call_ensures(add_row, (before, row), (after, outcome)) ==> held(after) == (
            if outcome is Ok {
                held(before).insert(row as int)
            } else {
                held(before)
            }),
    ensures
        forall|row: int| #[trigger] held(states.last()).count(row) <= 1,
        forall|row: int|
            #[trigger] held(states.last()).count(row) == 1 ==> 0 <= row < nrows && exists|
                outcome: Result<(), ErrorKind>,
            | #[trigger]
                call_ensures(add_row, (states[row], row as usize), (states[row + 1], outcome))
                    && outcome is Ok,
        forall|row: int, outcome: Result<(), ErrorKind>|
            0 <= row < nrows && outcome is Ok && #[trigger] call_ensures(
                add_row,
                (states[row], row as usize),
                (states[row + 1], outcome),
            ) ==> held(states.last()).count(row) == 1,
        held(states.last()).len() <= nrows,
{
    lemma_held_once(dim, leaf_size, nrows, with_capacity, add_row, states, held, nrows as int);
}

/// What the tree holds once `k` rows have been tried.
proof fn lemma_held_once<
    T,
    C: Fn(usize, usize) -> T,
    A: Fn(T, usize) -> (T, Result<(), ErrorKind>),
>(
    dim: usize,
    leaf_size: usize,
    nrows: usize,
    with_capacity: C,
    add_row: A,
    states: Seq<T>,
    held: spec_fn(T) -> Multiset<int>,
    k: int,
)
    requires
        0 <= k <= nrows,
        fills(dim, leaf_size, nrows as int, with_capacity, add_row, states),
        forall|tree: T| #[trigger]
            call_ensures(with_capacity, (dim, leaf_size), tree) ==> held(tree) == Multiset::<
                int,
            >::empty(),
        forall|before: T, row: usize, after: T, outcome: Result<(), ErrorKind>| #[trigger]
            call_ensures(add_row, (before, row), (after, outcome)) ==> held(after) == (
            if outcome is Ok {
                held(before).insert(row as int)
            } else {
                held(before)
            }),
    ensures
        forall|row: int| #[trigger] held(states[k]).count(row) <= 1,
        forall|row: int|
            #[trigger] held(states[k]).count(row) == 1 ==> 0 <= row < k && exists|
                outcome: Result<(), ErrorKind>,
            | #[trigger]
                call_ensures(add_row, (states[row], row as usize), (states[row + 1], outcome))
                    && outcome is Ok,
        forall|row: int, outcome: Result<(), ErrorKind>|
            0 <= row < k && outcome is Ok && #[trigger] call_ensures(
                add_row,
                (states[row], row as usize),
                (states[row + 1], outcome),
            ) ==> held(states[k]).count(row) == 1,
        held(states[k]).len() <= k,
    decreases k,
{
    broadcast use vstd::multiset::group_multiset_axioms;

    if k > 0 {
        lemma_held_once(dim, leaf_size, nrows, with_capacity, add_row, states, held, k - 1);
        assert(adds(add_row, k - 1, states));
        let o = choose|o: Result<(), ErrorKind>| #[trigger]
            call_ensures(add_row, (states[k - 1], (k - 1) as usize), (states[k - 1 + 1], o));
        let before = held(states[k - 1]);
        let after = held(states[k]);
        assert(after == (if o is Ok {
            before.insert(k - 1)
        } else {
            before
        }));
        assert(before.count(k - 1) == 0);
        assert forall|row: int| #[trigger] after.count(row) <= 1 by {
            assert(before.count(row) <= 1);
        }
        assert forall|row: int| #[trigger] after.count(row) == 1 implies 0 <= row < k && exists|
            outcome: Result<(), ErrorKind>,
        | #[trigger]
            call_ensures(add_row, (states[row], row as usize), (states[row + 1], outcome))
                && outcome is Ok by {
            if row != k - 1 || o is Err {
                assert(before.count(row) == 1);
            }
        }
        assert forall|row: int, outcome: Result<(), ErrorKind>|
            0 <= row < k && outcome is Ok && #[trigger] call_ensures(
                add_row,
                (states[row], row as usize),
                (states[row + 1], outcome),
            ) implies after.count(row) == 1 by {
            if row < k - 1 {
                assert(before.count(row) == 1);
            } else {
                assert(after == before.insert(k - 1));
            }
        }
    }
}

/// The rows are cut into pieces of `len / n` rows that start at the multiples
/// of it; the last piece takes what is left.
pub proof fn pieces_start_at_multiples(len: int, n: int, p: int)
    requires
        0 <= len,
        0 <= p < n,
    ensures
        piece_offset(len, n, p) == p * (len / n),
        p < n - 1 ==> piece_len(len, n, p) == len / n,
        p == n - 1 ==> piece_len(len, n, p) == len - p * (len / n),
{
}

/// Joining no columns gives no cells, and joining one column more adds its
/// cells at the end.
pub proof fn joining_adds_at_the_end(parts: Seq<Series>, next: Series)
    ensures
        joined_u32(Seq::empty()).len() == 0,
        joined_lists(Seq::empty()).len() == 0,
        joined_u32(parts.push(next)) == joined_u32(parts) + series_u32(next).unwrap(),
        joined_lists(parts.push(next)) == joined_lists(parts) + series_u32_lists(next).unwrap(),
{
    let cells = |s: Series| series_u32(s).unwrap();
    let lists = |s: Series| series_u32_lists(s).unwrap();
    assert(Seq::<Series>::empty().map_values(cells) =~= Seq::empty());
    assert(Seq::<Series>::empty().map_values(lists) =~= Seq::empty());
    assert(parts.push(next).map_values(cells) =~= parts.map_values(cells).push(cells(next)));
    assert(parts.push(next).map_values(lists) =~= parts.map_values(lists).push(lists(next)));
    parts.map_values(cells).lemma_flatten_push(cells(next));
    parts.map_values(lists).lemma_flatten_push(lists(next));
}

/// A filter covers a table exactly if it has no fewer flags than the table has
/// rows, and the pieces of a table exactly if it has no fewer flags than the
/// last piece has rows. Without a filter everything is covered.
pub proof fn flags_are_enough(filter: Option<Vec<bool>>, nrows: usize, n: int)
    requires
        n >= 1,
    ensures
        covers(flags(filter), nrows as int) <==> (filter matches Some(kept) ==> nrows
            <= kept.len()),
        covers(flags(filter), piece_len(nrows as int, n, n - 1)) <==> (filter matches Some(kept)
            ==> nrows - (n - 1) * (nrows as int / n) <= kept.len()),
{
}

/// A table can be searched if the search can be called from each of its rows
/// and finds rows of the table only.
pub proof fn table_can_be_searched<P, D, S: Fn(usize, P) -> Result<Vec<(D, usize)>, ErrorKind>>(
    search: S,
    param: P,
    nrows: usize,
    ids: usize,
)
    ensures
        (forall|row: usize| row < nrows ==> #[trigger] call_requires(search, (row, param)))
            ==> can_search(search, param, 0, nrows as int),
        (forall|row: usize, found: Vec<(D, usize)>, j: int|
            row < nrows && #[trigger] call_ensures(search, (row, param), Ok(found)) && 0 <= j
                < found.len() ==> (#[trigger] found[j]).1 < ids) ==> finds_below(
            search,
            param,
            nrows as int,
            ids as int,
        ),
{
    if forall|row: usize, found: Vec<(D, usize)>, j: int|
        row < nrows && #[trigger] call_ensures(search, (row, param), Ok(found)) && 0 <= j
            < found.len() ==> (#[trigger] found[j]).1 < ids {
        assert forall|row: usize, answer: Result<Vec<(D, usize)>, ErrorKind>|
            row < nrows && #[trigger] call_ensures(search, (row, param), answer) implies rows_below(
            answer,
            ids as int,
        ) by {
            if let Ok(found) = answer {
                assert(call_ensures(search, (row, param), Ok(found)));
            }
        }
    }
}

/// The rows of an answer are below a bound if each of them is.
pub proof fn answer_is_below<D>(answer: Result<Vec<(D, usize)>, ErrorKind>, nrows: usize)
    ensures
        rows_below(answer, nrows as int) <==> (answer matches Ok(found) ==> forall|j: int|
            0 <= j < found.len() ==> (#[trigger] found[j]).1 < nrows),
{
}

/// The neighbors in a table can be counted if the count can be called from each
/// row with the single radius, or with its own where it has one.
pub proof fn table_can_be_counted<R, W: Fn(usize, R) -> Result<usize, ErrorKind>>(
    within_count: W,
    radius: Seq<Option<R>>,
    nrows: usize,
)
    ensures
        radius.len() == 1 && (forall|row: usize, r: R|
            row < nrows && radius[0] == Some(r) ==> #[trigger] call_requires(
                within_count,
                (row, r),
            )) ==> can_count(within_count, radii_by_row(radius, nrows as int)),
        radius.len() == nrows && (forall|row: usize, r: R|
            row < nrows && radius[row as int] == Some(r) ==> #[trigger] call_requires(
                within_count,
                (row, r),
            )) ==> can_count(within_count, radii_by_row(radius, nrows as int)),
{
}

/// A column has room for any number of rows below `u32::MAX` whose offsets fit
/// in memory, and for any number of entries that fit in memory.
pub proof fn rows_and_entries_fit(n: int)
    ensures
        n < u32::MAX && (n + 1) * 8 <= isize::MAX ==> fits_column(n),
        n * 4 <= isize::MAX ==> fits_entries(n),
{
}

} // verus!
