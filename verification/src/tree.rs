//! Filling a search tree with the rows of a table.
use kdtree::ErrorKind;
use vstd::prelude::*;

verus! {

/// The addition of a row can take the tree from its state before that row to
/// the state after it. Whether the addition succeeds makes no difference to
/// what follows.
pub open spec fn adds<T, A: Fn(T, usize) -> (T, Result<(), ErrorKind>)>(
    add_row: A,
    row: int,
    states: Seq<T>,
) -> bool {
    exists|outcome: Result<(), ErrorKind>| #[trigger]
        call_ensures(add_row, (states[row], row as usize), (states[row + 1], outcome))
}

/// The states that a tree passes through while it is filled: it starts empty,
/// and from each state to the next one row is added, under its own number.
pub open spec fn fills<T, C: Fn(usize, usize) -> T, A: Fn(T, usize) -> (T, Result<(), ErrorKind>)>(
    dim: usize,
    leaf_size: usize,
    nrows: int,
    with_capacity: C,
    add_row: A,
    states: Seq<T>,
) -> bool {
    &&& states.len() == nrows + 1
    &&& call_ensures(with_capacity, (dim, leaf_size), states[0])
    &&& forall|row: int| 0 <= row < nrows ==> #[trigger] adds(add_row, row, states)
}

/// Builds a tree over the rows `0 .. nrows` of a table with `dim` columns.
///
/// `with_capacity` makes an empty tree for points of the given dimension and
/// leaves of the given size; `add_row` adds the point in a row under the
/// number of the row. A row that cannot be added is left out.
pub fn build_standard_kdtree<
    T,
    C: Fn(usize, usize) -> T,
    A: Fn(T, usize) -> (T, Result<(), ErrorKind>),
>(dim: usize, leaf_size: usize, nrows: usize, with_capacity: C, add_row: A) -> (tree: T)
    requires
        call_requires(with_capacity, (dim, leaf_size)),
        forall|tree: T, row: usize| row < nrows ==> #[trigger] call_requires(add_row, (tree, row)),
    ensures
        exists|states: Seq<T>| #[trigger]
            fills(dim, leaf_size, nrows as int, with_capacity, add_row, states) && tree
                == states.last(),
{
    let mut tree = with_capacity(dim, leaf_size);
    let ghost mut states: Seq<T> = seq![tree];
    let mut row: usize = 0;
    while row < nrows
        invariant
            row <= nrows,
            forall|tree: T, row: usize|
                row < nrows ==> #[trigger] call_requires(add_row, (tree, row)),
            fills(dim, leaf_size, row as int, with_capacity, add_row, states),
            tree == states.last(),
        decreases nrows - row,
    {
        let ghost before = states;
        let (next, outcome) = add_row(tree, row);
        proof {
            states = before.push(next);
            assert(call_ensures(add_row, (states[row as int], row), (states[row + 1], outcome)));
            assert forall|i: int| 0 <= i < row + 1 implies #[trigger] adds(add_row, i, states) by {
                if i < row {
                    assert(adds(add_row, i, before));
                    let o = choose|o: Result<(), ErrorKind>| #[trigger]
                        call_ensures(add_row, (before[i], i as usize), (before[i + 1], o));
                    assert(call_ensures(add_row, (states[i], i as usize), (states[i + 1], o)));
                }
            }
        }
        tree = next;
        row = row + 1;
    }
    tree
}

} // verus!
