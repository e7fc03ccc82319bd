//! Filling a tree.
use kdtree::{ErrorKind, KdTree};
use knn::build_standard_kdtree;

#[test]
fn rows_are_added_in_order_under_their_numbers() {
    let log = build_standard_kdtree(
        3,
        16,
        4,
        |dim: usize, leaf_size: usize| vec![(dim, leaf_size)],
        |mut log: Vec<(usize, usize)>, row: usize| {
            log.push((row, row));
            (log, Ok(()))
        },
    );
    assert_eq!(log, vec![(3, 16), (0, 0), (1, 1), (2, 2), (3, 3)]);
}

#[test]
fn a_row_that_cannot_be_added_is_left_out() {
    let log = build_standard_kdtree(
        1,
        1,
        4,
        |_: usize, _: usize| Vec::new(),
        |mut log: Vec<usize>, row: usize| {
            if row == 1 {
                return (log, Err(ErrorKind::NonFiniteCoordinate));
            }
            log.push(row);
            (log, Ok(()))
        },
    );
    assert_eq!(log, vec![0, 2, 3]);
}

fn tree_of(leaf_size: usize, points: &[f64]) -> KdTree<f64, usize, [f64; 1]> {
    build_standard_kdtree(
        1,
        leaf_size,
        points.len(),
        |dim: usize, leaf_size: usize| KdTree::with_capacity(dim, leaf_size),
        |mut tree: KdTree<f64, usize, [f64; 1]>, row: usize| {
            let outcome = tree.add([points[row]], row);
            (tree, outcome)
        },
    )
}

#[test]
fn points_that_are_not_finite_are_not_in_the_tree() {
    assert_eq!(tree_of(2, &[0.0, f64::NAN, 3.0, f64::INFINITY]).size(), 2);
}

#[test]
fn a_tree_without_room_in_its_leaves_stays_empty() {
    assert_eq!(tree_of(0, &[0.0, 3.0]).size(), 0);
}
