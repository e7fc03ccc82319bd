//! Counting neighbors.
use kdtree::distance::squared_euclidean;
use kdtree::{ErrorKind, KdTree};
use knn::{pl_nb_cnt, query_nb_cnt, KdtreeKwargs, KnnError};
use polars::prelude::Series;

const POINTS: [f64; 5] = [0.0, 1.0, 3.0, 7.0, f64::NAN];

fn tree() -> KdTree<f64, usize, [f64; 1]> {
    let mut tree = KdTree::with_capacity(1, 2);
    for (row, x) in POINTS.iter().enumerate() {
        let _ = tree.add([*x], row);
    }
    tree
}

fn kwargs(parallel: bool) -> KdtreeKwargs {
    KdtreeKwargs { k: 0, leaf_size: 2, metric: "l2".to_string(), parallel }
}

fn cells(column: &Series) -> Vec<Option<u32>> {
    column.u32().unwrap().into_iter().collect()
}

#[test]
fn each_row_counts_itself_and_its_neighbors() {
    let tree = tree();
    let within_count =
        |row: usize, r: f64| tree.within_count(&[POINTS[row]], r, &squared_euclidean);
    let expected = vec![Some(2), Some(3), Some(2), Some(1), None];
    let in_order = query_nb_cnt(5, &within_count, 4.5, false);
    assert_eq!(in_order.name(), "");
    assert_eq!(cells(&in_order), expected);
    let on_the_pool = query_nb_cnt(5, &within_count, 4.5, true);
    assert_eq!(on_the_pool.name(), "cnt");
    assert_eq!(cells(&on_the_pool), expected);
    for parallel in [false, true] {
        let column =
            pl_nb_cnt(&vec![Some(4.5)], 5, &kwargs(parallel), false, &within_count).unwrap();
        assert_eq!(column.name(), "cnt");
        assert_eq!(cells(&column), expected);
    }
}

#[test]
fn every_row_may_have_its_own_radius() {
    let tree = tree();
    let within_count =
        |row: usize, r: f64| tree.within_count(&[POINTS[row]], r, &squared_euclidean);
    let radius = vec![Some(0.5), None, Some(100.0), Some(16.0), Some(1.0)];
    for parallel in [false, true] {
        let column = pl_nb_cnt(&radius, 5, &kwargs(parallel), false, &within_count).unwrap();
        assert_eq!(column.name(), "cnt");
        assert_eq!(cells(&column), vec![Some(1), None, Some(4), Some(2), None]);
    }
}

#[test]
fn a_single_radius_is_that_radius_for_every_row() {
    let tree = tree();
    let within_count =
        |row: usize, r: f64| tree.within_count(&[POINTS[row]], r, &squared_euclidean);
    let single = pl_nb_cnt(&vec![Some(9.0)], 5, &kwargs(true), true, &within_count).unwrap();
    let by_row = pl_nb_cnt(&vec![Some(9.0); 5], 5, &kwargs(true), true, &within_count).unwrap();
    assert_eq!(cells(&single), cells(&by_row));
}

#[test]
fn any_other_number_of_radii_is_refused() {
    let within_count = |_: usize, _: u8| -> Result<usize, ErrorKind> { Ok(0) };
    for radius in [vec![], vec![Some(1u8); 2], vec![None; 4]] {
        match pl_nb_cnt(&radius, 3, &kwargs(false), false, &within_count) {
            Err(KnnError::ShapeMismatch(message)) => assert_eq!(
                message,
                "Inputs must have the same length or one of them must be a scalar."
            ),
            other => panic!("{other:?}"),
        }
    }
}

#[test]
fn no_radii_for_no_rows_count_nothing() {
    let within_count = |_: usize, _: u8| -> Result<usize, ErrorKind> { Ok(0) };
    let column = pl_nb_cnt(&vec![], 0, &kwargs(true), false, &within_count).unwrap();
    assert_eq!(column.len(), 0);
}

#[test]
fn counts_are_cut_to_their_low_bits() {
    let within_count =
        |row: usize, _: u8| -> Result<usize, ErrorKind> { Ok((u32::MAX as usize) + row) };
    let column = query_nb_cnt(3, &within_count, 0u8, false);
    assert_eq!(cells(&column), vec![Some(u32::MAX), Some(0), Some(1)]);
}
