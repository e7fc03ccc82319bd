//! Marking the rows nearest to a point.
use kdtree::distance::squared_euclidean;
use kdtree::{ErrorKind, KdTree};
use knn::{check_point, filter_column, pl_knn_filter, KdtreeKwargs, KnnError};
use polars::prelude::Series;

fn kwargs(k: usize) -> KdtreeKwargs {
    KdtreeKwargs { k, leaf_size: 2, metric: "l2".to_string(), parallel: false }
}

fn mask(column: &Series) -> Vec<Option<bool>> {
    column.bool().unwrap().into_iter().collect()
}

fn message(r: Result<Series, KnnError>) -> String {
    match r {
        Err(KnnError::Compute(message)) => message,
        other => panic!("{other:?}"),
    }
}

fn tree() -> KdTree<f64, usize, [f64; 1]> {
    let mut tree = KdTree::with_capacity(1, 2);
    for (row, x) in [0.0, 1.0, 3.0, 7.0].iter().enumerate() {
        tree.add([*x], row).unwrap();
    }
    tree
}

#[test]
fn the_nearest_rows_are_marked() {
    let tree = tree();
    let nearest = |num: usize| {
        tree.nearest(&[2.9], num, &squared_euclidean)
            .map(|found| found.into_iter().map(|(d, row)| (d, *row)).collect::<Vec<_>>())
    };
    let column = pl_knn_filter(4, &kwargs(2), nearest).unwrap();
    assert_eq!(column.name(), "");
    assert_eq!(mask(&column), vec![Some(false), Some(true), Some(true), Some(false)]);
    let column = pl_knn_filter(4, &kwargs(0), nearest).unwrap();
    assert_eq!(mask(&column), vec![Some(false); 4]);
    let column = pl_knn_filter(4, &kwargs(9), nearest).unwrap();
    assert_eq!(mask(&column), vec![Some(true); 4]);
}

#[test]
fn a_row_found_twice_is_marked_once() {
    let column = filter_column(3, Ok(vec![((), 2), ((), 2)])).unwrap();
    assert_eq!(mask(&column), vec![Some(false), Some(false), Some(true)]);
}

#[test]
fn a_failed_search_says_why() {
    let tree = tree();
    let search = |point: &[f64]| {
        tree.nearest(point, 1, &squared_euclidean)
            .map(|found| found.into_iter().map(|(d, row)| (d, *row)).collect::<Vec<_>>())
    };
    assert_eq!(
        message(filter_column(4, search(&[f64::NAN]))),
        "KNN: non-finite coordinate"
    );
    assert_eq!(message(filter_column(4, search(&[0.0, 0.0]))), "KNN: wrong dimension");
    assert_eq!(
        message(filter_column::<f64>(4, Err(ErrorKind::ZeroCapacity))),
        "KNN: zero capacity"
    );
}

#[test]
fn a_point_needs_a_coordinate_for_each_column() {
    assert!(check_point(2, 2).is_ok());
    match check_point(3, 2) {
        Err(KnnError::Compute(message)) => assert_eq!(
            message,
            "KNN: input point must be the same dimension as the number of columns in `others`."
        ),
        other => panic!("{other:?}"),
    }
}
