//! How the columns of two queries compare.
use kdtree::distance::squared_euclidean;
use kdtree::{ErrorKind, KdTree};
use knn::{
    build_standard_kdtree, knn_ptwise_on_pool, pl_knn_filter, pl_knn_ptwise, pl_knn_ptwise_w_dist,
    pl_nb_cnt, pl_query_radius_ptwise, KdtreeKwargs, KdtreeRadiusKwargs, PtwiseInputs,
};
use polars::prelude::{
    DataType, Float64Type, IntoSeries, ListBuilderTrait, ListPrimitiveChunkedBuilder, Series,
};

type Tree = KdTree<f64, usize, [f64; 1]>;

const POINTS: [f64; 6] = [0.0, 1.0, 3.0, 7.0, f64::NAN, 15.0];

fn tree_of(leaf_size: usize, points: &[f64]) -> Tree {
    build_standard_kdtree(
        1,
        leaf_size,
        points.len(),
        |dim: usize, leaf_size: usize| KdTree::with_capacity(dim, leaf_size),
        |mut tree: Tree, row: usize| {
            let outcome = tree.add([points[row]], row);
            (tree, outcome)
        },
    )
}

fn owned(found: Vec<(f64, &usize)>) -> Vec<(f64, usize)> {
    found.into_iter().map(|(d, row)| (d, *row)).collect()
}

fn nearest_in(tree: &Tree, point: f64, num: usize) -> Result<Vec<(f64, usize)>, ErrorKind> {
    tree.nearest(&[point], num, &squared_euclidean).map(owned)
}

fn kwargs(k: usize, leaf_size: usize) -> KdtreeKwargs {
    KdtreeKwargs { k, leaf_size, metric: "l2".to_string(), parallel: false }
}

fn inputs(filter: Option<Vec<bool>>) -> PtwiseInputs {
    let first_column = if filter.is_some() { 2 } else { 1 };
    PtwiseInputs { id: vec![10, 11, 12, 13, 14, 15], filter, first_column, dim: 1 }
}

fn lists(column: &Series) -> Vec<Option<Vec<u32>>> {
    let column = column.list().unwrap();
    (0..column.len())
        .map(|row| {
            column
                .get_as_series(row)
                .map(|list| list.u32().unwrap().into_no_null_iter().collect())
        })
        .collect()
}

fn distances(column: &Series) -> Vec<Option<Vec<f64>>> {
    let dist = column.struct_().unwrap().field_by_name("dist").unwrap();
    let dist = dist.list().unwrap();
    (0..dist.len())
        .map(|row| {
            dist.get_as_series(row)
                .map(|list| list.f64().unwrap().into_no_null_iter().collect())
        })
        .collect()
}

fn dist_lists(rows: Vec<Option<Vec<f64>>>) -> Series {
    let mut builder =
        ListPrimitiveChunkedBuilder::<Float64Type>::new("", rows.len(), 0, DataType::Float64);
    for row in &rows {
        match row {
            Some(list) => builder.append_slice(list),
            None => builder.append_null(),
        }
    }
    builder.finish().into_series()
}

fn cells(column: &Series) -> Vec<Option<u32>> {
    column.u32().unwrap().into_iter().collect()
}

fn mask(k: usize, leaf_size: usize, point: f64) -> Vec<bool> {
    let tree = tree_of(leaf_size, &POINTS);
    let nearest = |num: usize| nearest_in(&tree, point, num);
    let column = pl_knn_filter(6, &kwargs(k, leaf_size), nearest).unwrap();
    let mask = column.bool().unwrap().into_no_null_iter().collect();
    mask
}

#[test]
fn fewer_neighbors_have_the_first_distances() {
    let tree = tree_of(2, &POINTS);
    let nearest = |row: usize, num: usize| nearest_in(&tree, POINTS[row], num);
    let filter = Some(vec![true, false, true, true, true, true]);
    let table = inputs(filter);
    let few = pl_knn_ptwise_w_dist(&table, 6, &kwargs(1, 2), false, &nearest, dist_lists).unwrap();
    let many = pl_knn_ptwise_w_dist(&table, 6, &kwargs(3, 2), false, &nearest, dist_lists).unwrap();
    assert_eq!(distances(&few)[3], Some(vec![0.0, 16.0]));
    assert_eq!(distances(&many)[3], Some(vec![0.0, 16.0, 36.0, 49.0]));
    for (few, many) in distances(&few).iter().zip(&distances(&many)) {
        match (few, many) {
            (Some(few), Some(many)) => assert!(many.starts_with(few)),
            (None, None) => {}
            other => panic!("{other:?}"),
        }
    }
}

#[test]
fn the_size_of_the_leaves_changes_no_list() {
    let one = tree_of(1, &POINTS);
    let other = tree_of(16, &POINTS);
    assert_eq!(one.size(), 5);
    assert_eq!(other.size(), 5);
    let in_one = |row: usize, num: usize| nearest_in(&one, POINTS[row], num);
    let in_other = |row: usize, num: usize| nearest_in(&other, POINTS[row], num);
    let a = pl_knn_ptwise(&inputs(None), 6, &kwargs(2, 1), false, &in_one);
    let b = pl_knn_ptwise(&inputs(None), 6, &kwargs(2, 16), false, &in_other);
    assert_eq!(lists(&a)[2], Some(vec![12, 11, 10]));
    assert_eq!(lists(&a)[4], None);
    assert_eq!(lists(&a), lists(&b));
}

#[test]
fn a_larger_radius_loses_no_neighbor() {
    let tree = tree_of(2, &POINTS);
    let within = |row: usize, r: f64| {
        tree.within(&[POINTS[row]], r, &squared_euclidean).map(owned)
    };
    let query = |r: f64| {
        let kwargs =
            KdtreeRadiusKwargs { r, leaf_size: 2, metric: "l2".to_string(), parallel: false };
        lists(&pl_query_radius_ptwise(&inputs(None).id, 6, &kwargs, false, &within))
    };
    let small = query(4.5);
    let large = query(20.0);
    assert_eq!(small[3], Some(vec![13]));
    assert_eq!(large[3].as_ref().unwrap().len(), 2);
    for (small, large) in small.iter().zip(&large) {
        match (small, large) {
            (Some(small), Some(large)) => assert!(small.iter().all(|id| large.contains(id))),
            (None, None) => {}
            other => panic!("{other:?}"),
        }
    }
}

#[test]
fn larger_radii_count_no_fewer_neighbors() {
    let tree = tree_of(2, &POINTS);
    let within_count =
        |row: usize, r: f64| tree.within_count(&[POINTS[row]], r, &squared_euclidean);
    let smaller: Vec<Option<f64>> =
        vec![Some(0.5), Some(1.0), Some(4.0), Some(1.0), Some(1.0), Some(1.0)];
    let larger: Vec<Option<f64>> =
        vec![Some(1.0), Some(4.0), Some(4.0), Some(20.0), Some(9.0), Some(2.0)];
    let a = pl_nb_cnt(&smaller, 6, &kwargs(0, 2), false, &within_count).unwrap();
    let b = pl_nb_cnt(&larger, 6, &kwargs(0, 2), false, &within_count).unwrap();
    assert_eq!(cells(&a), vec![Some(1), Some(2), Some(2), Some(1), None, Some(1)]);
    assert_eq!(cells(&b), vec![Some(2), Some(3), Some(2), Some(2), None, Some(1)]);
}

#[test]
fn counts_move_with_their_rows() {
    let p = [3usize, 0, 5, 1, 4, 2];
    let moved: Vec<f64> = p.iter().map(|row| POINTS[*row]).collect();
    let radius = vec![Some(1.0), None, Some(100.0), Some(20.0), Some(1.0), Some(64.0)];
    let moved_radius: Vec<Option<f64>> = p.iter().map(|row| radius[*row]).collect();
    let tree = tree_of(2, &POINTS);
    let other = tree_of(2, &moved);
    let before = |row: usize, r: f64| tree.within_count(&[POINTS[row]], r, &squared_euclidean);
    let after = |row: usize, r: f64| other.within_count(&[moved[row]], r, &squared_euclidean);
    for (one, two) in [(radius, moved_radius), (vec![Some(9.0)], vec![Some(9.0)])] {
        let a = cells(&pl_nb_cnt(&one, 6, &kwargs(0, 2), false, &before).unwrap());
        let b = cells(&pl_nb_cnt(&two, 6, &kwargs(0, 2), false, &after).unwrap());
        for (j, row) in p.iter().enumerate() {
            assert_eq!(b[j], a[*row]);
        }
    }
}

#[test]
fn the_other_parameters_change_no_count() {
    let one = tree_of(1, &POINTS);
    let other = tree_of(8, &POINTS);
    let in_one = |row: usize, r: f64| one.within_count(&[POINTS[row]], r, &squared_euclidean);
    let in_other = |row: usize, r: f64| other.within_count(&[POINTS[row]], r, &squared_euclidean);
    let radius = vec![Some(9.0)];
    let a = pl_nb_cnt(&radius, 6, &kwargs(0, 1), false, &in_one).unwrap();
    let b = pl_nb_cnt(&radius, 6, &kwargs(7, 8), false, &in_other).unwrap();
    assert_eq!(cells(&a), vec![Some(3), Some(3), Some(3), Some(1), None, Some(1)]);
    assert_eq!(cells(&a), cells(&b));
}

#[test]
fn a_filter_from_a_row_marks_the_list_of_the_row() {
    let tree = tree_of(2, &POINTS);
    let nearest = |row: usize, num: usize| nearest_in(&tree, POINTS[row], num);
    let column = pl_knn_ptwise(&inputs(None), 6, &kwargs(1, 2), false, &nearest);
    let list = lists(&column)[3].clone().unwrap();
    let marks = mask(2, 2, POINTS[3]);
    assert_eq!(marks, vec![false, false, true, true, false, false]);
    for (id, marked) in inputs(None).id.iter().zip(marks) {
        assert_eq!(list.contains(id), marked);
    }
}

#[test]
fn a_filter_for_more_rows_keeps_its_marks() {
    let few = mask(1, 2, 2.8);
    let many = mask(3, 5, 2.8);
    assert_eq!(few, vec![false, false, true, false, false, false]);
    assert_eq!(many, vec![true, true, true, false, false, false]);
    assert_eq!(mask(3, 1, 2.8), many);
}

#[test]
fn on_the_pool_the_longest_piece_needs_its_flags() {
    let tree = tree_of(2, &POINTS);
    let nearest = |row: usize, num: usize| nearest_in(&tree, POINTS[row], num);
    assert!(knn_ptwise_on_pool(&inputs(Some(vec![])), 6, 0, &nearest).is_none());
    let column = knn_ptwise_on_pool(&inputs(Some(vec![true; 6])), 6, 0, &nearest).unwrap();
    assert_eq!(column.name(), "knn");
    assert_eq!(
        lists(&column),
        vec![Some(vec![10]), Some(vec![11]), Some(vec![12]), Some(vec![13]), None, Some(vec![15])]
    );
    assert_eq!(knn_ptwise_on_pool(&inputs(None), 6, 1, &nearest).unwrap().len(), 6);
}
