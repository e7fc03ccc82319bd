//! Neighbors of every row, searched with a k-d tree.
use kdtree::distance::squared_euclidean;
use kdtree::{ErrorKind, KdTree};
use knn::search::{row_ids, row_neighbors};
use knn::{
    build_standard_kdtree, knn_dist_column, knn_full_output, knn_ptwise_in_pieces, pl_knn_ptwise,
    pl_knn_ptwise_w_dist, pl_query_radius_ptwise, query_nb_cnt, ColumnType, KdtreeKwargs,
    KdtreeRadiusKwargs, PtwiseInputs,
};
use polars::prelude::{
    DataType, Float64Type, IntoSeries, ListBuilderTrait, ListPrimitiveChunkedBuilder, NamedFrom,
    Series,
};

type Tree = KdTree<f64, usize, [f64; 1]>;

fn tree_of(points: &[f64]) -> Tree {
    build_standard_kdtree(
        1,
        2,
        points.len(),
        |dim: usize, leaf_size: usize| KdTree::with_capacity(dim, leaf_size),
        |mut tree: Tree, row: usize| {
            let outcome = tree.add([points[row]], row);
            (tree, outcome)
        },
    )
}

fn owned(found: Vec<(f64, &usize)>) -> Vec<(f64, usize)> {
    found.into_iter().map(|(d, row)| (d, *row)).collect()
}

fn kwargs(k: usize, parallel: bool) -> KdtreeKwargs {
    KdtreeKwargs { k, leaf_size: 2, metric: "l2".to_string(), parallel }
}

fn inputs(id: Vec<u32>, filter: Option<Vec<bool>>) -> PtwiseInputs {
    let first_column = if filter.is_some() { 2 } else { 1 };
    PtwiseInputs { id, filter, first_column, dim: 1 }
}

fn lists(column: &Series) -> Vec<Option<Vec<u32>>> {
    let column = column.list().unwrap();
    (0..column.len())
        .map(|row| {
            column
                .get_as_series(row)
                .map(|list| list.u32().unwrap().into_no_null_iter().collect())
        })
        .collect()
}

fn distances(column: &Series) -> Vec<Option<Vec<f64>>> {
    let column = column.list().unwrap();
    (0..column.len())
        .map(|row| {
            column
                .get_as_series(row)
                .map(|list| list.f64().unwrap().into_no_null_iter().collect())
        })
        .collect()
}

fn dist_lists(rows: Vec<Option<Vec<f64>>>) -> Series {
    let mut builder =
        ListPrimitiveChunkedBuilder::<Float64Type>::new("", rows.len(), 0, DataType::Float64);
    for row in &rows {
        match row {
            Some(list) => builder.append_slice(list),
            None => builder.append_null(),
        }
    }
    builder.finish().into_series()
}

const POINTS: [f64; 5] = [0.0, 1.0, 3.0, 7.0, 15.0];

fn ids() -> Vec<u32> {
    vec![10, 11, 12, 13, 14]
}

#[test]
fn each_row_gets_itself_and_its_nearest_neighbors() {
    let tree = tree_of(&POINTS);
    let nearest = |row: usize, num: usize| {
        tree.nearest(&[POINTS[row]], num, &squared_euclidean).map(owned)
    };
    let column = pl_knn_ptwise(&inputs(ids(), None), 5, &kwargs(1, false), false, &nearest);
    assert_eq!(column.name(), "");
    assert_eq!(column.dtype(), &DataType::List(Box::new(DataType::UInt32)));
    assert_eq!(
        lists(&column),
        vec![
            Some(vec![10, 11]),
            Some(vec![11, 10]),
            Some(vec![12, 11]),
            Some(vec![13, 12]),
            Some(vec![14, 13]),
        ]
    );
}

#[test]
fn rows_left_out_by_the_filter_get_nulls() {
    let tree = tree_of(&POINTS);
    let nearest = |row: usize, num: usize| {
        assert!(row != 1 && row != 3);
        tree.nearest(&[POINTS[row]], num, &squared_euclidean).map(owned)
    };
    let filter = Some(vec![true, false, true, false, true]);
    let column = pl_knn_ptwise(&inputs(ids(), filter), 5, &kwargs(0, true), true, &nearest);
    assert_eq!(
        lists(&column),
        vec![Some(vec![10]), None, Some(vec![12]), None, Some(vec![14])]
    );
}

#[test]
fn a_row_that_is_not_finite_is_no_neighbor_and_gets_a_null() {
    let points = [0.0, f64::NAN, 3.0];
    let tree = tree_of(&points);
    let nearest = |row: usize, num: usize| {
        tree.nearest(&[points[row]], num, &squared_euclidean).map(owned)
    };
    let column =
        pl_knn_ptwise(&inputs(vec![5, 6, 7], None), 3, &kwargs(2, false), false, &nearest);
    assert_eq!(lists(&column), vec![Some(vec![5, 7]), None, Some(vec![7, 5])]);
}

#[test]
fn a_table_without_rows_gives_an_empty_column() {
    let nearest = |_: usize, _: usize| -> Result<Vec<(f64, usize)>, ErrorKind> { Ok(vec![]) };
    let in_order = pl_knn_ptwise(&inputs(vec![], None), 0, &kwargs(1, false), false, &nearest);
    let in_pieces = pl_knn_ptwise(&inputs(vec![], None), 0, &kwargs(1, true), false, &nearest);
    assert_eq!(in_order.len(), 0);
    assert_eq!(in_pieces.len(), 0);
    assert_eq!(in_pieces.dtype(), in_order.dtype());
}

#[test]
fn without_a_filter_pieces_agree_with_the_rows_in_order() {
    let tree = tree_of(&POINTS);
    let nearest = |row: usize, num: usize| {
        tree.nearest(&[POINTS[row]], num, &squared_euclidean).map(owned)
    };
    let table = inputs(ids(), None);
    let in_order = pl_knn_ptwise(&table, 5, &kwargs(2, false), false, &nearest);
    for n in 1..8 {
        let in_pieces = knn_ptwise_in_pieces(&table, 5, 2, n, &nearest);
        assert_eq!(in_pieces.name(), "knn");
        assert_eq!(lists(&in_pieces), lists(&in_order));
    }
    let on_the_pool = pl_knn_ptwise(&table, 5, &kwargs(2, true), false, &nearest);
    assert_eq!(on_the_pool.name(), "knn");
    assert_eq!(lists(&on_the_pool), lists(&in_order));
}

#[test]
fn every_piece_counts_its_flags_from_the_start_of_the_filter() {
    let nearest = |row: usize, _: usize| -> Result<Vec<(f64, usize)>, ErrorKind> {
        Ok(vec![(0.0, row)])
    };
    let table = inputs(ids(), Some(vec![true, false, false, true, true]));
    let in_order = pl_knn_ptwise(&table, 5, &kwargs(0, false), false, &nearest);
    assert_eq!(
        lists(&in_order),
        vec![Some(vec![10]), None, None, Some(vec![13]), Some(vec![14])]
    );
    // two pieces: rows 0 and 1, then rows 2, 3 and 4
    let in_pieces = knn_ptwise_in_pieces(&table, 5, 0, 2, &nearest);
    assert_eq!(
        lists(&in_pieces),
        vec![Some(vec![10]), None, Some(vec![12]), None, None]
    );
    let in_one_piece = knn_ptwise_in_pieces(&table, 5, 0, 1, &nearest);
    assert_eq!(lists(&in_one_piece), lists(&in_order));
}

#[test]
fn pieces_agree_where_rows_with_another_flag_fail() {
    let nearest = |row: usize, _: usize| -> Result<Vec<(f64, usize)>, ErrorKind> {
        if row == 0 {
            Ok(vec![(0.0, row)])
        } else {
            Err(ErrorKind::NonFiniteCoordinate)
        }
    };
    let table = inputs(ids(), Some(vec![true, false, false, true, true]));
    let in_order = pl_knn_ptwise(&table, 5, &kwargs(0, false), false, &nearest);
    let in_pieces = knn_ptwise_in_pieces(&table, 5, 0, 2, &nearest);
    assert_eq!(lists(&in_pieces), lists(&in_order));
}

#[test]
fn the_search_is_told_to_find_one_more_than_asked_for() {
    let nearest = |row: usize, num: usize| -> Result<Vec<(f64, usize)>, ErrorKind> {
        assert_eq!(num, 4);
        Ok(vec![(0.0, row)])
    };
    let column = pl_knn_ptwise(&inputs(ids(), None), 5, &kwargs(3, false), false, &nearest);
    assert_eq!(column.len(), 5);
}

#[test]
fn a_radius_finds_the_rows_within_it() {
    let tree = tree_of(&POINTS);
    let within = |row: usize, radius: f64| {
        tree.within(&[POINTS[row]], radius, &squared_euclidean).map(owned)
    };
    let sorted = |column: &Series| -> Vec<Option<Vec<u32>>> {
        lists(column)
            .into_iter()
            .map(|list| {
                list.map(|mut list| {
                    list.sort();
                    list
                })
            })
            .collect()
    };
    let expected = vec![
        Some(vec![10, 11]),
        Some(vec![10, 11, 12]),
        Some(vec![11, 12]),
        Some(vec![13]),
        Some(vec![14]),
    ];
    for parallel in [false, true] {
        let kwargs =
            KdtreeRadiusKwargs { r: 4.5, leaf_size: 2, metric: "l2".to_string(), parallel };
        let column = pl_query_radius_ptwise(&ids(), 5, &kwargs, false, &within);
        assert_eq!(column.name(), if parallel { "knn-radius" } else { "" });
        assert_eq!(sorted(&column), expected);
    }
}

#[test]
fn a_radius_search_that_fails_gives_a_null() {
    let within = |row: usize, _: u8| -> Result<Vec<(u8, usize)>, ErrorKind> {
        if row == 2 {
            Err(ErrorKind::WrongDimension)
        } else {
            Ok(vec![])
        }
    };
    let kwargs = KdtreeRadiusKwargs {
        r: 3u8,
        leaf_size: 2,
        metric: "l2".to_string(),
        parallel: true,
    };
    let column = pl_query_radius_ptwise(&ids(), 4, &kwargs, true, &within);
    assert_eq!(lists(&column), vec![Some(vec![]), Some(vec![]), None, Some(vec![])]);
}

#[test]
fn distances_stand_beside_the_neighbors() {
    let tree = tree_of(&POINTS);
    let nearest = |row: usize, num: usize| {
        tree.nearest(&[POINTS[row]], num, &squared_euclidean).map(owned)
    };
    let table = inputs(ids(), Some(vec![true, true, false, true, false]));
    for parallel in [false, true] {
        let column =
            pl_knn_ptwise_w_dist(&table, 5, &kwargs(1, parallel), false, &nearest, dist_lists)
                .unwrap();
        assert_eq!(column.name(), "knn_dist");
        let column = column.struct_().unwrap();
        let idx = column.field_by_name("idx").unwrap();
        let dist = column.field_by_name("dist").unwrap();
        assert_eq!(
            lists(&idx),
            vec![
                Some(vec![10, 11]),
                Some(vec![11, 10]),
                None,
                Some(vec![13, 12]),
                None,
            ]
        );
        assert_eq!(
            distances(&dist),
            vec![
                Some(vec![0.0, 1.0]),
                Some(vec![0.0, 1.0]),
                None,
                Some(vec![0.0, 16.0]),
                None,
            ]
        );
    }
}

#[test]
fn distances_do_not_change_which_neighbors_are_found() {
    let tree = tree_of(&POINTS);
    let nearest = |row: usize, num: usize| {
        tree.nearest(&[POINTS[row]], num, &squared_euclidean).map(owned)
    };
    let table = inputs(ids(), Some(vec![true, false, true, true, true]));
    let without = pl_knn_ptwise(&table, 5, &kwargs(2, false), false, &nearest);
    for parallel in [false, true] {
        let with =
            pl_knn_ptwise_w_dist(&table, 5, &kwargs(2, parallel), false, &nearest, dist_lists)
                .unwrap();
        let idx = with.struct_().unwrap().field_by_name("idx").unwrap();
        assert_eq!(lists(&idx), lists(&without));
    }
}

#[test]
fn every_row_that_is_searched_is_its_own_neighbor() {
    let tree = tree_of(&POINTS);
    let nearest = |row: usize, num: usize| {
        tree.nearest(&[POINTS[row]], num, &squared_euclidean).map(owned)
    };
    let column = pl_knn_ptwise(&inputs(ids(), None), 5, &kwargs(3, true), false, &nearest);
    for (id, list) in ids().iter().zip(lists(&column)) {
        assert!(list.unwrap().contains(id));
    }
}

#[test]
fn a_count_is_the_length_of_a_list() {
    let points = [0.0, 1.0, f64::INFINITY, 7.0, 8.0];
    let tree = tree_of(&points);
    let within = |row: usize, radius: f64| {
        tree.within(&[points[row]], radius, &squared_euclidean).map(owned)
    };
    let within_count =
        |row: usize, radius: f64| tree.within_count(&[points[row]], radius, &squared_euclidean);
    for parallel in [false, true] {
        let kwargs =
            KdtreeRadiusKwargs { r: 40.0, leaf_size: 2, metric: "l2".to_string(), parallel };
        let found = pl_query_radius_ptwise(&ids(), 5, &kwargs, false, &within);
        let counts = query_nb_cnt(5, &within_count, 40.0, parallel);
        let counts: Vec<Option<u32>> = counts.u32().unwrap().into_iter().collect();
        let lengths: Vec<Option<u32>> = lists(&found)
            .iter()
            .map(|list| list.as_ref().map(|list| list.len() as u32))
            .collect();
        assert_eq!(counts, vec![Some(2), Some(3), None, Some(3), Some(2)]);
        assert_eq!(lengths, counts);
    }
}

#[test]
fn the_fields_of_the_column_are_renamed() {
    let idx = Series::new("a", vec![1u32, 2]);
    let dist = Series::new("a", vec![0.5f64, 0.25]);
    let column = knn_dist_column(idx, dist).unwrap();
    let column = column.struct_().unwrap();
    let names: Vec<&str> = column.fields().iter().map(|field| field.name()).collect();
    assert_eq!(names, vec!["idx", "dist"]);
    assert_eq!(
        column.fields()[1].f64().unwrap().into_no_null_iter().collect::<Vec<f64>>(),
        vec![0.5, 0.25]
    );
}

#[test]
fn the_fields_of_the_column_are_in_one_chunk() {
    let mut idx = Series::new("", vec![1u32, 2]);
    idx.append(&Series::new("", vec![3u32])).unwrap();
    assert_eq!(idx.n_chunks(), 2);
    let dist = Series::new("", vec![0.5f64, 0.25, 0.125]);
    let column = knn_dist_column(idx, dist).unwrap();
    assert_eq!(column.len(), 3);
    let fields = column.struct_().unwrap().fields().to_vec();
    assert_eq!(fields[0].n_chunks(), 1);
    assert_eq!(
        fields[0].u32().unwrap().into_no_null_iter().collect::<Vec<u32>>(),
        vec![1, 2, 3]
    );
}

#[test]
fn the_output_type_is_the_type_of_the_column() {
    let nearest = |row: usize, _: usize| -> Result<Vec<(f64, usize)>, ErrorKind> {
        Ok(vec![(0.0, row)])
    };
    let table = inputs(ids(), None);
    let column =
        pl_knn_ptwise_w_dist(&table, 5, &kwargs(1, false), false, &nearest, dist_lists).unwrap();
    let output = knn_full_output(&[]);
    assert_eq!(output.name, column.name());
    let fields = match output.dtype {
        ColumnType::Struct(fields) => fields,
        other => panic!("{other:?}"),
    };
    let made = column.struct_().unwrap();
    assert_eq!(fields.len(), made.fields().len());
    for (field, series) in fields.iter().zip(made.fields()) {
        assert_eq!(field.name, series.name());
    }
    assert!(matches!(&fields[0].dtype, ColumnType::List(t) if matches!(**t, ColumnType::UInt32)));
    assert!(matches!(&fields[1].dtype, ColumnType::List(t) if matches!(**t, ColumnType::Float64)));
    assert_eq!(
        made.fields()[0].dtype(),
        &DataType::List(Box::new(DataType::UInt32))
    );
    assert_eq!(
        made.fields()[1].dtype(),
        &DataType::List(Box::new(DataType::Float64))
    );
}

#[test]
fn rows_become_identifiers_in_the_order_found() {
    assert_eq!(row_ids(&[10, 20, 30], &vec![('a', 2), ('b', 0), ('c', 2)]), vec![30, 10, 30]);
    assert_eq!(row_ids::<f64>(&[], &vec![]), Vec::<u32>::new());
    assert_eq!(
        row_neighbors(&[10, 20, 30], &vec![(0.5, 2), (1.5, 0)]),
        (vec![30, 10], vec![0.5, 1.5])
    );
}
