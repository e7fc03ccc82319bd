//! Reading the input columns.
use knn::{knn_inputs, ptwise_inputs, radius_ids, KnnError};
use polars::prelude::{NamedFrom, Series};

fn ids() -> Series {
    Series::new("id", vec![7u32, 8, 9])
}

fn column(name: &str) -> Series {
    Series::new(name, vec![0.0f64, 1.0, 2.0])
}

#[test]
fn without_a_skip_column_every_input_after_the_ids_is_a_coordinate() {
    let inputs = ptwise_inputs(&[ids(), column("x"), column("y")]).unwrap();
    assert_eq!(inputs.id, vec![7, 8, 9]);
    assert_eq!(inputs.filter, None);
    assert_eq!(inputs.first_column, 1);
    assert_eq!(inputs.dim, 2);
}

#[test]
fn a_null_in_the_skip_column_does_not_skip() {
    let skip = Series::new("skip", vec![Some(true), None, Some(false)]);
    let inputs = ptwise_inputs(&[ids(), skip, column("x")]).unwrap();
    assert_eq!(inputs.filter, Some(vec![false, true, true]));
    assert_eq!(inputs.first_column, 2);
    assert_eq!(inputs.dim, 1);
}

#[test]
fn ids_in_several_chunks_are_read_in_order() {
    let mut id = Series::new("id", vec![1u32, 2]);
    id.append(&Series::new("id", vec![3u32])).unwrap();
    assert_eq!(id.n_chunks(), 2);
    assert_eq!(radius_ids(&[id]).unwrap(), vec![1, 2, 3]);
}

#[test]
fn ids_of_another_type_are_refused() {
    let id = Series::new("id", vec![7i64, 8, 9]);
    match ptwise_inputs(&[id.clone(), column("x")]) {
        Err(KnnError::Polars(e)) => assert_eq!(
            e.to_string(),
            "invalid series dtype: expected `UInt32`, got `i64`"
        ),
        other => panic!("{other:?}"),
    }
    assert!(matches!(radius_ids(&[id.clone()]), Err(KnnError::Polars(_))));
    assert!(matches!(knn_inputs(&[id, column("x")]), Err(KnnError::Polars(_))));
}

#[test]
fn ids_that_cannot_be_read_are_refused_without_another_column() {
    let other_type = [Series::new("id", vec![7i64])];
    assert!(matches!(ptwise_inputs(&other_type), Err(KnnError::Polars(_))));
    assert!(matches!(knn_inputs(&other_type), Err(KnnError::Polars(_))));
    let with_null = [Series::new("id", vec![None, Some(7u32)])];
    assert!(matches!(ptwise_inputs(&with_null), Err(KnnError::NullId(_))));
    assert!(matches!(knn_inputs(&with_null), Err(KnnError::NullId(_))));
}

#[test]
fn a_null_id_is_refused() {
    let id = Series::new("id", vec![Some(7u32), None]);
    match radius_ids(&[id]) {
        Err(KnnError::NullId(message)) => assert_eq!(message, "chunked array is not contiguous"),
        other => panic!("{other:?}"),
    }
}

#[test]
fn neighbors_need_a_coordinate_column() {
    let skip = Series::new("skip", vec![true, false, false]);
    match knn_inputs(&[ids(), skip.clone()]) {
        Err(KnnError::Compute(message)) => assert_eq!(message, "KNN: No column found."),
        other => panic!("{other:?}"),
    }
    assert_eq!(ptwise_inputs(&[ids(), skip.clone()]).unwrap().dim, 0);
    assert_eq!(knn_inputs(&[ids(), skip, column("x")]).unwrap().dim, 1);
}
