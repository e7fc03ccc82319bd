//! Cutting rows into pieces.
use knn::split_offsets;

#[test]
fn one_piece_takes_all_rows() {
    assert_eq!(split_offsets(5, 1), vec![(0, 5)]);
    assert_eq!(split_offsets(0, 1), vec![(0, 0)]);
}

#[test]
fn the_last_piece_takes_the_rows_left_over() {
    assert_eq!(split_offsets(11, 3), vec![(0, 3), (3, 3), (6, 5)]);
    assert_eq!(split_offsets(6, 3), vec![(0, 2), (2, 2), (4, 2)]);
}

#[test]
fn with_more_pieces_than_rows_the_last_one_takes_them_all() {
    assert_eq!(split_offsets(2, 4), vec![(0, 0), (0, 0), (0, 0), (0, 2)]);
}

#[test]
fn the_pieces_lie_end_to_end() {
    for len in 0..40 {
        for n in 1..12 {
            let mut next = 0;
            for (offset, size) in split_offsets(len, n) {
                assert_eq!(offset, next);
                next = offset + size;
            }
            assert_eq!(next, len);
        }
    }
}
