use lowrr::matrix::{green_channel, into_gray_u8, reshape, Mat};
use lowrr::utils::{coordinates_from_mask, coords_col_major, coords_row_major, transpose};

fn mat<T>(nrows: usize, ncols: usize, data: Vec<T>) -> Mat<T> {
    Mat { nrows, ncols, data }
}

#[test]
fn transpose_regroups_by_inner_index() {
    let v = vec![vec![1, 2, 3], vec![4, 5, 6]];
    assert_eq!(transpose(v), vec![vec![1, 4], vec![2, 5], vec![3, 6]]);
}

#[test]
fn transpose_of_empty_is_empty() {
    let v: Vec<Vec<u8>> = Vec::new();
    assert!(transpose(v).is_empty());
    let w: Vec<Vec<u8>> = vec![Vec::new(), Vec::new()];
    assert!(transpose(w).is_empty());
}

#[test]
fn transpose_single_row() {
    let v = vec![vec!["a".to_string(), "b".to_string()]];
    assert_eq!(transpose(v), vec![vec!["a".to_string()], vec!["b".to_string()]]);
}

#[test]
fn coords_col_major_order() {
    assert_eq!(
        coords_col_major((2, 3)),
        vec![(0, 0), (0, 1), (1, 0), (1, 1), (2, 0), (2, 1)]
    );
    assert!(coords_col_major((0, 3)).is_empty());
}

#[test]
fn coords_row_major_order() {
    assert_eq!(
        coords_row_major((2, 3)),
        vec![(0, 0), (1, 0), (2, 0), (0, 1), (1, 1), (2, 1)]
    );
    assert!(coords_row_major((4, 0)).is_empty());
}

#[test]
fn coordinates_of_set_mask_cells() {
    // 2 rows, 3 columns, column-major: (y=0,x=0) (y=1,x=0) (y=0,x=1) ...
    let mask = mat(2, 3, vec![true, false, false, true, true, false]);
    assert_eq!(coordinates_from_mask(&mask), vec![(0, 0), (1, 1), (2, 0)]);
    let none = mat(2, 2, vec![false; 4]);
    assert!(coordinates_from_mask(&none).is_empty());
}

#[test]
fn reshape_keeps_storage() {
    let m = mat(2, 3, vec![1u8, 2, 3, 4, 5, 6]);
    let r = reshape(m, 3, 2);
    assert_eq!((r.nrows, r.ncols), (3, 2));
    assert_eq!(r.data, vec![1, 2, 3, 4, 5, 6]);
    assert_eq!(*r.get(2, 1), 6);
    assert_eq!(*r.get(0, 1), 4);
}

#[test]
fn get_reads_column_major() {
    let m = mat(2, 2, vec![1u8, 2, 3, 4]);
    assert_eq!(*m.get(1, 0), 2);
    assert_eq!(*m.get(0, 1), 3);
    assert_eq!(m.shape(), (2, 2));
}

#[test]
fn green_channel_picks_second_component() {
    let m = mat(1, 2, vec![(1u8, 2u8, 3u8), (4, 5, 6)]);
    let g = green_channel(&m);
    assert_eq!(g.data, vec![2, 5]);
    assert_eq!((g.nrows, g.ncols), (1, 2));
}

#[test]
fn into_gray_u8_keeps_high_byte() {
    let m = mat(1, 4, vec![0u16, 255, 256, 65535]);
    let g = into_gray_u8(m);
    assert_eq!(g.data, vec![0, 0, 1, 255]);
}
