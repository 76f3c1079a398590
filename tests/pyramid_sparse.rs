use lowrr::error::RegistrationError;
use lowrr::gradients::squared_norm_direct;
use lowrr::matrix::Mat;
use lowrr::pyramid::{halve, mean_pyramid};
use lowrr::registration::{build_multires, check_stack, prepare_stack};
use lowrr::sparse::{border_size, is_interior, select_pixels};

fn filled<T: Copy>(nrows: usize, ncols: usize, v: T) -> Mat<T> {
    Mat { nrows, ncols, data: vec![v; nrows * ncols] }
}

#[test]
fn halve_averages_blocks_and_truncates() {
    // 2x2 block 1,2,3,5 -> 11/4 = 2; odd row and column dropped.
    let m = Mat { nrows: 3, ncols: 3, data: vec![1u8, 2, 9, 3, 5, 9, 9, 9, 9] };
    let h = halve(&m);
    assert_eq!((h.nrows, h.ncols), (1, 1));
    assert_eq!(h.data, vec![2]);
    let big = Mat { nrows: 2, ncols: 2, data: vec![65535u16, 65535, 65535, 65534] };
    assert_eq!(halve(&big).data, vec![65534]);
}

#[test]
fn pyramid_dimensions_halve_per_level() {
    let img = filled(37u8 as usize, 21, 7u8);
    let p = mean_pyramid(4, img);
    assert_eq!(p.len(), 4);
    let dims: Vec<(usize, usize)> = p.iter().map(|m| (m.nrows, m.ncols)).collect();
    assert_eq!(dims, vec![(37, 21), (18, 10), (9, 5), (4, 2)]);
    assert!(p[3].data.iter().all(|&v| v == 7));
}

#[test]
fn pyramid_of_one_level_is_the_image() {
    let img = Mat { nrows: 1, ncols: 2, data: vec![3u16, 4] };
    let p = mean_pyramid(1, img);
    assert_eq!(p.len(), 1);
    assert_eq!(p[0].data, vec![3, 4]);
}

#[test]
fn gradient_norms_center_and_borders() {
    // One row: 0 4 10 10. gx: border 4, (10-0)/2=5, (10-4)/2=3, border 0.
    let m = Mat { nrows: 1, ncols: 4, data: vec![0u8, 4, 10, 10] };
    let g = squared_norm_direct(&m);
    assert_eq!(g.data, vec![16, 25, 9, 0]);
    // One column: gy the same way.
    let c = Mat { nrows: 3, ncols: 1, data: vec![0u16, 65535, 1] };
    let gc = squared_norm_direct(&c);
    assert_eq!(gc.data, vec![65535u64 * 65535, 0, 65534u64 * 65534]);
}

#[test]
fn gradient_norm_of_flat_image_is_zero() {
    let g = squared_norm_direct(&filled(5, 5, 200u8));
    assert!(g.data.iter().all(|&v| v == 0));
}

#[test]
fn selector_takes_max_over_images() {
    let a = Mat { nrows: 1, ncols: 3, data: vec![10u64, 50, 41] };
    let b = Mat { nrows: 1, ncols: 3, data: vec![45u64, 0, 40] };
    let mask = select_pixels(&vec![a, b], 40);
    assert_eq!(mask.data, vec![true, true, true]);
    let c = Mat { nrows: 1, ncols: 3, data: vec![40u64, 0, 39] };
    let mask2 = select_pixels(&vec![c], 40);
    assert_eq!(mask2.data, vec![false, false, false]);
}

#[test]
fn empty_stack_is_invalid_input() {
    let imgs: Vec<Mat<u8>> = Vec::new();
    assert_eq!(prepare_stack(2, imgs).err(), Some(RegistrationError::InvalidInput));
    let none: Vec<Mat<u16>> = Vec::new();
    assert_eq!(check_stack(&none), Err(RegistrationError::InvalidInput));
}

#[test]
fn mismatched_stack_is_invalid_input() {
    let imgs = vec![filled(4, 4, 1u8), filled(4, 5, 1u8)];
    assert_eq!(check_stack(&imgs), Err(RegistrationError::InvalidInput));
    assert_eq!(prepare_stack(2, imgs).err(), Some(RegistrationError::InvalidInput));
}

#[test]
fn zero_levels_is_bad_config() {
    let imgs = vec![filled(4, 4, 1u8)];
    assert_eq!(prepare_stack(0, imgs).err(), Some(RegistrationError::BadConfig));
}

#[test]
fn multires_groups_levels() {
    let imgs = vec![filled(8, 6, 3u8), filled(8, 6, 9u8), filled(8, 6, 0u8)];
    assert_eq!(check_stack(&imgs), Ok((8, 6)));
    let m = prepare_stack(3, imgs).unwrap();
    assert_eq!(m.imgs.len(), 3);
    assert_eq!(m.gradient_sqr_norms.len(), 3);
    assert_eq!(m.imgs[2].len(), 3);
    assert_eq!((m.imgs[2][1].nrows, m.imgs[2][1].ncols), (2, 1));
    assert_eq!(m.imgs[1][1].data, vec![9; 12]);
    assert!(m.gradient_sqr_norms[0][0].data.iter().all(|&v| v == 0));
    let direct = build_multires(1, vec![filled(2, 2, 5u16)]);
    assert_eq!(direct.imgs[0][0].data, vec![5; 4]);
}

#[test]
fn identical_checkerboards_share_all_levels() {
    let mut data = Vec::new();
    for x in 0..64usize {
        for y in 0..64usize {
            data.push(if (x / 8 + y / 8) % 2 == 0 { 255u8 } else { 0 });
        }
    }
    let board = Mat { nrows: 64, ncols: 64, data };
    let copies = vec![
        Mat { nrows: 64, ncols: 64, data: board.data.clone() },
        Mat { nrows: 64, ncols: 64, data: board.data.clone() },
        board,
    ];
    let m = prepare_stack(2, copies).unwrap();
    assert_eq!((m.imgs[1][0].nrows, m.imgs[1][0].ncols), (32, 32));
    assert_eq!(m.imgs[1][0].data, m.imgs[1][2].data);
    assert_eq!(m.gradient_sqr_norms[1][0].data, m.gradient_sqr_norms[1][1].data);
}

#[test]
fn border_is_four_percent_of_smaller_side() {
    assert_eq!(border_size(128, 64), 2);
    assert_eq!(border_size(25, 300), 1);
    assert_eq!(border_size(24, 24), 0);
    assert_eq!(border_size(usize::MAX, usize::MAX), usize::MAX / 25);
    assert!(is_interior(3, 3, 10, 10, 2));
    assert!(!is_interior(2, 3, 10, 10, 2));
    assert!(!is_interior(3, 8, 10, 10, 2));
    assert!(!is_interior(usize::MAX, 3, 10, 10, 2));
}
