use lowrr::crop::{crop, crop_all, Crop};
use lowrr::error::RegistrationError;
use lowrr::interop::{
    green_mat_from_rgb_image, image_from_matrix, image_from_matrix_transposed,
    matrix_from_image, matrix_from_rgb_image, rgb_from_matrix, GrayBitmap, RgbBitmap,
};
use lowrr::matrix::Mat;

#[test]
fn gray_bitmap_to_matrix_and_back() {
    // 3 wide, 2 high, row-major.
    let img = GrayBitmap { width: 3, height: 2, raw: vec![1u8, 2, 3, 4, 5, 6] };
    let m = matrix_from_image(img);
    assert_eq!((m.nrows, m.ncols), (2, 3));
    assert_eq!(m.data, vec![1, 4, 2, 5, 3, 6]);
    let back = image_from_matrix(&m);
    assert_eq!((back.width, back.height), (3, 2));
    assert_eq!(back.raw, vec![1, 2, 3, 4, 5, 6]);
}

#[test]
fn transposed_image_reads_storage_as_is() {
    let m = Mat { nrows: 2, ncols: 3, data: vec![1u8, 4, 2, 5, 3, 6] };
    let img = image_from_matrix_transposed(&m);
    assert_eq!((img.width, img.height), (2, 3));
    assert_eq!(img.raw, vec![1, 4, 2, 5, 3, 6]);
}

#[test]
fn rgb_bitmap_to_matrix_and_back() {
    let img = RgbBitmap { width: 2, height: 1, raw: vec![1u16, 2, 3, 4, 5, 6] };
    let m = matrix_from_rgb_image(img);
    assert_eq!((m.nrows, m.ncols), (1, 2));
    assert_eq!(m.data, vec![(1, 2, 3), (4, 5, 6)]);
    let back = rgb_from_matrix(&m);
    assert_eq!((back.width, back.height), (2, 1));
    assert_eq!(back.raw, vec![1, 2, 3, 4, 5, 6]);
}

#[test]
fn green_matrix_from_rgb_bitmap() {
    // 1 wide, 2 high.
    let img = RgbBitmap { width: 1, height: 2, raw: vec![10u8, 20, 30, 40, 50, 60] };
    let g = green_mat_from_rgb_image(img);
    assert_eq!((g.nrows, g.ncols), (2, 1));
    assert_eq!(g.data, vec![20, 50]);
}

fn ramp(nrows: usize, ncols: usize) -> Mat<u8> {
    let mut data = Vec::new();
    for x in 0..ncols {
        for y in 0..nrows {
            data.push((10 * y + x) as u8);
        }
    }
    Mat { nrows, ncols, data }
}

#[test]
fn crop_copies_the_window() {
    let img = ramp(4, 5);
    let c = crop(Crop { x1: 1, y1: 2, x2: 4, y2: 4 }, &img).unwrap();
    assert_eq!((c.nrows, c.ncols), (2, 3));
    assert_eq!(*c.get(0, 0), 21);
    assert_eq!(*c.get(1, 2), 33);
}

#[test]
fn crop_outside_the_image_is_refused() {
    let img = ramp(8, 8);
    let r = crop(Crop { x1: 0, y1: 0, x2: 10, y2: 5 }, &img);
    assert_eq!(r.err(), Some(RegistrationError::BadCropBounds));
}

#[test]
fn inverted_or_empty_crop_is_refused() {
    let img = ramp(8, 8);
    assert_eq!(
        crop(Crop { x1: 5, y1: 0, x2: 2, y2: 5 }, &img).err(),
        Some(RegistrationError::BadCropBounds)
    );
    assert_eq!(
        crop(Crop { x1: 2, y1: 3, x2: 4, y2: 3 }, &img).err(),
        Some(RegistrationError::BadCropBounds)
    );
}

#[test]
fn crop_of_whole_image_is_identity() {
    let img = ramp(3, 3);
    let c = crop(Crop { x1: 0, y1: 0, x2: 3, y2: 3 }, &img).unwrap();
    assert_eq!(c.data, img.data);
}

#[test]
fn crop_from_values() {
    assert_eq!(
        Crop::try_from_values(&vec![16, 16, 112, 112]),
        Ok(Crop { x1: 16, y1: 16, x2: 112, y2: 112 })
    );
    assert_eq!(Crop::try_from_values(&vec![1, 2, 3]), Err(RegistrationError::BadConfig));
    assert_eq!(
        Crop::try_from_values(&vec![4, 2, 3, 9]),
        Err(RegistrationError::BadCropBounds)
    );
}

#[test]
fn crop_all_applies_to_every_image() {
    let imgs = vec![ramp(4, 4), ramp(4, 4)];
    let out = crop_all(Some(Crop { x1: 1, y1: 1, x2: 3, y2: 3 }), imgs).unwrap();
    assert_eq!(out.len(), 2);
    assert_eq!(out[1].data, vec![11, 21, 12, 22]);
    let kept = crop_all(None, vec![ramp(2, 2)]).unwrap();
    assert_eq!(kept[0].data, ramp(2, 2).data);
    let bad = crop_all(Some(Crop { x1: 0, y1: 0, x2: 5, y2: 2 }), vec![ramp(4, 4)]);
    assert_eq!(bad.err(), Some(RegistrationError::BadCropBounds));
}
