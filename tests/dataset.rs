use lowrr::dataset::{
    dataset_kind, file_kind, kind_of_lowercase_extension, Dataset, DecodedImage, FileKind,
    GrayStack, LoadError, Lowrr,
};
use lowrr::error::RegistrationError;
use lowrr::interop::{GrayBitmap, RgbBitmap};

#[test]
fn extensions_map_to_kinds() {
    assert_eq!(kind_of_lowercase_extension("png"), Some(FileKind::Image));
    assert_eq!(kind_of_lowercase_extension("jpeg"), Some(FileKind::Image));
    assert_eq!(kind_of_lowercase_extension("nef"), Some(FileKind::Raw));
    assert_eq!(kind_of_lowercase_extension("PNG"), None);
    assert_eq!(file_kind(Some("PNG")), Ok(FileKind::Image));
    assert_eq!(file_kind(Some("Jpg")), Ok(FileKind::Image));
    assert_eq!(file_kind(Some("NEF")), Ok(FileKind::Raw));
    assert_eq!(file_kind(Some("tiff")), Err(RegistrationError::InvalidInput));
    assert_eq!(file_kind(None), Err(RegistrationError::InvalidInput));
}

#[test]
fn dataset_kind_needs_one_kind() {
    assert_eq!(dataset_kind(&vec![]), Err(RegistrationError::InvalidInput));
    assert_eq!(dataset_kind(&vec![FileKind::Image, FileKind::Image]), Ok(FileKind::Image));
    assert_eq!(
        dataset_kind(&vec![FileKind::Image, FileKind::Raw]),
        Err(RegistrationError::InvalidInput)
    );
}

fn gray8(v: u8) -> DecodedImage {
    DecodedImage::Luma8(GrayBitmap { width: 2, height: 1, raw: vec![v, v + 1] })
}

#[test]
fn loader_gathers_images_of_one_type() {
    let mut l = Lowrr::init();
    assert!(l.image_ids().is_empty());
    assert_eq!(l.load("a".to_string(), gray8(1)), Ok(()));
    assert_eq!(l.load("b".to_string(), gray8(5)), Ok(()));
    assert_eq!(l.image_ids(), vec!["a".to_string(), "b".to_string()]);
    match &l.dataset {
        Dataset::GrayImages(v) => {
            assert_eq!(v.len(), 2);
            assert_eq!(v[1].data, vec![5, 6]);
        }
        _ => panic!("expected gray images"),
    }
}

#[test]
fn loader_refuses_other_types_and_keeps_state() {
    let mut l = Lowrr::init();
    assert_eq!(l.load("a".to_string(), gray8(1)), Ok(()));
    let rgb = DecodedImage::Rgb8(RgbBitmap { width: 1, height: 1, raw: vec![1, 2, 3] });
    assert_eq!(l.load("b".to_string(), rgb), Err(LoadError::MixedTypes));
    assert_eq!(l.load("c".to_string(), DecodedImage::Bgr), Err(LoadError::BgrOrder));
    assert_eq!(l.load("d".to_string(), DecodedImage::WithAlpha), Err(LoadError::AlphaChannel));
    assert_eq!(l.load("e".to_string(), DecodedImage::Other), Err(LoadError::MixedTypes));
    assert_eq!(l.image_ids(), vec!["a".to_string()]);
}

#[test]
fn color_dataset_becomes_green_stack() {
    let mut l = Lowrr::init();
    let img = DecodedImage::Rgb16(RgbBitmap { width: 2, height: 1, raw: vec![1, 2, 3, 4, 5, 6] });
    assert_eq!(l.load("x".to_string(), img), Ok(()));
    match l.dataset.into_gray() {
        GrayStack::U16(v) => assert_eq!(v[0].data, vec![2, 5]),
        _ => panic!("expected a 16-bit stack"),
    }
    let empty = Lowrr::init();
    assert!(matches!(empty.dataset.into_gray(), GrayStack::Empty));
}
