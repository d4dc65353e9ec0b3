use rimg::image::{dims_ok, validate_dimensions, DimError, Frame, LoadedImage, RgbaImage};

#[test]
fn new_buffer_has_four_bytes_per_pixel() {
    let img = RgbaImage::new(3, 5);
    assert_eq!(img.data.len(), 3 * 5 * 4);
    assert!(img.data.iter().all(|&b| b == 0));
    assert_eq!(img.as_raw().len(), 60);
}

#[test]
fn from_raw_accepts_exact_length_only() {
    assert!(RgbaImage::from_raw(2, 2, vec![7u8; 16]).is_some());
    assert!(RgbaImage::from_raw(2, 2, vec![7u8; 15]).is_none());
    assert!(RgbaImage::from_raw(2, 2, vec![7u8; 17]).is_none());
    let img = RgbaImage::from_raw(1, 2, vec![1, 2, 3, 4, 5, 6, 7, 8]).unwrap();
    assert_eq!(img.dimensions(), (1, 2));
    assert_eq!(img.as_raw(), &[1, 2, 3, 4, 5, 6, 7, 8]);
}

#[test]
fn from_raw_rejects_zero_and_oversized_dimensions() {
    assert!(RgbaImage::from_raw(0, 4, Vec::new()).is_none());
    assert!(RgbaImage::from_raw(4, 0, Vec::new()).is_none());
    assert!(!dims_ok(16384, 16385));
    assert!(dims_ok(16384, 16384));
}

#[test]
fn validate_dimensions_orders_checks() {
    assert!(matches!(validate_dimensions(10, 10, 100), Ok(())));
    assert!(matches!(validate_dimensions(10, 11, 100), Err(DimError::TooLarge)));
    assert!(matches!(validate_dimensions(0, 11, 100), Err(DimError::ZeroDimension)));
}

#[test]
fn first_frame_of_animation_is_first() {
    let a = RgbaImage::from_raw(1, 1, vec![1, 2, 3, 4]).unwrap();
    let b = RgbaImage::from_raw(1, 1, vec![5, 6, 7, 8]).unwrap();
    let anim = LoadedImage::Animated {
        frames: vec![Frame { image: a, delay_ms: 100 }, Frame { image: b, delay_ms: 10 }],
    };
    assert_eq!(anim.first_frame().as_raw(), &[1, 2, 3, 4]);
    let st = LoadedImage::Static(RgbaImage::from_raw(1, 1, vec![9, 9, 9, 9]).unwrap());
    assert_eq!(st.first_frame().as_raw(), &[9, 9, 9, 9]);
}
