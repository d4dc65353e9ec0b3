use rimg::image::RgbaImage;
use rimg::orient::{apply_orientation, flip_h, flip_v, rotate_180, rotate_270, rotate_90};

/// A 2x3 image, row-major: R G / B W / Y C.
fn make_2x3_image() -> RgbaImage {
    let mut img = RgbaImage::new(2, 3);
    let pixels: &[[u8; 4]] = &[
        [255, 0, 0, 255],
        [0, 255, 0, 255],
        [0, 0, 255, 255],
        [255, 255, 255, 255],
        [255, 255, 0, 255],
        [0, 255, 255, 255],
    ];
    for (i, px) in pixels.iter().enumerate() {
        let off = i * 4;
        img.data[off..off + 4].copy_from_slice(px);
    }
    img
}

fn make_2x2_image() -> RgbaImage {
    let mut img = RgbaImage::new(2, 2);
    img.data[0..4].copy_from_slice(&[255, 0, 0, 255]);
    img.data[4..8].copy_from_slice(&[0, 255, 0, 255]);
    img.data[8..12].copy_from_slice(&[0, 0, 255, 255]);
    img.data[12..16].copy_from_slice(&[255, 255, 0, 255]);
    img
}

fn pixel_at(img: &RgbaImage, x: u32, y: u32) -> [u8; 4] {
    let off = ((y * img.width + x) * 4) as usize;
    [img.data[off], img.data[off + 1], img.data[off + 2], img.data[off + 3]]
}

#[test]
fn test_rotate_90() {
    let img = make_2x3_image();
    let out = rotate_90(img);
    assert_eq!(out.dimensions(), (3, 2));
    assert_eq!(pixel_at(&out, 0, 0), [255, 255, 0, 255]);
    assert_eq!(pixel_at(&out, 1, 0), [0, 0, 255, 255]);
    assert_eq!(pixel_at(&out, 2, 0), [255, 0, 0, 255]);
    assert_eq!(pixel_at(&out, 0, 1), [0, 255, 255, 255]);
    assert_eq!(pixel_at(&out, 1, 1), [255, 255, 255, 255]);
    assert_eq!(pixel_at(&out, 2, 1), [0, 255, 0, 255]);
}

#[test]
fn test_rotate_180() {
    let img = make_2x3_image();
    let out = rotate_180(img);
    assert_eq!(out.dimensions(), (2, 3));
    assert_eq!(pixel_at(&out, 0, 0), [0, 255, 255, 255]);
    assert_eq!(pixel_at(&out, 1, 0), [255, 255, 0, 255]);
    assert_eq!(pixel_at(&out, 0, 1), [255, 255, 255, 255]);
    assert_eq!(pixel_at(&out, 1, 1), [0, 0, 255, 255]);
    assert_eq!(pixel_at(&out, 0, 2), [0, 255, 0, 255]);
    assert_eq!(pixel_at(&out, 1, 2), [255, 0, 0, 255]);
}

#[test]
fn test_rotate_270() {
    let img = make_2x3_image();
    let out = rotate_270(img);
    assert_eq!(out.dimensions(), (3, 2));
    assert_eq!(pixel_at(&out, 0, 0), [0, 255, 0, 255]);
    assert_eq!(pixel_at(&out, 1, 0), [255, 255, 255, 255]);
    assert_eq!(pixel_at(&out, 2, 0), [0, 255, 255, 255]);
    assert_eq!(pixel_at(&out, 0, 1), [255, 0, 0, 255]);
    assert_eq!(pixel_at(&out, 1, 1), [0, 0, 255, 255]);
    assert_eq!(pixel_at(&out, 2, 1), [255, 255, 0, 255]);
}

#[test]
fn test_flip_h() {
    let img = make_2x2_image();
    let out = flip_h(img);
    assert_eq!(out.dimensions(), (2, 2));
    assert_eq!(pixel_at(&out, 0, 0), [0, 255, 0, 255]);
    assert_eq!(pixel_at(&out, 1, 0), [255, 0, 0, 255]);
    assert_eq!(pixel_at(&out, 0, 1), [255, 255, 0, 255]);
    assert_eq!(pixel_at(&out, 1, 1), [0, 0, 255, 255]);
}

#[test]
fn test_flip_v() {
    let img = make_2x2_image();
    let out = flip_v(img);
    assert_eq!(out.dimensions(), (2, 2));
    assert_eq!(pixel_at(&out, 0, 0), [0, 0, 255, 255]);
    assert_eq!(pixel_at(&out, 1, 0), [255, 255, 0, 255]);
    assert_eq!(pixel_at(&out, 0, 1), [255, 0, 0, 255]);
    assert_eq!(pixel_at(&out, 1, 1), [0, 255, 0, 255]);
}

#[test]
fn orientation_one_and_out_of_range_are_identity() {
    for o in [0u32, 1, 9, 100] {
        let out = apply_orientation(make_2x3_image(), o);
        assert_eq!(out.dimensions(), (2, 3));
        assert_eq!(out.data, make_2x3_image().data);
    }
}

#[test]
fn flip_twice_and_half_turn_twice_restore() {
    let once = flip_h(make_2x3_image());
    assert_ne!(once.data, make_2x3_image().data);
    let twice = flip_h(once);
    assert_eq!(twice.data, make_2x3_image().data);
    let r = rotate_180(rotate_180(make_2x3_image()));
    assert_eq!(r.dimensions(), (2, 3));
    assert_eq!(r.data, make_2x3_image().data);
}

#[test]
fn quarter_turn_then_back_restores() {
    let r = rotate_270(rotate_90(make_2x3_image()));
    assert_eq!(r.dimensions(), (2, 3));
    assert_eq!(r.data, make_2x3_image().data);
}

#[test]
fn orientation_five_is_transpose_and_seven_transverse() {
    let t = apply_orientation(make_2x3_image(), 5);
    assert_eq!(t.dimensions(), (3, 2));
    // transpose: out(x, y) = in(y, x)
    assert_eq!(pixel_at(&t, 1, 0), [0, 0, 255, 255]);
    assert_eq!(pixel_at(&t, 2, 1), [0, 255, 255, 255]);
    let v = apply_orientation(make_2x3_image(), 7);
    assert_eq!(v.dimensions(), (3, 2));
    // transverse: out(x, y) = in(w - 1 - y, h - 1 - x)
    assert_eq!(pixel_at(&v, 0, 0), [0, 255, 255, 255]);
    assert_eq!(pixel_at(&v, 2, 1), [255, 0, 0, 255]);
}

#[test]
fn orientation_six_and_eight_match_rotations() {
    assert_eq!(apply_orientation(make_2x3_image(), 6).data, rotate_90(make_2x3_image()).data);
    assert_eq!(apply_orientation(make_2x3_image(), 8).data, rotate_270(make_2x3_image()).data);
    assert_eq!(apply_orientation(make_2x3_image(), 3).data, rotate_180(make_2x3_image()).data);
    assert_eq!(apply_orientation(make_2x3_image(), 2).data, flip_h(make_2x3_image()).data);
    assert_eq!(apply_orientation(make_2x3_image(), 4).data, flip_v(make_2x3_image()).data);
}
