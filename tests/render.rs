use rimg::image::RgbaImage;
use rimg::render::{blit_thumbnail, composite_centered, draw_overlay, fill_rect, rgba_to_xrgb, BG_COLOR};

#[test]
fn fill_rect_clips_to_buffer() {
    let mut buf = vec![0u32; 4 * 3];
    fill_rect(&mut buf, 4, 2, 1, 10, 10, 7);
    assert_eq!(buf, vec![0, 0, 0, 0, 0, 0, 7, 7, 0, 0, 7, 7]);
    let mut buf = vec![1u32; 6];
    fill_rect(&mut buf, 4, u32::MAX, 0, u32::MAX, 1, 9);
    assert_eq!(buf, vec![1u32; 6]);
}

#[test]
fn overlay_darkens_channels() {
    let mut buf = vec![0xFF_FF_80_40u32, 0x00_10_20_30];
    draw_overlay(&mut buf, 2, 0, 0, 1, 1, 160);
    // 255 * 95 / 255 = 95, 128 * 95 / 255 = 47, 64 * 95 / 255 = 23; top byte dropped
    assert_eq!(buf[0], (95 << 16) | (47 << 8) | 23);
    assert_eq!(buf[1], 0x00_10_20_30);
    let mut same = vec![5u32; 4];
    draw_overlay(&mut same, 0, 0, 0, 9, 9, 200);
    assert_eq!(same, vec![5u32; 4]);
}

#[test]
fn centered_image_over_background() {
    // 1x1 opaque red pixel in a 3x3 window lands in the middle
    let img = RgbaImage::from_raw(1, 1, vec![255, 0, 0, 255]).unwrap();
    let buf = composite_centered(&img, 3, 3, 0, 0);
    assert_eq!(buf.len(), 9);
    assert_eq!(buf[4], 0x00FF0000);
    assert_eq!(buf[0], BG_COLOR);
    // panned one to the left
    let buf = composite_centered(&img, 3, 3, -1, 0);
    assert_eq!(buf[3], 0x00FF0000);
    // half-transparent white over the background
    let img = RgbaImage::from_raw(1, 1, vec![255, 255, 255, 128]).unwrap();
    let buf = composite_centered(&img, 1, 1, 0, 0);
    let c = (255 * 128 + 0x1a * 127) / 255;
    assert_eq!(buf[0], (c << 16) | (c << 8) | c);
}

#[test]
fn thumbnail_is_centered_in_its_cell() {
    let thumb = RgbaImage::from_raw(2, 1, vec![1, 2, 3, 255, 4, 5, 6, 0]).unwrap();
    let mut buf = vec![9u32; 5 * 2];
    blit_thumbnail(&mut buf, 5, 2, &thumb, 0, 0, 4, 3);
    // cell 4x3 at (0, 0): thumbnail 2x1 placed at (1, 1)
    assert_eq!(buf[5 + 1], 0x00010203);
    // fully transparent pixel leaves the buffer
    assert_eq!(buf[5 + 2], 9);
    assert_eq!(buf[0], 9);
}

#[test]
fn xrgb_drops_alpha() {
    let img = RgbaImage::from_raw(2, 1, vec![1, 2, 3, 4, 250, 251, 252, 0]).unwrap();
    assert_eq!(rgba_to_xrgb(&img), vec![0x00010203, 0x00FAFBFC]);
}
