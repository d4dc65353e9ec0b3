use rimg::anim::{
    composite_gif_frame, finish_frames, gif_frame_delay_ms, tick_delay_ms, timestamp_delay_ms,
    GifFrame,
};
use rimg::convert::unpremultiply_bgra;
use rimg::image::{Frame, LoadedImage, RgbaImage};
use rimg::thumb::pick_dct_scale;

fn pixel_at(img: &RgbaImage, x: u32, y: u32) -> [u8; 4] {
    let off = ((y * img.width + x) * 4) as usize;
    [img.data[off], img.data[off + 1], img.data[off + 2], img.data[off + 3]]
}

/// Palette: 0 red, 1 green, 2 blue.
fn palette() -> Vec<u8> {
    vec![255, 0, 0, 0, 255, 0, 0, 0, 255]
}

#[test]
fn transparent_pixel_keeps_previous_frame() {
    let canvas = RgbaImage::new(2, 2);
    // frame 1: opaque, covers the whole 2x2 screen
    let f1 = GifFrame {
        left: 0,
        top: 0,
        width: 2,
        height: 2,
        indices: vec![0, 1, 2, 0],
        colors: palette(),
        transparent: None,
    };
    let out1 = composite_gif_frame(&canvas, &f1);
    assert_eq!(pixel_at(&out1, 1, 0), [0, 255, 0, 255]);
    // frame 2: index 2 is transparent; pixel (1, 0) uses it
    let f2 = GifFrame {
        left: 0,
        top: 0,
        width: 2,
        height: 2,
        indices: vec![1, 2, 1, 1],
        colors: palette(),
        transparent: Some(2),
    };
    let out2 = composite_gif_frame(&out1, &f2);
    assert_eq!(pixel_at(&out2, 1, 0), [0, 255, 0, 255]);
    assert_eq!(pixel_at(&out2, 0, 0), [0, 255, 0, 255]);
    assert_eq!(pixel_at(&out2, 0, 1), [0, 255, 0, 255]);
}

#[test]
fn frame_only_touches_its_rectangle() {
    let canvas = RgbaImage::from_raw(3, 1, vec![9; 12]).unwrap();
    let f = GifFrame {
        left: 1,
        top: 0,
        width: 1,
        height: 1,
        indices: vec![2],
        colors: palette(),
        transparent: None,
    };
    let out = composite_gif_frame(&canvas, &f);
    assert_eq!(pixel_at(&out, 0, 0), [9, 9, 9, 9]);
    assert_eq!(pixel_at(&out, 1, 0), [0, 0, 255, 255]);
    assert_eq!(pixel_at(&out, 2, 0), [9, 9, 9, 9]);
    // an index past the color table leaves the canvas alone
    let g = GifFrame { indices: vec![7], ..f };
    assert_eq!(pixel_at(&composite_gif_frame(&canvas, &g), 1, 0), [9, 9, 9, 9]);
}

#[test]
fn frame_delays_are_floored() {
    assert_eq!(gif_frame_delay_ms(0), 10);
    assert_eq!(gif_frame_delay_ms(7), 70);
    assert_eq!(timestamp_delay_ms(100, 140), 40);
    assert_eq!(timestamp_delay_ms(100, 103), 10);
    assert_eq!(timestamp_delay_ms(100, 50), 10);
    assert_eq!(tick_delay_ms(3, 30, 1), 100);
    assert_eq!(tick_delay_ms(1, 1000, 1), 10);
    assert_eq!(tick_delay_ms(5, 0, 1), 100);
}

#[test]
fn one_frame_becomes_static() {
    let px = || RgbaImage::from_raw(1, 1, vec![1, 2, 3, 4]).unwrap();
    assert!(finish_frames(Vec::new()).is_none());
    let one = finish_frames(vec![Frame { image: px(), delay_ms: 50 }]).unwrap();
    assert!(matches!(one, LoadedImage::Static(_)));
    let two = finish_frames(vec![
        Frame { image: px(), delay_ms: 50 },
        Frame { image: px(), delay_ms: 60 },
    ])
    .unwrap();
    match two {
        LoadedImage::Animated { frames } => {
            assert_eq!(frames.len(), 2);
            assert_eq!(frames[1].delay_ms, 60);
        }
        _ => panic!("expected an animation"),
    }
}

#[test]
fn premultiplied_alpha_is_divided_out() {
    // two pixels per row, stride 12 (4 bytes of row padding): B, G, R, A
    let src = vec![
        10, 20, 30, 255, 0, 64, 128, 128, 0, 0, 0, 0, //
        5, 5, 5, 0, 255, 255, 255, 255, 0, 0, 0, 0,
    ];
    let img = unpremultiply_bgra(&src, 12, 2, 2);
    assert_eq!(img.dimensions(), (2, 2));
    assert_eq!(pixel_at(&img, 0, 0), [30, 20, 10, 255]);
    // 128 * 255 / 128 = 255, 64 * 255 / 128 = 127.5 -> 128 (rounded)
    assert_eq!(pixel_at(&img, 1, 0), [255, 128, 0, 128]);
    assert_eq!(pixel_at(&img, 0, 1), [0, 0, 0, 0]);
    assert_eq!(pixel_at(&img, 1, 1), [255, 255, 255, 255]);
}

#[test]
fn dct_scale_is_smallest_that_reaches_target() {
    assert_eq!(pick_dct_scale(4000, 3000, 200), (1, 8));
    assert_eq!(pick_dct_scale(1000, 700, 200), (1, 2));
    assert_eq!(pick_dct_scale(1000, 795, 200), (1, 2));
    // 797 / 4 rounds up to 200
    assert_eq!(pick_dct_scale(1000, 797, 200), (1, 4));
    assert_eq!(pick_dct_scale(1000, 800, 200), (1, 4));
    assert_eq!(pick_dct_scale(150, 150, 200), (1, 1));
    // 1601 / 8 rounds up to 201
    assert_eq!(pick_dct_scale(1601, 1593, 200), (1, 8));
}
