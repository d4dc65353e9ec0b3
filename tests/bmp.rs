use rimg::bmp::{decode_bmp, decode_bmp_limited, decode_bmp_pixels, BmpError};
use rimg::image::{LoadedImage, RgbaImage};

fn build_bmp(
    width: u32,
    height: i32,
    bpp: u16,
    compression: u32,
    color_table: &[[u8; 4]],
    pixel_data: &[u8],
) -> Vec<u8> {
    let dib_header_size: u32 = 40;
    let color_table_bytes = color_table.len() as u32 * 4;
    let data_offset = 14 + dib_header_size + color_table_bytes;
    let file_size = data_offset + pixel_data.len() as u32;

    let mut buf = Vec::with_capacity(file_size as usize);
    buf.extend_from_slice(b"BM");
    buf.extend_from_slice(&file_size.to_le_bytes());
    buf.extend_from_slice(&[0u8; 4]);
    buf.extend_from_slice(&data_offset.to_le_bytes());
    buf.extend_from_slice(&dib_header_size.to_le_bytes());
    buf.extend_from_slice(&(width as i32).to_le_bytes());
    buf.extend_from_slice(&height.to_le_bytes());
    buf.extend_from_slice(&1u16.to_le_bytes());
    buf.extend_from_slice(&bpp.to_le_bytes());
    buf.extend_from_slice(&compression.to_le_bytes());
    let image_size = pixel_data.len() as u32;
    buf.extend_from_slice(&image_size.to_le_bytes());
    buf.extend_from_slice(&[0u8; 8]);
    let clr_used = color_table.len() as u32;
    buf.extend_from_slice(&clr_used.to_le_bytes());
    buf.extend_from_slice(&0u32.to_le_bytes());
    for entry in color_table {
        buf.extend_from_slice(entry);
    }
    buf.extend_from_slice(pixel_data);
    buf
}

fn pixel_at(img: &RgbaImage, x: u32, y: u32) -> [u8; 4] {
    let off = ((y * img.width + x) * 4) as usize;
    [img.data[off], img.data[off + 1], img.data[off + 2], img.data[off + 3]]
}

fn two_by_two_24bit() -> Vec<u8> {
    let mut pixels = Vec::new();
    // file row 0 = image row 1 (bottom-up)
    pixels.extend_from_slice(&[255, 0, 0]);
    pixels.extend_from_slice(&[255, 255, 255]);
    pixels.extend_from_slice(&[0, 0]);
    // file row 1 = image row 0
    pixels.extend_from_slice(&[0, 0, 255]);
    pixels.extend_from_slice(&[0, 255, 0]);
    pixels.extend_from_slice(&[0, 0]);
    pixels
}

#[test]
fn test_bmp_24bit() {
    let bmp = build_bmp(2, 2, 24, 0, &[], &two_by_two_24bit());
    let result = decode_bmp(&bmp, "test").unwrap();
    let img = match result {
        LoadedImage::Static(img) => img,
        _ => panic!("Expected static image"),
    };
    assert_eq!(img.dimensions(), (2, 2));
    assert_eq!(pixel_at(&img, 0, 0), [255, 0, 0, 255]);
    assert_eq!(pixel_at(&img, 1, 0), [0, 255, 0, 255]);
    assert_eq!(pixel_at(&img, 0, 1), [0, 0, 255, 255]);
    assert_eq!(pixel_at(&img, 1, 1), [255, 255, 255, 255]);
}

#[test]
fn test_bmp_8bit() {
    let palette: Vec<[u8; 4]> = vec![
        [255, 0, 0, 0],
        [0, 255, 0, 0],
        [0, 0, 255, 0],
        [255, 255, 255, 0],
    ];
    let pixels = vec![2, 0, 0, 0];
    let bmp = build_bmp(2, 1, 8, 0, &palette, &pixels);
    let result = decode_bmp(&bmp, "test").unwrap();
    let img = match result {
        LoadedImage::Static(img) => img,
        _ => panic!("Expected static image"),
    };
    assert_eq!(img.dimensions(), (2, 1));
    assert_eq!(pixel_at(&img, 0, 0), [255, 0, 0, 255]);
    assert_eq!(pixel_at(&img, 1, 0), [0, 0, 255, 255]);
}

#[test]
fn test_bmp_4bit() {
    let palette: Vec<[u8; 4]> = vec![[0, 0, 0, 0], [255, 255, 255, 0]];
    let pixels = vec![0x10, 0x10, 0, 0];
    let bmp = build_bmp(3, 1, 4, 0, &palette, &pixels);
    let result = decode_bmp(&bmp, "test").unwrap();
    let img = match result {
        LoadedImage::Static(img) => img,
        _ => panic!("Expected static image"),
    };
    assert_eq!(img.dimensions(), (3, 1));
    assert_eq!(pixel_at(&img, 0, 0), [255, 255, 255, 255]);
    assert_eq!(pixel_at(&img, 1, 0), [0, 0, 0, 255]);
    assert_eq!(pixel_at(&img, 2, 0), [255, 255, 255, 255]);
}

#[test]
fn test_bmp_1bit() {
    let palette: Vec<[u8; 4]> = vec![[0, 0, 0, 0], [255, 255, 255, 0]];
    let pixels = vec![0xAA, 0, 0, 0];
    let bmp = build_bmp(8, 1, 1, 0, &palette, &pixels);
    let result = decode_bmp(&bmp, "test").unwrap();
    let img = match result {
        LoadedImage::Static(img) => img,
        _ => panic!("Expected static image"),
    };
    assert_eq!(img.dimensions(), (8, 1));
    assert_eq!(pixel_at(&img, 0, 0), [255, 255, 255, 255]);
    assert_eq!(pixel_at(&img, 1, 0), [0, 0, 0, 255]);
    assert_eq!(pixel_at(&img, 2, 0), [255, 255, 255, 255]);
    assert_eq!(pixel_at(&img, 3, 0), [0, 0, 0, 255]);
    assert_eq!(pixel_at(&img, 7, 0), [0, 0, 0, 255]);
}

#[test]
fn test_bmp_rle8_rejected() {
    let palette: Vec<[u8; 4]> = vec![[0, 0, 0, 0]; 2];
    let pixels = vec![0; 4];
    let bmp = build_bmp(2, 1, 8, 1, &palette, &pixels);
    let result = decode_bmp(&bmp, "test.bmp");
    assert!(result.is_err());
    assert!(result.unwrap_err().contains("BI_RLE8"));
}

#[test]
fn test_bmp_rle4_rejected() {
    let palette: Vec<[u8; 4]> = vec![[0, 0, 0, 0]; 2];
    let pixels = vec![0; 4];
    let bmp = build_bmp(2, 1, 4, 2, &palette, &pixels);
    let result = decode_bmp(&bmp, "test.bmp");
    assert!(result.is_err());
    assert!(result.unwrap_err().contains("BI_RLE4"));
}

#[test]
fn rle_rejected_at_every_depth() {
    let bmp = build_bmp(2, 2, 24, 1, &[], &two_by_two_24bit());
    assert_eq!(
        decode_bmp(&bmp, "a.bmp").err().unwrap(),
        "Unsupported BMP compression: BI_RLE8 in a.bmp"
    );
}

#[test]
fn top_down_rows_are_not_flipped() {
    let bmp = build_bmp(2, -2, 24, 0, &[], &two_by_two_24bit());
    let img = decode_bmp_pixels(&bmp, 1 << 28).unwrap();
    assert_eq!(pixel_at(&img, 0, 0), [0, 0, 255, 255]);
    assert_eq!(pixel_at(&img, 0, 1), [255, 0, 0, 255]);
}

#[test]
fn thirty_two_bit_keeps_alpha() {
    let pixels = vec![10, 20, 30, 40];
    let bmp = build_bmp(1, 1, 32, 0, &[], &pixels);
    let img = decode_bmp_pixels(&bmp, 1 << 28).unwrap();
    assert_eq!(pixel_at(&img, 0, 0), [30, 20, 10, 40]);
}

#[test]
fn pixel_ceiling_is_checked_before_decoding() {
    let bmp = build_bmp(2, 2, 24, 0, &[], &two_by_two_24bit());
    // exactly at the ceiling: accepted
    assert!(decode_bmp_pixels(&bmp, 4).is_ok());
    // one pixel over the ceiling: refused with the declared size
    assert_eq!(decode_bmp_pixels(&bmp, 3).err(), Some(BmpError::TooLarge { width: 2, height: 2 }));
    let msg = decode_bmp_limited(&bmp, "big.bmp", 3).err().unwrap();
    assert_eq!(msg, "BMP image too large: 2x2");
    // a header claiming a huge area is refused even though almost no data follows
    let huge = build_bmp(70000, 70000, 24, 0, &[], &[]);
    assert_eq!(
        decode_bmp_pixels(&huge, 1 << 28).err(),
        Some(BmpError::TooLarge { width: 70000, height: 70000 })
    );
}

#[test]
fn header_errors() {
    assert_eq!(decode_bmp_pixels(&[0u8; 10], 100).err(), Some(BmpError::TooSmall));
    let mut bmp = build_bmp(2, 2, 24, 0, &[], &two_by_two_24bit());
    bmp[0] = b'X';
    assert_eq!(decode_bmp_pixels(&bmp, 100).err(), Some(BmpError::NotBmp));
    let bmp = build_bmp(2, 0, 24, 0, &[], &[]);
    assert_eq!(decode_bmp_pixels(&bmp, 100).err(), Some(BmpError::InvalidDimensions));
    let bmp = build_bmp(2, 2, 24, 0, &[], &[0u8; 15]);
    assert_eq!(decode_bmp_pixels(&bmp, 100).err(), Some(BmpError::Truncated));
    let bmp = build_bmp(1, 1, 16, 0, &[], &[0u8; 4]);
    assert_eq!(decode_bmp_pixels(&bmp, 100).err(), Some(BmpError::UnknownDepth(16)));
    assert_eq!(decode_bmp(&bmp, "x").err().unwrap(), "Unknown BMP bit depth: 16");
}

#[test]
fn palette_errors() {
    let palette: Vec<[u8; 4]> = vec![[0, 0, 0, 0]; 3];
    let bmp = build_bmp(1, 1, 1, 0, &palette, &[0u8; 4]);
    assert_eq!(
        decode_bmp_pixels(&bmp, 100).err(),
        Some(BmpError::TooManyColors { used: 3, max: 2, bits: 1 })
    );
    assert_eq!(
        decode_bmp(&bmp, "p").err().unwrap(),
        "Invalid BMP color table: biClrUsed 3 exceeds max 2 for 1-bit"
    );
    let mut bmp = build_bmp(1, 1, 8, 0, &[[0, 0, 0, 0]], &[0u8; 4]);
    // claim four palette entries while only one precedes the 4 pixel bytes
    bmp[46] = 4;
    bmp.truncate(54 + 4 + 4);
    let n = bmp.len();
    bmp[n - 4..].copy_from_slice(&[0, 0, 0, 0]);
    assert_eq!(decode_bmp_pixels(&bmp, 100).err(), Some(BmpError::ColorTableTruncated));
}

#[test]
fn index_past_palette_stays_transparent() {
    let palette: Vec<[u8; 4]> = vec![[1, 2, 3, 0], [4, 5, 6, 0]];
    let bmp = build_bmp(2, 1, 8, 0, &palette, &[1, 7, 0, 0]);
    let img = decode_bmp_pixels(&bmp, 100).unwrap();
    assert_eq!(pixel_at(&img, 0, 0), [6, 5, 4, 255]);
    assert_eq!(pixel_at(&img, 1, 0), [0, 0, 0, 0]);
}
