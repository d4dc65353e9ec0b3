use rimg::container::{
    read_exif_orientation, read_exif_orientation_avif, read_exif_orientation_jxl,
    read_exif_orientation_png, read_exif_orientation_tiff, read_exif_orientation_webp,
    read_exif_tags, read_exif_tags_avif, read_exif_tags_heic, read_exif_tags_jxl,
    read_exif_tags_png, read_exif_tags_tiff, read_exif_tags_webp,
};
use rimg::exif::{format_rational, format_srational, format_tag_short, parse_all_exif_tags};
use rimg::tiff::parse_tiff_orientation;

fn build_tiff_with_orientation(le: bool, orientation: u16) -> Vec<u8> {
    let mut buf = Vec::new();
    if le {
        buf.extend_from_slice(b"II");
    } else {
        buf.extend_from_slice(b"MM");
    }
    let magic: u16 = 42;
    let ifd_offset: u32 = 8;
    let entry_count: u16 = 1;
    let tag: u16 = 0x0112;
    let typ: u16 = 3;
    let count: u32 = 1;
    if le {
        buf.extend_from_slice(&magic.to_le_bytes());
        buf.extend_from_slice(&ifd_offset.to_le_bytes());
        buf.extend_from_slice(&entry_count.to_le_bytes());
        buf.extend_from_slice(&tag.to_le_bytes());
        buf.extend_from_slice(&typ.to_le_bytes());
        buf.extend_from_slice(&count.to_le_bytes());
        buf.extend_from_slice(&orientation.to_le_bytes());
    } else {
        buf.extend_from_slice(&magic.to_be_bytes());
        buf.extend_from_slice(&ifd_offset.to_be_bytes());
        buf.extend_from_slice(&entry_count.to_be_bytes());
        buf.extend_from_slice(&tag.to_be_bytes());
        buf.extend_from_slice(&typ.to_be_bytes());
        buf.extend_from_slice(&count.to_be_bytes());
        buf.extend_from_slice(&orientation.to_be_bytes());
    }
    buf.extend_from_slice(&[0, 0]);
    buf.extend_from_slice(&[0, 0, 0, 0]);
    buf
}

fn webp_with(tiff: &[u8], prefix: bool) -> Vec<u8> {
    let mut payload = Vec::new();
    if prefix {
        payload.extend_from_slice(b"Exif\0\0");
    }
    payload.extend_from_slice(tiff);
    let mut webp = Vec::new();
    webp.extend_from_slice(b"RIFF");
    webp.extend_from_slice(&((4 + 8 + 10 + 8 + payload.len()) as u32).to_le_bytes());
    webp.extend_from_slice(b"WEBP");
    // an odd-sized chunk before, to exercise padding
    webp.extend_from_slice(b"VP8X");
    webp.extend_from_slice(&9u32.to_le_bytes());
    webp.extend_from_slice(&[0u8; 10]);
    webp.extend_from_slice(b"EXIF");
    webp.extend_from_slice(&(payload.len() as u32).to_le_bytes());
    webp.extend_from_slice(&payload);
    if payload.len() % 2 != 0 {
        webp.push(0);
    }
    webp
}

fn png_with(tiff: &[u8]) -> Vec<u8> {
    let mut png = Vec::new();
    png.extend_from_slice(&[0x89, b'P', b'N', b'G', 0x0D, 0x0A, 0x1A, 0x0A]);
    png.extend_from_slice(&(tiff.len() as u32).to_be_bytes());
    png.extend_from_slice(b"eXIf");
    png.extend_from_slice(tiff);
    png.extend_from_slice(&[0, 0, 0, 0]);
    png
}

fn jpeg_with(tiff: &[u8]) -> Vec<u8> {
    let mut j = vec![0xFF, 0xD8];
    // an APP0 segment first
    j.extend_from_slice(&[0xFF, 0xE0, 0x00, 0x04, 0x4A, 0x46]);
    j.extend_from_slice(&[0xFF, 0xE1]);
    j.extend_from_slice(&((2 + 6 + tiff.len()) as u16).to_be_bytes());
    j.extend_from_slice(b"Exif\0\0");
    j.extend_from_slice(tiff);
    j.extend_from_slice(&[0xFF, 0xDA, 0x00, 0x02]);
    j
}

fn avif_with(tiff: &[u8]) -> Vec<u8> {
    let mut v = Vec::new();
    v.extend_from_slice(&16u32.to_be_bytes());
    v.extend_from_slice(b"ftypavif");
    v.extend_from_slice(&[0u8; 4]);
    let body_len = 4 + 4 + tiff.len() + 8;
    v.extend_from_slice(&((8 + body_len) as u32).to_be_bytes());
    v.extend_from_slice(b"meta");
    v.extend_from_slice(&[0u8; 4]);
    v.extend_from_slice(&[0u8; 4]);
    v.extend_from_slice(tiff);
    v.extend_from_slice(&[0u8; 8]);
    v
}

fn jxl_with(tiff: &[u8]) -> Vec<u8> {
    let mut v = vec![0x00, 0x00, 0x00, 0x0C, 0x4A, 0x58, 0x4C, 0x20, 0x0D, 0x0A, 0x87, 0x0A];
    v.extend_from_slice(&((8 + 4 + tiff.len()) as u32).to_be_bytes());
    v.extend_from_slice(b"Exif");
    v.extend_from_slice(&0u32.to_be_bytes());
    v.extend_from_slice(tiff);
    v
}

#[test]
fn test_exif_orientation_le() {
    let data = build_tiff_with_orientation(true, 6);
    assert_eq!(parse_tiff_orientation(&data, 0), Some(6));
}

#[test]
fn test_exif_orientation_be() {
    let data = build_tiff_with_orientation(false, 3);
    assert_eq!(parse_tiff_orientation(&data, 0), Some(3));
}

#[test]
fn test_exif_tags_le() {
    let data = build_tiff_with_orientation(true, 6);
    let tags = parse_all_exif_tags(&data, 0);
    let orient = tags.iter().find(|(label, _)| label == "Orientation");
    assert!(orient.is_some(), "Orientation tag not found in {:?}", tags);
}

#[test]
fn test_exif_tags_be() {
    let data = build_tiff_with_orientation(false, 1);
    let tags = parse_all_exif_tags(&data, 0);
    let orient = tags.iter().find(|(label, _)| label == "Orientation");
    assert!(orient.is_some(), "Orientation tag not found in {:?}", tags);
}

#[test]
fn test_exif_webp_extraction() {
    let tiff = build_tiff_with_orientation(true, 8);
    let exif_chunk_size = tiff.len() as u32;
    let mut webp = Vec::new();
    webp.extend_from_slice(b"RIFF");
    let riff_size = 4 + 8 + tiff.len();
    webp.extend_from_slice(&(riff_size as u32).to_le_bytes());
    webp.extend_from_slice(b"WEBP");
    webp.extend_from_slice(b"EXIF");
    webp.extend_from_slice(&exif_chunk_size.to_le_bytes());
    webp.extend_from_slice(&tiff);
    if tiff.len() % 2 != 0 {
        webp.push(0);
    }
    assert_eq!(read_exif_orientation_webp(&webp), Some(8));
}

#[test]
fn test_exif_png_extraction() {
    let tiff = build_tiff_with_orientation(false, 5);
    assert_eq!(read_exif_orientation_png(&png_with(&tiff)), Some(5));
}

#[test]
fn test_exif_tiff_direct() {
    let data = build_tiff_with_orientation(true, 2);
    assert_eq!(read_exif_orientation_tiff(&data), Some(2));
}

#[test]
fn test_exif_invalid_data() {
    assert_eq!(parse_tiff_orientation(&[0, 0, 0, 0], 0), None);
}

#[test]
fn test_exif_empty() {
    assert_eq!(parse_tiff_orientation(&[], 0), None);
}

#[test]
fn one_walker_every_container() {
    for le in [true, false] {
        for o in 1u16..=8 {
            let tiff = build_tiff_with_orientation(le, o);
            let want = Some(o as u32);
            assert_eq!(read_exif_orientation_tiff(&tiff), want);
            assert_eq!(read_exif_orientation_png(&png_with(&tiff)), want);
            assert_eq!(read_exif_orientation_webp(&webp_with(&tiff, false)), want);
            assert_eq!(read_exif_orientation_webp(&webp_with(&tiff, true)), want);
            assert_eq!(read_exif_orientation(&jpeg_with(&tiff)), want);
            assert_eq!(read_exif_orientation_avif(&avif_with(&tiff)), want);
            assert_eq!(read_exif_orientation_jxl(&jxl_with(&tiff)), want);
        }
    }
}

#[test]
fn tag_listing_through_every_container() {
    let tiff = build_tiff_with_orientation(false, 6);
    let want = vec![("Orientation".to_string(), "Rotated 90 CW".to_string())];
    assert_eq!(read_exif_tags_tiff(&tiff), want);
    assert_eq!(read_exif_tags_png(&png_with(&tiff)), want);
    assert_eq!(read_exif_tags_webp(&webp_with(&tiff, true)), want);
    assert_eq!(read_exif_tags(&jpeg_with(&tiff)), want);
    assert_eq!(read_exif_tags_avif(&avif_with(&tiff)), want);
    assert_eq!(read_exif_tags_heic(&avif_with(&tiff)), want);
    assert_eq!(read_exif_tags_jxl(&jxl_with(&tiff)), want);
}

#[test]
fn malformed_containers_give_nothing() {
    let tiff = build_tiff_with_orientation(true, 3);
    let mut png = png_with(&tiff);
    png[8..12].copy_from_slice(&1000u32.to_be_bytes());
    assert_eq!(read_exif_orientation_png(&png), None);
    assert!(read_exif_tags_png(&png).is_empty());
    assert_eq!(read_exif_orientation(&[0xFF, 0xD8, 0x00, 0x00, 0x00]), None);
    assert_eq!(read_exif_orientation_webp(b"RIFF\0\0\0\0WEBX"), None);
    assert_eq!(read_exif_orientation_jxl(&tiff), None);
    assert_eq!(parse_tiff_orientation(&tiff, 100), None);
    // IFD offset pointing past the end
    let mut bad = tiff.clone();
    bad[4] = 200;
    assert_eq!(parse_tiff_orientation(&bad, 0), None);
    assert!(parse_all_exif_tags(&bad, 0).is_empty());
}

/// A little-endian TIFF with IFD0 (Make, X Resolution, EXIF and GPS pointers),
/// an EXIF sub-IFD and a GPS IFD.
fn rich_tiff() -> Vec<u8> {
    let mut d = vec![0u8; 400];
    d[0..4].copy_from_slice(b"II\x2a\x00");
    d[4..8].copy_from_slice(&8u32.to_le_bytes());
    let put16 = |d: &mut Vec<u8>, at: usize, v: u16| d[at..at + 2].copy_from_slice(&v.to_le_bytes());
    let put32 = |d: &mut Vec<u8>, at: usize, v: u32| d[at..at + 4].copy_from_slice(&v.to_le_bytes());
    let entry = |d: &mut Vec<u8>, at: usize, tag: u16, typ: u16, count: u32, val: u32| {
        d[at..at + 2].copy_from_slice(&tag.to_le_bytes());
        d[at + 2..at + 4].copy_from_slice(&typ.to_le_bytes());
        d[at + 4..at + 8].copy_from_slice(&count.to_le_bytes());
        d[at + 8..at + 12].copy_from_slice(&val.to_le_bytes());
    };
    // IFD0 at 8 with 4 entries
    put16(&mut d, 8, 4);
    entry(&mut d, 10, 0x010F, 2, 6, 370); // Make -> "Canon\0" at 370
    entry(&mut d, 22, 0x011A, 5, 1, 380); // X Resolution -> 300/1 at 380
    entry(&mut d, 34, 0x8769, 4, 1, 100); // EXIF IFD at 100
    entry(&mut d, 46, 0x8825, 4, 1, 150); // GPS IFD at 150
    d[370..376].copy_from_slice(b"Canon\0");
    put32(&mut d, 380, 300);
    put32(&mut d, 384, 1);
    // EXIF IFD at 100 with 4 entries
    put16(&mut d, 100, 4);
    entry(&mut d, 102, 0x829A, 5, 1, 220); // Exposure 1/125
    entry(&mut d, 114, 0x829D, 5, 1, 228); // F 28/10
    entry(&mut d, 126, 0x9204, 10, 1, 236); // bias -1/3
    entry(&mut d, 138, 0x9209, 3, 1, 1); // flash fired (inline)
    put32(&mut d, 220, 1);
    put32(&mut d, 224, 125);
    put32(&mut d, 228, 28);
    put32(&mut d, 232, 10);
    d[236..240].copy_from_slice(&(-1i32).to_le_bytes());
    put32(&mut d, 240, 3);
    // GPS IFD at 150 with 5 entries, ending at 212
    put16(&mut d, 150, 5);
    let g = 152;
    entry(&mut d, g, 0x0001, 2, 2, u32::from_le_bytes([b'N', 0, 0, 0]));
    entry(&mut d, g + 12, 0x0002, 5, 3, 250);
    entry(&mut d, g + 24, 0x0003, 2, 2, u32::from_le_bytes([b'W', 0, 0, 0]));
    entry(&mut d, g + 36, 0x0004, 5, 3, 300);
    entry(&mut d, g + 48, 0x0006, 5, 1, 350);
    // 37 deg 46' 29.64" = 37.774900
    for (i, v) in [37u32, 1, 46, 1, 2964, 100].iter().enumerate() {
        put32(&mut d, 250 + 4 * i, *v);
    }
    // 122 deg 25' 9.84" = 122.419400
    for (i, v) in [122u32, 1, 25, 1, 984, 100].iter().enumerate() {
        put32(&mut d, 300 + 4 * i, *v);
    }
    put32(&mut d, 350, 1234);
    put32(&mut d, 354, 10);
    d
}

#[test]
fn full_listing_of_all_three_directories() {
    let tags = parse_all_exif_tags(&rich_tiff(), 0);
    let got: Vec<(&str, &str)> = tags.iter().map(|(a, b)| (a.as_str(), b.as_str())).collect();
    assert_eq!(
        got,
        vec![
            ("Make", "Canon"),
            ("X Resolution", "300 dpi"),
            ("Exposure Time", "1/125s"),
            ("F-Number", "f/2.8"),
            ("Exposure Bias", "-0.33 EV"),
            ("Flash", "Flash fired"),
            ("GPS", "37.774900, -122.419400"),
            ("Altitude", "123.4m"),
        ]
    );
}

#[test]
fn value_formatting() {
    assert_eq!(format_tag_short(0x0112, 3), "Rotated 180");
    assert_eq!(format_tag_short(0x0112, 9), "9");
    assert_eq!(format_tag_short(0x9207, 5), "Pattern");
    assert_eq!(format_tag_short(0x9209, 16), "No flash");
    assert_eq!(format_tag_short(0xA001, 0xFFFF), "Uncalibrated");
    assert_eq!(format_tag_short(0xA402, 2), "Auto bracket");
    assert_eq!(format_tag_short(0x8827, 400), "400");
    assert_eq!(format_rational(0x829A, 5, 2), "2.5s");
    assert_eq!(format_rational(0x829A, 0, 7), "0s");
    assert_eq!(format_rational(0x920A, 50, 1), "50mm");
    assert_eq!(format_rational(0x920A, 1, 3), "0.33mm");
    assert_eq!(format_rational(0x829D, 7, 0), "0");
    assert_eq!(format_rational(0x1234, 3, 4), "3/4");
    assert_eq!(format_rational(0x1234, 3, 1), "3");
    assert_eq!(format_srational(0x9204, 2, 3), "+0.67 EV");
    assert_eq!(format_srational(0x9204, 0, 1), "+0 EV");
    assert_eq!(format_srational(0x1234, -3, 4), "-3/4");
    assert_eq!(format_srational(0x1234, -3, 1), "-3");
}
