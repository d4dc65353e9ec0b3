use vstd::prelude::*;
use crate::bytes::{u16_at, u32_at, in_bounds, four_at, fits, has4, read_u16, read_u32, copy_range};
use crate::tiff::{tiff_orientation, orientation_in_tiff};
use crate::exif::{TagText, tags_view, all_tags, tags_in_tiff};

verus! {

/// The six bytes "Exif\0\0" start at `p`.
pub open spec fn exif_sig_at(d: Seq<u8>, p: int) -> bool {
    four_at(d, p, 0x45, 0x78, 0x69, 0x66) && in_bounds(d.len() as int, p, 6) && d[p + 4] == 0u8
        && d[p + 5] == 0u8
}

/// A TIFF header ("II" then 42 little-endian, or "MM" then 42 big-endian) starts at `p`.
pub open spec fn tiff_magic_at(d: Seq<u8>, p: int) -> bool {
    four_at(d, p, 0x49, 0x49, 0x2A, 0x00) || four_at(d, p, 0x4D, 0x4D, 0x00, 0x2A)
}

/// 64-bit big-endian value at `off`.
pub open spec fn u64_be_at(d: Seq<u8>, off: int) -> int {
    u32_at(d, off, false) * 0x1_0000_0000 + u32_at(d, off + 4, false)
}

// ---------------------------------------------------------------- JPEG

/// Walks JPEG marker segments from `pos` for an APP1 segment whose payload starts
/// with "Exif\0\0"; gives the offset of the TIFF structure after that prefix.
/// The walk ends at Start-Of-Scan, at a byte that is not a marker, or at the end.
pub open spec fn jpeg_scan(d: Seq<u8>, pos: int) -> Option<int>
    decreases d.len() - pos, 1int,
{
    if pos < 0 || pos + 4 >= d.len() {
        None
    } else if d[pos] != 0xFFu8 {
        None
    } else if d[pos + 1] == 0xE1u8 {
        if pos + 10 > d.len() {
            None
        } else if exif_sig_at(d, pos + 4) {
            Some(pos + 10)
        } else {
            jpeg_next(d, pos)
        }
    } else if d[pos + 1] == 0xDAu8 {
        None
    } else {
        jpeg_next(d, pos)
    }
}

/// Continues the JPEG walk past the segment at `pos` (marker, length, payload).
pub open spec fn jpeg_next(d: Seq<u8>, pos: int) -> Option<int>
    decreases d.len() - pos, 0int,
{
    if pos < 0 || pos + 4 >= d.len() || pos + 2 + u16_at(d, pos + 2, false) > d.len() {
        None
    } else {
        jpeg_scan(d, pos + 2 + u16_at(d, pos + 2, false))
    }
}

/// Offset of the TIFF structure embedded in a JPEG file, if any.
pub open spec fn jpeg_tiff_start(d: Seq<u8>) -> Option<int> {
    if d.len() < 4 || d[0] != 0xFFu8 || d[1] != 0xD8u8 {
        None
    } else {
        jpeg_scan(d, 2)
    }
}

/// Finds where the TIFF structure of a JPEG file's EXIF segment starts.
pub fn jpeg_exif_offset(d: &[u8]) -> (r: Option<usize>)
    ensures
        r matches Some(p) ==> jpeg_tiff_start(d@) == Some(p as int) && p <= d@.len(),
        r is None ==> jpeg_tiff_start(d@) is None,
{
    let len: usize = d.len();
    if len < 4 || d[0] != 0xFF || d[1] != 0xD8 {
        return None;
    }
    let mut pos: usize = 2;
    while pos < len && len - pos > 4
        invariant
            len == d@.len(),
            jpeg_tiff_start(d@) == jpeg_scan(d@, pos as int),
        decreases len - pos,
    {
        if d[pos] != 0xFF {
            return None;
        }
        let marker = d[pos + 1];
        let seg: usize = match read_u16(d, pos + 2, false) {
            Some(v) => v as usize,
            None => return None,
        };
        if marker == 0xE1 {
            if !fits(d, pos + 4, 6) {
                return None;
            }
            if has4(d, pos + 4, 0x45, 0x78, 0x69, 0x66) && d[pos + 8] == 0 && d[pos + 9] == 0 {
                return Some(pos + 10);
            }
        } else if marker == 0xDA {
            return None;
        }
        if seg + 2 > len - pos {
            return None;
        }
        pos = pos + 2 + seg;
    }
    None
}

// ---------------------------------------------------------------- PNG

/// Walks PNG chunks (length, type, payload, CRC) from `pos` for one of type "eXIf".
pub open spec fn png_scan(d: Seq<u8>, pos: int) -> Option<Seq<u8>>
    decreases d.len() - pos,
{
    if pos < 0 || pos + 12 > d.len() {
        None
    } else if four_at(d, pos + 4, 0x65, 0x58, 0x49, 0x66) {
        if pos + 8 + u32_at(d, pos, false) > d.len() {
            None
        } else {
            Some(d.subrange(pos + 8, pos + 8 + u32_at(d, pos, false)))
        }
    } else if pos + 12 + u32_at(d, pos, false) > d.len() {
        None
    } else {
        png_scan(d, pos + 12 + u32_at(d, pos, false))
    }
}

/// The raw TIFF payload of a PNG file's eXIf chunk, if any.
pub open spec fn png_exif(d: Seq<u8>) -> Option<Seq<u8>> {
    if d.len() < 8 || !four_at(d, 0, 0x89, 0x50, 0x4E, 0x47) {
        None
    } else {
        png_scan(d, 8)
    }
}

/// Extracts the TIFF payload of a PNG file's eXIf chunk.
pub fn extract_png_exif(d: &[u8]) -> (r: Option<Vec<u8>>)
    ensures
        r matches Some(v) ==> png_exif(d@) == Some(v@),
        r is None ==> png_exif(d@) is None,
{
    let len: usize = d.len();
    if len < 8 || !has4(d, 0, 0x89, 0x50, 0x4E, 0x47) {
        return None;
    }
    let mut pos: usize = 8;
    while pos <= len && len - pos >= 12
        invariant
            len == d@.len(),
            png_exif(d@) == png_scan(d@, pos as int),
        decreases len - pos,
    {
        let size: usize = match read_u32(d, pos, false) {
            Some(v) => v as usize,
            None => return None,
        };
        if has4(d, pos + 4, 0x65, 0x58, 0x49, 0x66) {
            if size > len - (pos + 8) {
                return None;
            }
            return Some(copy_range(d, pos + 8, pos + 8 + size));
        }
        if size > len - (pos + 12) {
            return None;
        }
        pos = pos + 12 + size;
    }
    None
}

// ---------------------------------------------------------------- WebP

/// `p` without a leading "Exif\0\0", which some encoders add.
pub open spec fn strip_exif_prefix(p: Seq<u8>) -> Seq<u8> {
    if p.len() >= 6 && exif_sig_at(p, 0) {
        p.subrange(6, p.len() as int)
    } else {
        p
    }
}

/// Walks RIFF chunks (type, little-endian size, payload padded to even length)
/// from `pos` for one of type "EXIF".
pub open spec fn webp_scan(d: Seq<u8>, pos: int) -> Option<Seq<u8>>
    decreases d.len() - pos,
{
    if pos < 0 || pos + 8 > d.len() {
        None
    } else if four_at(d, pos, 0x45, 0x58, 0x49, 0x46) {
        if pos + 8 + u32_at(d, pos + 4, true) > d.len() {
            None
        } else {
            Some(strip_exif_prefix(d.subrange(pos + 8, pos + 8 + u32_at(d, pos + 4, true))))
        }
    } else if pos + 8 + u32_at(d, pos + 4, true) + u32_at(d, pos + 4, true) % 2 > d.len() {
        None
    } else {
        webp_scan(d, pos + 8 + u32_at(d, pos + 4, true) + u32_at(d, pos + 4, true) % 2)
    }
}

/// The TIFF payload of a WebP file's EXIF chunk, if any.
pub open spec fn webp_exif(d: Seq<u8>) -> Option<Seq<u8>> {
    if d.len() < 12 || !four_at(d, 0, 0x52, 0x49, 0x46, 0x46) || !four_at(
        d,
        8,
        0x57,
        0x45,
        0x42,
        0x50,
    ) {
        None
    } else {
        webp_scan(d, 12)
    }
}

/// Extracts the TIFF payload of a WebP file's EXIF chunk.
pub fn extract_webp_exif(d: &[u8]) -> (r: Option<Vec<u8>>)
    ensures
        r matches Some(v) ==> webp_exif(d@) == Some(v@),
        r is None ==> webp_exif(d@) is None,
{
    let len: usize = d.len();
    if len < 12 || !has4(d, 0, 0x52, 0x49, 0x46, 0x46) || !has4(d, 8, 0x57, 0x45, 0x42, 0x50) {
        return None;
    }
    let mut pos: usize = 12;
    while pos <= len && len - pos >= 8
        invariant
            len == d@.len(),
            webp_exif(d@) == webp_scan(d@, pos as int),
        decreases len - pos,
    {
        let size32: u32 = match read_u32(d, pos + 4, true) {
            Some(v) => v,
            None => return None,
        };
        let start: usize = pos + 8;
        if has4(d, pos, 0x45, 0x58, 0x49, 0x46) {
            if size32 as u64 > (len - start) as u64 {
                return None;
            }
            let size: usize = size32 as usize;
            let end: usize = start + size;
            if size >= 6 && has4(d, start, 0x45, 0x78, 0x69, 0x66) && d[start + 4] == 0 && d[start
                + 5] == 0 {
                let r = copy_range(d, start + 6, end);
                proof {
                    let p = d@.subrange(start as int, end as int);
                    assert(exif_sig_at(p, 0));
                    assert(r@ =~= p.subrange(6, p.len() as int));
                }
                return Some(r);
            }
            let r = copy_range(d, start, end);
            proof {
                let p = d@.subrange(start as int, end as int);
                if p.len() >= 6 && exif_sig_at(p, 0) {
                    assert(p[0] == d@[start as int]);
                    assert(p[1] == d@[start + 1]);
                    assert(p[2] == d@[start + 2]);
                    assert(p[3] == d@[start + 3]);
                    assert(p[4] == d@[start + 4]);
                    assert(p[5] == d@[start + 5]);
                }
            }
            return Some(r);
        }
        let padded: u64 = size32 as u64 + size32 as u64 % 2;
        if padded > (len - start) as u64 {
            return None;
        }
        pos = start + padded as usize;
    }
    None
}

// ---------------------------------------------------------------- ISOBMFF (AVIF, HEIC)

/// The first TIFF header inside a "meta" box body `m` that is preceded by a
/// 4-byte offset field, searched from `i`; gives the bytes from that header on.
pub open spec fn meta_scan(m: Seq<u8>, i: int) -> Option<Seq<u8>>
    decreases m.len() - i,
{
    if i < 0 || i + 10 >= m.len() {
        None
    } else if tiff_magic_at(m, i + 4) {
        Some(m.subrange(i + 4, m.len() as int))
    } else {
        meta_scan(m, i + 1)
    }
}

/// Size of the box at `pos`: to the end for size 0, the 64-bit field for size 1
/// (none if that field does not fit), else the 32-bit field.
pub open spec fn box_size(d: Seq<u8>, pos: int) -> Option<int> {
    if u32_at(d, pos, false) == 0 {
        Some(d.len() - pos)
    } else if u32_at(d, pos, false) == 1 {
        if pos + 16 > d.len() {
            None
        } else {
            Some(u64_be_at(d, pos + 8))
        }
    } else {
        Some(u32_at(d, pos, false))
    }
}

/// Walks top-level ISOBMFF boxes from `pos` for a "meta" box that holds a TIFF header.
pub open spec fn isobmff_scan(d: Seq<u8>, pos: int) -> Option<Seq<u8>>
    decreases d.len() - pos,
{
    if pos < 0 || pos + 8 > d.len() {
        None
    } else {
        match box_size(d, pos) {
            None => None,
            Some(size) => if size < 8 || pos + size > d.len() {
                None
            } else if four_at(d, pos + 4, 0x6D, 0x65, 0x74, 0x61) && size >= 12 && meta_scan(
                d.subrange(pos + 12, pos + size),
                0,
            ) is Some {
                meta_scan(d.subrange(pos + 12, pos + size), 0)
            } else {
                isobmff_scan(d, pos + size)
            },
        }
    }
}

/// Searches a meta box body for an embedded TIFF header.
pub fn find_exif_in_meta(m: &[u8]) -> (r: Option<Vec<u8>>)
    ensures
        r matches Some(v) ==> meta_scan(m@, 0) == Some(v@),
        r is None ==> meta_scan(m@, 0) is None,
{
    let len: usize = m.len();
    let mut i: usize = 0;
    while i < len && len - i > 10
        invariant
            len == m@.len(),
            meta_scan(m@, 0) == meta_scan(m@, i as int),
        decreases len - i,
    {
        if has4(m, i + 4, 0x49, 0x49, 0x2A, 0x00) || has4(m, i + 4, 0x4D, 0x4D, 0x00, 0x2A) {
            return Some(copy_range(m, i + 4, len));
        }
        i = i + 1;
    }
    None
}

/// Reads the size of the box at `pos`, as [`box_size`] gives it.
fn read_box_size(d: &[u8], pos: usize) -> (r: Option<u64>)
    requires
        in_bounds(d@.len() as int, pos as int, 8),
    ensures
        r matches Some(v) ==> box_size(d@, pos as int) == Some(v as int),
        r is None ==> box_size(d@, pos as int) is None,
{
    let len: usize = d.len();
    let size = match read_u32(d, pos, false) {
        Some(v) => v,
        None => return None,
    };
    if size == 0 {
        Some((d.len() - pos) as u64)
    } else if size == 1 {
        if !fits(d, pos, 16) {
            return None;
        }
        let hi = match read_u32(d, pos + 8, false) {
            Some(v) => v as u64,
            None => return None,
        };
        let lo = match read_u32(d, pos + 12, false) {
            Some(v) => v as u64,
            None => return None,
        };
        Some(hi * 0x1_0000_0000 + lo)
    } else {
        Some(size as u64)
    }
}

/// Extracts the TIFF structure embedded in the meta box of an AVIF or HEIC file.
pub fn extract_avif_exif(d: &[u8]) -> (r: Option<Vec<u8>>)
    ensures
        r matches Some(v) ==> isobmff_scan(d@, 0) == Some(v@),
        r is None ==> isobmff_scan(d@, 0) is None,
{
    let len: usize = d.len();
    let mut pos: usize = 0;
    while pos <= len && len - pos >= 8
        invariant
            len == d@.len(),
            isobmff_scan(d@, 0) == isobmff_scan(d@, pos as int),
        decreases len - pos,
    {
        let size64 = match read_box_size(d, pos) {
            Some(v) => v,
            None => return None,
        };
        if size64 < 8 || size64 > (len - pos) as u64 {
            return None;
        }
        let size: usize = size64 as usize;
        if has4(d, pos + 4, 0x6D, 0x65, 0x74, 0x61) && size >= 12 {
            let body = vstd::slice::slice_subrange(d, pos + 12, pos + size);
            let found = find_exif_in_meta(body);
            if found.is_some() {
                return found;
            }
        }
        pos = pos + size;
    }
    None
}

// ---------------------------------------------------------------- JPEG XL

/// The 12-byte JPEG XL container signature starts `d`.
pub open spec fn jxl_signature(d: Seq<u8>) -> bool {
    four_at(d, 0, 0x00, 0x00, 0x00, 0x0C) && four_at(d, 4, 0x4A, 0x58, 0x4C, 0x20) && four_at(
        d,
        8,
        0x0D,
        0x0A,
        0x87,
        0x0A,
    )
}

/// Header length of the box at `pos`: 16 when the 64-bit size field is used.
pub open spec fn box_header_len(d: Seq<u8>, pos: int) -> int {
    if u32_at(d, pos, false) == 1 {
        16
    } else {
        8
    }
}

/// The TIFF data of an "Exif" box payload: a 4-byte big-endian offset, then TIFF
/// data that starts that many bytes further.
pub open spec fn jxl_exif_payload(p: Seq<u8>) -> Option<Seq<u8>> {
    if p.len() < 8 {
        None
    } else if 4 + u32_at(p, 0, false) >= p.len() {
        None
    } else {
        Some(p.subrange(4 + u32_at(p, 0, false), p.len() as int))
    }
}

/// Walks JPEG XL container boxes from `pos` for one of type "Exif".
pub open spec fn jxl_scan(d: Seq<u8>, pos: int) -> Option<Seq<u8>>
    decreases d.len() - pos,
{
    if pos < 0 || pos + 8 > d.len() {
        None
    } else {
        match box_size(d, pos) {
            None => None,
            Some(size) => if size < box_header_len(d, pos) || pos + size > d.len() {
                None
            } else if four_at(d, pos + 4, 0x45, 0x78, 0x69, 0x66) {
                jxl_exif_payload(d.subrange(pos + box_header_len(d, pos), pos + size))
            } else {
                jxl_scan(d, pos + size)
            },
        }
    }
}

/// The TIFF data of a JPEG XL container's Exif box, if any.
pub open spec fn jxl_exif(d: Seq<u8>) -> Option<Seq<u8>> {
    if d.len() < 12 || !jxl_signature(d) {
        None
    } else {
        jxl_scan(d, 0)
    }
}

/// Extracts the TIFF data of a JPEG XL container's Exif box.
pub fn extract_jxl_exif(d: &[u8]) -> (r: Option<Vec<u8>>)
    ensures
        r matches Some(v) ==> jxl_exif(d@) == Some(v@),
        r is None ==> jxl_exif(d@) is None,
{
    let len: usize = d.len();
    if len < 12 || !has4(d, 0, 0x00, 0x00, 0x00, 0x0C) || !has4(d, 4, 0x4A, 0x58, 0x4C, 0x20)
        || !has4(d, 8, 0x0D, 0x0A, 0x87, 0x0A) {
        return None;
    }
    let mut pos: usize = 0;
    while pos <= len && len - pos >= 8
        invariant
            len == d@.len(),
            jxl_exif(d@) == jxl_scan(d@, pos as int),
        decreases len - pos,
    {
        let size64 = match read_box_size(d, pos) {
            Some(v) => v,
            None => return None,
        };
        let header: usize = match read_u32(d, pos, false) {
            Some(1) => 16,
            _ => 8,
        };
        if size64 < header as u64 || size64 > (len - pos) as u64 {
            return None;
        }
        let size: usize = size64 as usize;
        if has4(d, pos + 4, 0x45, 0x78, 0x69, 0x66) {
            let start: usize = pos + header;
            let end: usize = pos + size;
            if end - start < 8 {
                return None;
            }
            let off: usize = match read_u32(d, start, false) {
                Some(v) => v as usize,
                None => return None,
            };
            proof {
                let p = d@.subrange(start as int, end as int);
                assert(u32_at(p, 0, false) == u32_at(d@, start as int, false));
            }
            if off >= end - start - 4 {
                return None;
            }
            return Some(copy_range(d, start + 4 + off, end));
        }
        pos = pos + size;
    }
    None
}

// ---------------------------------------------------------------- orientation per container

/// Orientation from the EXIF segment of a JPEG file.
pub open spec fn jpeg_orientation(d: Seq<u8>) -> Option<u32> {
    match jpeg_tiff_start(d) {
        None => None,
        Some(s) => tiff_orientation(d.subrange(s, d.len() as int)),
    }
}

/// Orientation of a TIFF payload found by a container extractor.
pub open spec fn payload_orientation(p: Option<Seq<u8>>) -> Option<u32> {
    match p {
        None => None,
        Some(t) => tiff_orientation(t),
    }
}

/// EXIF orientation of a JPEG file.
pub fn read_exif_orientation(data: &[u8]) -> (r: Option<u32>)
    ensures
        r == jpeg_orientation(data@),
{
    match jpeg_exif_offset(data) {
        None => None,
        Some(start) => orientation_in_tiff(vstd::slice::slice_subrange(data, start, data.len())),
    }
}

/// EXIF orientation of a TIFF file, whose header is at byte 0.
pub fn read_exif_orientation_tiff(data: &[u8]) -> (r: Option<u32>)
    ensures
        r == tiff_orientation(data@),
{
    orientation_in_tiff(data)
}

/// EXIF orientation of a PNG file, from its eXIf chunk.
pub fn read_exif_orientation_png(data: &[u8]) -> (r: Option<u32>)
    ensures
        r == payload_orientation(png_exif(data@)),
{
    match extract_png_exif(data) {
        None => None,
        Some(t) => orientation_in_tiff(t.as_slice()),
    }
}

/// EXIF orientation of a WebP file, from its EXIF chunk.
pub fn read_exif_orientation_webp(data: &[u8]) -> (r: Option<u32>)
    ensures
        r == payload_orientation(webp_exif(data@)),
{
    match extract_webp_exif(data) {
        None => None,
        Some(t) => orientation_in_tiff(t.as_slice()),
    }
}

/// EXIF orientation of an AVIF or HEIC file, from its meta box.
pub fn read_exif_orientation_avif(data: &[u8]) -> (r: Option<u32>)
    ensures
        r == payload_orientation(isobmff_scan(data@, 0)),
{
    match extract_avif_exif(data) {
        None => None,
        Some(t) => orientation_in_tiff(t.as_slice()),
    }
}

/// EXIF orientation of a JPEG XL container, from its Exif box.
pub fn read_exif_orientation_jxl(data: &[u8]) -> (r: Option<u32>)
    ensures
        r == payload_orientation(jxl_exif(data@)),
{
    match extract_jxl_exif(data) {
        None => None,
        Some(t) => orientation_in_tiff(t.as_slice()),
    }
}

// ---------------------------------------------------------------- tag listing per container

/// Entries shown for the EXIF segment of a JPEG file.
pub open spec fn jpeg_tags(d: Seq<u8>) -> Seq<TagText> {
    match jpeg_tiff_start(d) {
        None => Seq::empty(),
        Some(s) => all_tags(d.subrange(s, d.len() as int)),
    }
}

/// Entries shown for a TIFF payload found by a container extractor.
pub open spec fn payload_tags(p: Option<Seq<u8>>) -> Seq<TagText> {
    match p {
        None => Seq::empty(),
        Some(t) => all_tags(t),
    }
}

fn tags_of(p: Option<Vec<u8>>) -> (r: Vec<(String, String)>)
    ensures
        tags_view(r@) == payload_tags(match p { Some(v) => Some(v@), None => None }),
{
    match p {
        Some(t) => tags_in_tiff(t.as_slice()),
        None => {
            let v: Vec<(String, String)> = Vec::new();
            assert(tags_view(v@) =~= Seq::<TagText>::empty());
            v
        },
    }
}

/// All EXIF entries of a JPEG file, formatted for display.
pub fn read_exif_tags(data: &[u8]) -> (r: Vec<(String, String)>)
    ensures
        tags_view(r@) == jpeg_tags(data@),
{
    match jpeg_exif_offset(data) {
        None => {
            let v: Vec<(String, String)> = Vec::new();
            assert(tags_view(v@) =~= Seq::<TagText>::empty());
            v
        },
        Some(start) => tags_in_tiff(vstd::slice::slice_subrange(data, start, data.len())),
    }
}

/// All EXIF entries of a TIFF file.
pub fn read_exif_tags_tiff(data: &[u8]) -> (r: Vec<(String, String)>)
    ensures
        tags_view(r@) == all_tags(data@),
{
    tags_in_tiff(data)
}

/// All EXIF entries of a PNG file.
pub fn read_exif_tags_png(data: &[u8]) -> (r: Vec<(String, String)>)
    ensures
        tags_view(r@) == payload_tags(png_exif(data@)),
{
    tags_of(extract_png_exif(data))
}

/// All EXIF entries of a WebP file.
pub fn read_exif_tags_webp(data: &[u8]) -> (r: Vec<(String, String)>)
    ensures
        tags_view(r@) == payload_tags(webp_exif(data@)),
{
    tags_of(extract_webp_exif(data))
}

/// All EXIF entries of an AVIF file.
pub fn read_exif_tags_avif(data: &[u8]) -> (r: Vec<(String, String)>)
    ensures
        tags_view(r@) == payload_tags(isobmff_scan(data@, 0)),
{
    tags_of(extract_avif_exif(data))
}

/// All EXIF entries of a HEIC or HEIF file, which shares the AVIF box layout.
pub fn read_exif_tags_heic(data: &[u8]) -> (r: Vec<(String, String)>)
    ensures
        tags_view(r@) == payload_tags(isobmff_scan(data@, 0)),
{
    tags_of(extract_avif_exif(data))
}

/// All EXIF entries of a JPEG XL container.
pub fn read_exif_tags_jxl(data: &[u8]) -> (r: Vec<(String, String)>)
    ensures
        tags_view(r@) == payload_tags(jxl_exif(data@)),
{
    tags_of(extract_jxl_exif(data))
}

} // verus!
