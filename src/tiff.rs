use vstd::prelude::*;
use crate::bytes::{u16_at, u32_at, in_bounds, fits, read_u16, read_u32};

verus! {

/// The EXIF orientation tag.
pub const TAG_ORIENTATION: u16 = 0x0112;

/// Byte order named by the first two bytes of a TIFF structure: `Some(true)` for
/// "II" (little-endian), `Some(false)` for "MM" (big-endian).
pub open spec fn byte_order(d: Seq<u8>) -> Option<bool> {
    if d.len() >= 2 && d[0] == 0x49u8 && d[1] == 0x49u8 {
        Some(true)
    } else if d.len() >= 2 && d[0] == 0x4Du8 && d[1] == 0x4Du8 {
        Some(false)
    } else {
        None
    }
}

/// Byte order and IFD0 offset of a TIFF structure that starts at byte 0 of `d`:
/// at least 8 bytes, a byte-order mark, then the magic number 42.
pub open spec fn tiff_header(d: Seq<u8>) -> Option<(bool, int)> {
    if d.len() < 8 {
        None
    } else {
        match byte_order(d) {
            None => None,
            Some(le) => if u16_at(d, 2, le) != 42 {
                None
            } else {
                Some((le, u32_at(d, 4, le)))
            },
        }
    }
}

/// Offset of entry `i` of the IFD at `ifd`.
pub open spec fn entry_pos(ifd: int, i: int) -> int {
    ifd + 2 + 12 * i
}

/// The first of entries `i..n` of the IFD at `ifd` that carries the orientation
/// tag, read from its inline value; the walk stops at the first entry that does
/// not fit in `d`.
pub open spec fn scan_orientation(d: Seq<u8>, le: bool, ifd: int, i: int, n: int) -> Option<u32>
    decreases n - i,
{
    if i >= n || !in_bounds(d.len() as int, entry_pos(ifd, i), 12) {
        None
    } else if u16_at(d, entry_pos(ifd, i), le) == TAG_ORIENTATION as int {
        Some(u16_at(d, entry_pos(ifd, i) + 8, le) as u32)
    } else {
        scan_orientation(d, le, ifd, i + 1, n)
    }
}

/// Orientation value held in IFD0 of the TIFF structure `d`, if any.
pub open spec fn tiff_orientation(d: Seq<u8>) -> Option<u32> {
    match tiff_header(d) {
        None => None,
        Some((le, ifd)) => if !in_bounds(d.len() as int, ifd, 2) {
            None
        } else {
            scan_orientation(d, le, ifd, 0, u16_at(d, ifd, le))
        },
    }
}

/// Reads the byte order and IFD0 offset of a TIFF structure.
pub fn parse_tiff_header(d: &[u8]) -> (r: Option<(bool, usize)>)
    ensures
        r matches Some((le, off)) ==> tiff_header(d@) == Some((le, off as int)),
        r is None ==> tiff_header(d@) is None,
{
    if d.len() < 8 {
        return None;
    }
    let le = if d[0] == 0x49 && d[1] == 0x49 {
        true
    } else if d[0] == 0x4D && d[1] == 0x4D {
        false
    } else {
        return None;
    };
    let magic = match read_u16(d, 2, le) {
        Some(v) => v,
        None => return None,
    };
    if magic != 42 {
        return None;
    }
    match read_u32(d, 4, le) {
        Some(v) => Some((le, v as usize)),
        None => None,
    }
}

/// Orientation tag of the TIFF structure `d`, read from IFD0 (the fast path used
/// when only the geometric correction is needed).
pub fn orientation_in_tiff(d: &[u8]) -> (r: Option<u32>)
    ensures
        r == tiff_orientation(d@),
{
    let (le, ifd) = match parse_tiff_header(d) {
        Some(h) => h,
        None => return None,
    };
    if !fits(d, ifd, 2) {
        return None;
    }
    let count = match read_u16(d, ifd, le) {
        Some(v) => v as usize,
        None => return None,
    };
    let len: usize = d.len();
    let entries: usize = ifd + 2;
    let mut i: usize = 0;
    while i < count
        invariant
            tiff_header(d@) == Some((le, ifd as int)),
            in_bounds(d@.len() as int, ifd as int, 2),
            count as int == u16_at(d@, ifd as int, le),
            count <= 65535,
            len == d@.len(),
            entries == ifd + 2,
            0 <= i <= count,
            tiff_orientation(d@) == scan_orientation(d@, le, ifd as int, i as int, count as int),
        decreases count - i,
    {
        if !fits(d, entries, 12 * i + 12) {
            return None;
        }
        let off: usize = entries + 12 * i;
        let tag = match read_u16(d, off, le) {
            Some(v) => v,
            None => return None,
        };
        if tag == TAG_ORIENTATION {
            return match read_u16(d, off + 8, le) {
                Some(v) => Some(v as u32),
                None => None,
            };
        }
        i = i + 1;
    }
    None
}

/// Orientation tag of the TIFF structure that starts at `tiff_offset` in `data`.
pub fn parse_tiff_orientation(data: &[u8], tiff_offset: usize) -> (r: Option<u32>)
    ensures
        r == (if tiff_offset <= data@.len() {
            tiff_orientation(data@.subrange(tiff_offset as int, data@.len() as int))
        } else {
            None
        }),
{
    if tiff_offset > data.len() {
        return None;
    }
    orientation_in_tiff(vstd::slice::slice_subrange(data, tiff_offset, data.len()))
}

} // verus!
