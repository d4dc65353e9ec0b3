use vstd::prelude::*;

verus! {

/// 16-bit value at `off`, little-endian when `le`, big-endian otherwise.
pub open spec fn u16_at(d: Seq<u8>, off: int, le: bool) -> int {
    if le {
        d[off] as int + 256 * d[off + 1] as int
    } else {
        256 * d[off] as int + d[off + 1] as int
    }
}

/// 32-bit value at `off`, little-endian when `le`, big-endian otherwise.
pub open spec fn u32_at(d: Seq<u8>, off: int, le: bool) -> int {
    if le {
        d[off] as int + 256 * d[off + 1] as int + 65536 * d[off + 2] as int + 16777216 * d[off
            + 3] as int
    } else {
        16777216 * d[off] as int + 65536 * d[off + 1] as int + 256 * d[off + 2] as int + d[off
            + 3] as int
    }
}

/// The 32-bit pattern at `off` read as a two's-complement signed value.
pub open spec fn i32_at(d: Seq<u8>, off: int, le: bool) -> int {
    if u32_at(d, off, le) >= 0x8000_0000 {
        u32_at(d, off, le) - 0x1_0000_0000
    } else {
        u32_at(d, off, le)
    }
}

/// `n` bytes starting at `off` lie inside a sequence of length `len`.
pub open spec fn in_bounds(len: int, off: int, n: int) -> bool {
    0 <= off && off + n <= len
}

/// Four bytes at `p` spell `a b c e`.
pub open spec fn four_at(d: Seq<u8>, p: int, a: u8, b: u8, c: u8, e: u8) -> bool {
    in_bounds(d.len() as int, p, 4) && d[p] == a && d[p + 1] == b && d[p + 2] == c && d[p + 3] == e
}

/// Whether `n` bytes from `off` fit in `d`, without overflowing.
pub fn fits(d: &[u8], off: usize, n: usize) -> (r: bool)
    ensures
        r == in_bounds(d@.len() as int, off as int, n as int),
{
    off <= d.len() && n <= d.len() - off
}

/// Executable form of [`four_at`].
pub fn has4(d: &[u8], p: usize, a: u8, b: u8, c: u8, e: u8) -> (r: bool)
    ensures
        r == four_at(d@, p as int, a, b, c, e),
{
    fits(d, p, 4) && d[p] == a && d[p + 1] == b && d[p + 2] == c && d[p + 3] == e
}

/// 16-bit read that fails softly past the end.
pub fn read_u16(d: &[u8], off: usize, le: bool) -> (r: Option<u16>)
    ensures
        r is Some <==> in_bounds(d@.len() as int, off as int, 2),
        r matches Some(v) ==> v as int == u16_at(d@, off as int, le),
{
    if !fits(d, off, 2) {
        return None;
    }
    let b0 = d[off] as u16;
    let b1 = d[off + 1] as u16;
    if le {
        Some(b0 + 256 * b1)
    } else {
        Some(256 * b0 + b1)
    }
}

/// 32-bit read that fails softly past the end.
pub fn read_u32(d: &[u8], off: usize, le: bool) -> (r: Option<u32>)
    ensures
        r is Some <==> in_bounds(d@.len() as int, off as int, 4),
        r matches Some(v) ==> v as int == u32_at(d@, off as int, le),
{
    if !fits(d, off, 4) {
        return None;
    }
    let b0 = d[off] as u32;
    let b1 = d[off + 1] as u32;
    let b2 = d[off + 2] as u32;
    let b3 = d[off + 3] as u32;
    if le {
        Some(b0 + 256 * b1 + 65536 * b2 + 16777216 * b3)
    } else {
        Some(16777216 * b0 + 65536 * b1 + 256 * b2 + b3)
    }
}

/// Signed 32-bit read that fails softly past the end.
pub fn read_i32(d: &[u8], off: usize, le: bool) -> (r: Option<i64>)
    ensures
        r is Some <==> in_bounds(d@.len() as int, off as int, 4),
        r matches Some(v) ==> v as int == i32_at(d@, off as int, le),
{
    match read_u32(d, off, le) {
        None => None,
        Some(u) => {
            if u >= 0x8000_0000 {
                Some(u as i64 - 0x1_0000_0000i64)
            } else {
                Some(u as i64)
            }
        },
    }
}

/// A copy of `d[start..end]`.
pub fn copy_range(d: &[u8], start: usize, end: usize) -> (r: Vec<u8>)
    requires
        start <= end <= d@.len(),
    ensures
        r@ == d@.subrange(start as int, end as int),
{
    vstd::slice::slice_to_vec(vstd::slice::slice_subrange(d, start, end))
}

} // verus!
