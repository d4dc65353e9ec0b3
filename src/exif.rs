use vstd::prelude::*;
use crate::bytes::{u16_at, u32_at, i32_at, in_bounds, fits, read_u16, read_u32, read_i32};
use crate::text::{digit_char, digit, dec, dec_signed, push_char, push_str, push_dec, push_dec_signed};
use crate::tiff::{tiff_header, entry_pos, parse_tiff_header};

verus! {

/// A displayed metadata entry: label and formatted value.
pub type TagText = (Seq<char>, Seq<char>);

/// What a list of entries shows.
pub open spec fn tags_view(v: Seq<(String, String)>) -> Seq<TagText> {
    v.map_values(|p: (String, String)| (p.0@, p.1@))
}

/// Which table of known tags an IFD is read with.
#[derive(Clone, Copy, PartialEq, Eq, Structural)]
pub enum TagTable {
    /// The main image directory.
    Ifd0,
    /// The EXIF sub-directory.
    Exif,
}

/// Label of a known tag of the main image directory.
pub open spec fn ifd0_label(tag: int) -> Option<Seq<char>> {
    if tag == 0x010F { Some("Make"@) }
    else if tag == 0x0110 { Some("Model"@) }
    else if tag == 0x0112 { Some("Orientation"@) }
    else if tag == 0x011A { Some("X Resolution"@) }
    else if tag == 0x011B { Some("Y Resolution"@) }
    else if tag == 0x0131 { Some("Software"@) }
    else if tag == 0x0132 { Some("Date/Time"@) }
    else if tag == 0x013B { Some("Artist"@) }
    else if tag == 0x8298 { Some("Copyright"@) }
    else { None }
}

/// Label of a known tag of the EXIF sub-directory.
pub open spec fn exif_label(tag: int) -> Option<Seq<char>> {
    if tag == 0x829A { Some("Exposure Time"@) }
    else if tag == 0x829D { Some("F-Number"@) }
    else if tag == 0x8827 { Some("ISO"@) }
    else if tag == 0x9003 { Some("Date Original"@) }
    else if tag == 0x9004 { Some("Date Digitized"@) }
    else if tag == 0x9204 { Some("Exposure Bias"@) }
    else if tag == 0x9207 { Some("Metering Mode"@) }
    else if tag == 0x9209 { Some("Flash"@) }
    else if tag == 0x920A { Some("Focal Length"@) }
    else if tag == 0xA001 { Some("Color Space"@) }
    else if tag == 0xA002 { Some("Width"@) }
    else if tag == 0xA003 { Some("Height"@) }
    else if tag == 0xA402 { Some("Exposure Mode"@) }
    else if tag == 0xA403 { Some("White Balance"@) }
    else if tag == 0xA434 { Some("Lens Model"@) }
    else { None }
}

pub open spec fn label_of(table: TagTable, tag: int) -> Option<Seq<char>> {
    match table {
        TagTable::Ifd0 => ifd0_label(tag),
        TagTable::Exif => exif_label(tag),
    }
}

fn label(table: TagTable, tag: u16) -> (r: Option<&'static str>)
    ensures
        r matches Some(s) ==> label_of(table, tag as int) == Some(s@),
        r is None ==> label_of(table, tag as int) is None,
{
    match table {
        TagTable::Ifd0 => match tag {
            0x010F => Some("Make"),
            0x0110 => Some("Model"),
            0x0112 => Some("Orientation"),
            0x011A => Some("X Resolution"),
            0x011B => Some("Y Resolution"),
            0x0131 => Some("Software"),
            0x0132 => Some("Date/Time"),
            0x013B => Some("Artist"),
            0x8298 => Some("Copyright"),
            _ => None,
        },
        TagTable::Exif => match tag {
            0x829A => Some("Exposure Time"),
            0x829D => Some("F-Number"),
            0x8827 => Some("ISO"),
            0x9003 => Some("Date Original"),
            0x9004 => Some("Date Digitized"),
            0x9204 => Some("Exposure Bias"),
            0x9207 => Some("Metering Mode"),
            0x9209 => Some("Flash"),
            0x920A => Some("Focal Length"),
            0xA001 => Some("Color Space"),
            0xA002 => Some("Width"),
            0xA003 => Some("Height"),
            0xA402 => Some("Exposure Mode"),
            0xA403 => Some("White Balance"),
            0xA434 => Some("Lens Model"),
            _ => None,
        },
    }
}

/// Display text of a SHORT value: named values for orientation, metering mode,
/// flash, color space, exposure mode and white balance; decimal otherwise.
pub open spec fn short_text(tag: int, v: int) -> Seq<char> {
    if tag == 0x0112 && 1 <= v <= 8 {
        if v == 1 { "Normal"@ }
        else if v == 2 { "Flipped horizontally"@ }
        else if v == 3 { "Rotated 180"@ }
        else if v == 4 { "Flipped vertically"@ }
        else if v == 5 { "Transposed"@ }
        else if v == 6 { "Rotated 90 CW"@ }
        else if v == 7 { "Transversed"@ }
        else { "Rotated 270 CW"@ }
    } else if tag == 0x9207 && 0 <= v <= 6 {
        if v == 0 { "Unknown"@ }
        else if v == 1 { "Average"@ }
        else if v == 2 { "Center-weighted"@ }
        else if v == 3 { "Spot"@ }
        else if v == 4 { "Multi-spot"@ }
        else if v == 5 { "Pattern"@ }
        else { "Partial"@ }
    } else if tag == 0x9209 {
        if v % 2 == 0 { "No flash"@ } else { "Flash fired"@ }
    } else if tag == 0xA001 && v == 1 {
        "sRGB"@
    } else if tag == 0xA001 && v == 0xFFFF {
        "Uncalibrated"@
    } else if tag == 0xA402 && 0 <= v <= 2 {
        if v == 0 { "Auto"@ } else if v == 1 { "Manual"@ } else { "Auto bracket"@ }
    } else if tag == 0xA403 && 0 <= v <= 1 {
        if v == 0 { "Auto"@ } else { "Manual"@ }
    } else {
        dec(v as nat)
    }
}

pub fn format_tag_short(tag: u16, val: u32) -> (r: String)
    ensures
        r@ == short_text(tag as int, val as int),
{
    let named: Option<&str> = match tag {
        0x0112 => match val {
            1 => Some("Normal"),
            2 => Some("Flipped horizontally"),
            3 => Some("Rotated 180"),
            4 => Some("Flipped vertically"),
            5 => Some("Transposed"),
            6 => Some("Rotated 90 CW"),
            7 => Some("Transversed"),
            8 => Some("Rotated 270 CW"),
            _ => None,
        },
        0x9207 => match val {
            0 => Some("Unknown"),
            1 => Some("Average"),
            2 => Some("Center-weighted"),
            3 => Some("Spot"),
            4 => Some("Multi-spot"),
            5 => Some("Pattern"),
            6 => Some("Partial"),
            _ => None,
        },
        0x9209 => if val % 2 == 0 { Some("No flash") } else { Some("Flash fired") },
        0xA001 => match val {
            1 => Some("sRGB"),
            0xFFFF => Some("Uncalibrated"),
            _ => None,
        },
        0xA402 => match val {
            0 => Some("Auto"),
            1 => Some("Manual"),
            2 => Some("Auto bracket"),
            _ => None,
        },
        0xA403 => match val {
            0 => Some("Auto"),
            1 => Some("Manual"),
            _ => None,
        },
        _ => None,
    };
    let mut s = String::new();
    match named {
        Some(t) => push_str(&mut s, t),
        None => push_dec(&mut s, val as u64),
    }
    assert(s@ =~= short_text(tag as int, val as int));
    s
}

/// Distance between `a` and `b`.
pub open spec fn dist(a: int, b: int) -> int {
    if a >= b { a - b } else { b - a }
}

/// `n / d` to at most two decimals: no decimals when it lies within 0.01 of a
/// whole number, one when within 0.01 tenths of a tenth, else two; each figure
/// rounded half up.
pub open spec fn decimal_text(n: int, d: int) -> Seq<char> {
    let r0 = (2 * n + d) / (2 * d);
    let r1 = (20 * n + d) / (2 * d);
    let r2 = (200 * n + d) / (2 * d);
    if 100 * dist(n, r0 * d) < d {
        dec(r0 as nat)
    } else if 100 * dist(10 * n, r1 * d) < d {
        dec((r1 / 10) as nat) + seq!['.', digit(r1 % 10)]
    } else {
        dec((r2 / 100) as nat) + seq!['.', digit((r2 / 10) % 10), digit(r2 % 10)]
    }
}

fn udist(a: u128, b: u128) -> (r: u128)
    ensures
        r == dist(a as int, b as int),
{
    if a >= b { a - b } else { b - a }
}

proof fn lemma_round_bound(n: int, d: int, k: int)
    requires
        0 <= n <= 0x1_0000_0000,
        1 <= d <= 0x1_0000_0000,
        1 <= k <= 100,
    ensures
        0 <= (2 * k * n + d) / (2 * d) <= 2 * k * n + d,
        0 <= ((2 * k * n + d) / (2 * d)) * d <= (2 * k * n + d) * 0x1_0000_0000,
{
    let a = 2 * k * n + d;
    assert(a >= 0) by (nonlinear_arith) requires a == 2 * k * n + d, 0 <= n, 1 <= k, 1 <= d;
    assert(0 <= a / (2 * d) <= a) by (nonlinear_arith) requires a >= 0, d >= 1;
    let q = a / (2 * d);
    assert(0 <= q * d <= a * 0x1_0000_0000) by (nonlinear_arith) requires q == a / (2 * d), 0 <= q <= a, 1 <= d <= 0x1_0000_0000;
}

/// Appends [`decimal_text`] of `n / d`.
pub fn push_decimal(s: &mut String, n: u64, d: u64)
    requires
        n <= 0x1_0000_0000,
        1 <= d <= 0x1_0000_0000,
    ensures
        final(s)@ == old(s)@ + decimal_text(n as int, d as int),
{
    proof {
        lemma_round_bound(n as int, d as int, 1);
        lemma_round_bound(n as int, d as int, 10);
        lemma_round_bound(n as int, d as int, 100);
    }
    let nn = n as u128;
    let dd = d as u128;
    let r0 = (2 * nn + dd) / (2 * dd);
    let r1 = (20 * nn + dd) / (2 * dd);
    let r2 = (200 * nn + dd) / (2 * dd);
    let ghost start = s@;
    if 100 * udist(nn, r0 * dd) < dd {
        push_dec(s, r0 as u64);
    } else if 100 * udist(10 * nn, r1 * dd) < dd {
        push_dec(s, (r1 / 10) as u64);
        push_char(s, '.');
        push_char(s, digit_char((r1 % 10) as u64));
        assert(s@ =~= start + decimal_text(n as int, d as int));
    } else {
        push_dec(s, (r2 / 100) as u64);
        push_char(s, '.');
        push_char(s, digit_char(((r2 / 10) % 10) as u64));
        push_char(s, digit_char((r2 % 10) as u64));
        assert(s@ =~= start + decimal_text(n as int, d as int));
    }
}


/// Display text of an unsigned RATIONAL value `num / den`.
pub open spec fn rational_text(tag: int, num: int, den: int) -> Seq<char> {
    if den == 0 {
        "0"@
    } else if tag == 0x829A {
        if num == 0 {
            "0s"@
        } else if num >= den {
            decimal_text(num, den) + "s"@
        } else {
            "1/"@ + dec((den / num) as nat) + "s"@
        }
    } else if tag == 0x829D {
        "f/"@ + decimal_text(num, den)
    } else if tag == 0x920A {
        decimal_text(num, den) + "mm"@
    } else if tag == 0x011A || tag == 0x011B {
        dec((num / den) as nat) + " dpi"@
    } else if den == 1 {
        dec(num as nat)
    } else {
        dec(num as nat) + "/"@ + dec(den as nat)
    }
}

pub fn format_rational(tag: u16, num: u32, den: u32) -> (r: String)
    ensures
        r@ == rational_text(tag as int, num as int, den as int),
{
    let mut s = String::new();
    if den == 0 {
        push_str(&mut s, "0");
    } else if tag == 0x829A {
        if num == 0 {
            push_str(&mut s, "0s");
        } else if num >= den {
            push_decimal(&mut s, num as u64, den as u64);
            push_str(&mut s, "s");
        } else {
            push_str(&mut s, "1/");
            push_dec(&mut s, (den / num) as u64);
            push_str(&mut s, "s");
        }
    } else if tag == 0x829D {
        push_str(&mut s, "f/");
        push_decimal(&mut s, num as u64, den as u64);
    } else if tag == 0x920A {
        push_decimal(&mut s, num as u64, den as u64);
        push_str(&mut s, "mm");
    } else if tag == 0x011A || tag == 0x011B {
        push_dec(&mut s, (num / den) as u64);
        push_str(&mut s, " dpi");
    } else if den == 1 {
        push_dec(&mut s, num as u64);
    } else {
        push_dec(&mut s, num as u64);
        push_str(&mut s, "/");
        push_dec(&mut s, den as u64);
    }
    assert(s@ =~= rational_text(tag as int, num as int, den as int));
    s
}

pub open spec fn abs(v: int) -> int {
    if v < 0 { -v } else { v }
}

/// Display text of a signed SRATIONAL value `num / den`; exposure bias is shown
/// with its sign and "EV".
pub open spec fn srational_text(tag: int, num: int, den: int) -> Seq<char> {
    if den == 0 {
        "0"@
    } else if tag == 0x9204 {
        let sign = if num == 0 || (num > 0) == (den > 0) { "+"@ } else { "-"@ };
        sign + decimal_text(abs(num), abs(den)) + " EV"@
    } else if den == 1 {
        dec_signed(num)
    } else {
        dec_signed(num) + "/"@ + dec_signed(den)
    }
}

pub fn format_srational(tag: u16, num: i32, den: i32) -> (r: String)
    ensures
        r@ == srational_text(tag as int, num as int, den as int),
{
    let (num, den) = (num as i64, den as i64);
    let mut s = String::new();
    if den == 0 {
        push_str(&mut s, "0");
    } else if tag == 0x9204 {
        if num == 0 || (num > 0) == (den > 0) {
            push_str(&mut s, "+");
        } else {
            push_str(&mut s, "-");
        }
        let an: u64 = if num < 0 { (-num) as u64 } else { num as u64 };
        let ad: u64 = if den < 0 { (-den) as u64 } else { den as u64 };
        push_decimal(&mut s, an, ad);
        push_str(&mut s, " EV");
    } else if den == 1 {
        push_dec_signed(&mut s, num);
    } else {
        push_dec_signed(&mut s, num);
        push_str(&mut s, "/");
        push_dec_signed(&mut s, den);
    }
    assert(s@ =~= srational_text(tag as int, num as int, den as int));
    s
}

/// Size in bytes of one value of TIFF field type `t` (0 for unknown types up to 10).
pub open spec fn type_size(t: int) -> int {
    if t == 1 || t == 2 || t == 6 || t == 7 { 1 }
    else if t == 3 || t == 8 { 2 }
    else if t == 4 || t == 9 { 4 }
    else if t == 5 || t == 10 { 8 }
    else { 0 }
}

/// How one byte of an ASCII field is shown: printable ASCII as itself, else '?'.
pub open spec fn shown_char(b: u8) -> char {
    if 0x20 <= b <= 0x7E { b as char } else { '?' }
}

/// An ASCII field up to its first NUL byte.
pub open spec fn ascii_text(b: Seq<u8>) -> Seq<char>
    decreases b.len(),
{
    if b.len() == 0 || b[0] == 0 {
        Seq::empty()
    } else {
        seq![shown_char(b[0])] + ascii_text(b.drop_first())
    }
}

/// Where a field's value lies: in the entry's last four bytes at `vo` when it
/// fits there, else at the offset those bytes hold.
pub open spec fn value_pos(d: Seq<u8>, vo: int, dtype: int, count: int, le: bool) -> int {
    if type_size(dtype) * count <= 4 { vo } else { u32_at(d, vo, le) }
}

/// Display text of the value of an entry whose last four bytes are at `vo`; none
/// for types that are not shown, or when the value lies past the end.
pub open spec fn tag_value(d: Seq<u8>, vo: int, dtype: int, count: int, le: bool, tag: int) -> Option<Seq<char>> {
    let p = value_pos(d, vo, dtype, count, le);
    if dtype == 2 {
        if p + count > d.len() { None } else { Some(ascii_text(d.subrange(p, p + count))) }
    } else if dtype == 3 {
        if !in_bounds(d.len() as int, p, 2) { None } else { Some(short_text(tag, u16_at(d, p, le))) }
    } else if dtype == 4 {
        if !in_bounds(d.len() as int, p, 4) { None } else { Some(dec(u32_at(d, p, le) as nat)) }
    } else if dtype == 5 {
        if !in_bounds(d.len() as int, p, 8) { None } else {
            Some(rational_text(tag, u32_at(d, p, le), u32_at(d, p + 4, le)))
        }
    } else if dtype == 10 {
        if !in_bounds(d.len() as int, p, 8) { None } else {
            Some(srational_text(tag, i32_at(d, p, le), i32_at(d, p + 4, le)))
        }
    } else {
        None
    }
}

fn shown(b: u8) -> (c: char)
    ensures
        c == shown_char(b),
{
    if 0x20 <= b && b <= 0x7E { b as char } else { '?' }
}

/// Text of the ASCII field `d[start..end]`.
fn ascii_field(d: &[u8], start: usize, end: usize) -> (r: String)
    requires
        start <= end <= d@.len(),
    ensures
        r@ == ascii_text(d@.subrange(start as int, end as int)),
{
    let mut s = String::new();
    let mut i: usize = start;
    while i < end
        invariant
            start <= i <= end <= d@.len(),
            ascii_text(d@.subrange(start as int, end as int)) == s@ + ascii_text(d@.subrange(i as int, end as int)),
        decreases end - i,
    {
        let b = d[i];
        assert(d@.subrange(i as int, end as int).drop_first() =~= d@.subrange(i + 1, end as int));
        if b == 0 {
            assert(s@ + ascii_text(d@.subrange(i as int, end as int)) =~= s@);
            return s;
        }
        let ghost before = s@;
        push_char(&mut s, shown(b));
        assert(before + ascii_text(d@.subrange(i as int, end as int)) =~= s@ + ascii_text(d@.subrange(i + 1, end as int)));
        i = i + 1;
    }
    assert(s@ + ascii_text(d@.subrange(i as int, end as int)) =~= s@);
    s
}

fn type_size_of(t: u16) -> (r: u64)
    ensures
        r == type_size(t as int),
{
    match t {
        1 | 2 | 6 | 7 => 1,
        3 | 8 => 2,
        4 | 9 => 4,
        5 | 10 => 8,
        _ => 0,
    }
}

/// Display text of the value of the entry whose last four bytes are at `vo`.
pub fn read_tag_value(d: &[u8], vo: usize, dtype: u16, count: u32, le: bool, tag: u16) -> (r: Option<String>)
    requires
        in_bounds(d@.len() as int, vo as int, 4),
    ensures
        r matches Some(s) ==> tag_value(d@, vo as int, dtype as int, count as int, le, tag as int) == Some(s@),
        r is None ==> tag_value(d@, vo as int, dtype as int, count as int, le, tag as int) is None,
{
    let len: usize = d.len();
    let ts: u64 = type_size_of(dtype);
    assert(ts * (count as u64) <= 8 * 0xffff_ffff) by (nonlinear_arith)
        requires ts <= 8, count <= 0xffff_ffffu32;
    let p: usize = if ts * (count as u64) <= 4 {
        vo
    } else {
        match read_u32(d, vo, le) {
            Some(v) => v as usize,
            None => return None,
        }
    };
    if dtype == 2 {
        if !fits(d, p, count as usize) {
            return None;
        }
        Some(ascii_field(d, p, p + count as usize))
    } else if dtype == 3 {
        match read_u16(d, p, le) {
            Some(v) => Some(format_tag_short(tag, v as u32)),
            None => None,
        }
    } else if dtype == 4 {
        match read_u32(d, p, le) {
            Some(v) => {
                let mut s = String::new();
                push_dec(&mut s, v as u64);
                assert(s@ =~= dec(v as nat));
                Some(s)
            },
            None => None,
        }
    } else if dtype == 5 {
        if !fits(d, p, 8) {
            return None;
        }
        let num = match read_u32(d, p, le) { Some(v) => v, None => return None };
        let den = match read_u32(d, p + 4, le) { Some(v) => v, None => return None };
        Some(format_rational(tag, num, den))
    } else if dtype == 10 {
        if !fits(d, p, 8) {
            return None;
        }
        let num = match read_i32(d, p, le) { Some(v) => v as i32, None => return None };
        let den = match read_i32(d, p + 4, le) { Some(v) => v as i32, None => return None };
        Some(format_srational(tag, num, den))
    } else {
        None
    }
}

/// Tags shown so far, and the EXIF and GPS sub-directory offsets seen so far.
pub type Walk = (Seq<TagText>, Option<int>, Option<int>);

/// The walk over entries `i..n` of the IFD at `ifd`, read with `table`, after `acc`.
/// The EXIF (0x8769) and GPS (0x8825) pointer entries record an offset (the last
/// one wins); a known tag whose value reads as non-empty text adds an entry; the
/// walk stops at the first entry that does not fit.
pub open spec fn ifd_walk(d: Seq<u8>, le: bool, ifd: int, i: int, n: int, table: TagTable, acc: Walk) -> Walk
    decreases n - i,
{
    if i >= n || !in_bounds(d.len() as int, entry_pos(ifd, i), 12) {
        acc
    } else {
        let e = entry_pos(ifd, i);
        let tag = u16_at(d, e, le);
        let next: Walk = if tag == 0x8769 {
            (acc.0, Some(u32_at(d, e + 8, le)), acc.2)
        } else if tag == 0x8825 {
            (acc.0, acc.1, Some(u32_at(d, e + 8, le)))
        } else {
            match label_of(table, tag) {
                None => acc,
                Some(l) => match tag_value(d, e + 8, u16_at(d, e + 2, le), u32_at(d, e + 4, le), le, tag) {
                    None => acc,
                    Some(v) => if v.len() > 0 { (acc.0.push((l, v)), acc.1, acc.2) } else { acc },
                },
            }
        };
        ifd_walk(d, le, ifd, i + 1, n, table, next)
    }
}

/// The walk over the whole IFD at `off`; nothing when its count does not fit.
pub open spec fn ifd_parse(d: Seq<u8>, le: bool, off: int, table: TagTable) -> Walk {
    if !in_bounds(d.len() as int, off, 2) {
        (Seq::empty(), None, None)
    } else {
        ifd_walk(d, le, off, 0, u16_at(d, off, le), table, (Seq::empty(), None, None))
    }
}

pub open spec fn opt_int(o: Option<u32>) -> Option<int> {
    match o {
        Some(v) => Some(v as int),
        None => None,
    }
}

proof fn lemma_view_push(v: Seq<(String, String)>, x: (String, String))
    ensures
        tags_view(v.push(x)) == tags_view(v).push((x.0@, x.1@)),
{
    assert(tags_view(v.push(x)) =~= tags_view(v).push((x.0@, x.1@)));
}

/// Walks one IFD, reading known tags with `table`; gives the entries shown and the
/// EXIF and GPS sub-directory offsets found.
pub fn parse_ifd_tags(d: &[u8], off: usize, le: bool, table: TagTable) -> (r: (Vec<(String, String)>, Option<u32>, Option<u32>))
    ensures
        (tags_view(r.0@), opt_int(r.1), opt_int(r.2)) == ifd_parse(d@, le, off as int, table),
{
    let mut tags: Vec<(String, String)> = Vec::new();
    let mut exif: Option<u32> = None;
    let mut gps: Option<u32> = None;
    assert(tags_view(tags@) =~= Seq::<TagText>::empty());
    if !fits(d, off, 2) {
        return (tags, exif, gps);
    }
    let count: usize = match read_u16(d, off, le) {
        Some(v) => v as usize,
        None => return (tags, exif, gps),
    };
    let len: usize = d.len();
    let entries: usize = off + 2;
    let mut i: usize = 0;
    while i < count
        invariant
            in_bounds(d@.len() as int, off as int, 2),
            count as int == u16_at(d@, off as int, le),
            count <= 65535,
            len == d@.len(),
            entries == off + 2,
            0 <= i <= count,
            ifd_parse(d@, le, off as int, table) == ifd_walk(d@, le, off as int, i as int, count as int, table, (tags_view(tags@), opt_int(exif), opt_int(gps))),
        decreases count - i,
    {
        if !fits(d, entries, 12 * i + 12) {
            return (tags, exif, gps);
        }
        let e: usize = entries + 12 * i;
        let tag = match read_u16(d, e, le) { Some(v) => v, None => return (tags, exif, gps) };
        let dtype = match read_u16(d, e + 2, le) { Some(v) => v, None => return (tags, exif, gps) };
        let n = match read_u32(d, e + 4, le) { Some(v) => v, None => return (tags, exif, gps) };
        if tag == 0x8769 {
            exif = read_u32(d, e + 8, le);
        } else if tag == 0x8825 {
            gps = read_u32(d, e + 8, le);
        } else {
            match label(table, tag) {
                None => {},
                Some(l) => match read_tag_value(d, e + 8, dtype, n, le, tag) {
                    None => {},
                    Some(v) => {
                        if !v.as_str().is_empty() {
                            let ghost old_tags = tags@;
                            let entry = (String::from_str(l), v);
                            tags.push(entry);
                            proof {
                                lemma_view_push(old_tags, entry);
                            }
                        }
                    },
                },
            }
        }
        i = i + 1;
    }
    (tags, exif, gps)
}

/// Degrees, minutes and seconds of a GPS coordinate, each a RATIONAL as stored.
#[derive(Clone, Copy, PartialEq, Eq, Structural)]
pub struct Dms {
    pub deg_n: u32,
    pub deg_d: u32,
    pub min_n: u32,
    pub min_d: u32,
    pub sec_n: u32,
    pub sec_d: u32,
}

/// What the GPS directory walk has found so far.
#[derive(Clone, Copy)]
pub struct GpsFix {
    pub lat_ref: Option<u8>,
    pub lon_ref: Option<u8>,
    pub lat: Option<Dms>,
    pub lon: Option<Dms>,
    /// Altitude as numerator and (non-zero) denominator.
    pub alt: Option<(u32, u32)>,
}

/// Three RATIONALs at `p`, or none when any of them lies past the end.
pub open spec fn dms_at(d: Seq<u8>, p: int, le: bool) -> Option<Dms> {
    if !in_bounds(d.len() as int, p, 24) {
        None
    } else {
        Some(Dms {
            deg_n: u32_at(d, p, le) as u32,
            deg_d: u32_at(d, p + 4, le) as u32,
            min_n: u32_at(d, p + 8, le) as u32,
            min_d: u32_at(d, p + 12, le) as u32,
            sec_n: u32_at(d, p + 16, le) as u32,
            sec_d: u32_at(d, p + 20, le) as u32,
        })
    }
}

/// `v`, or 1 when `v` is zero.
pub open spec fn nz(v: int) -> int {
    if v == 0 { 1 } else { v }
}

/// The GPS walk over entries `i..n` of the IFD at `ifd`, after `acc`: latitude and
/// longitude references (tags 1, 3), coordinates (tags 2, 4, three RATIONALs) and
/// altitude (tag 6); later entries replace earlier ones.
pub open spec fn gps_walk(d: Seq<u8>, le: bool, ifd: int, i: int, n: int, acc: GpsFix) -> GpsFix
    decreases n - i,
{
    if i >= n || !in_bounds(d.len() as int, entry_pos(ifd, i), 12) {
        acc
    } else {
        gps_walk(d, le, ifd, i + 1, n, gps_step(d, le, entry_pos(ifd, i), acc))
    }
}

/// What the GPS entry at `e` changes in `acc`.
pub open spec fn gps_step(d: Seq<u8>, le: bool, e: int, acc: GpsFix) -> GpsFix {
    let tag = u16_at(d, e, le);
    let dtype = u16_at(d, e + 2, le);
    let count = u32_at(d, e + 4, le);
    let p = value_pos(d, e + 8, dtype, count, le);
    if dtype > 10 {
        acc
    } else if tag == 1 {
        if p < d.len() { GpsFix { lat_ref: Some(d[p]), ..acc } } else { acc }
    } else if tag == 2 {
        if dtype == 5 && count == 3 { GpsFix { lat: dms_at(d, p, le), ..acc } } else { acc }
    } else if tag == 3 {
        if p < d.len() { GpsFix { lon_ref: Some(d[p]), ..acc } } else { acc }
    } else if tag == 4 {
        if dtype == 5 && count == 3 { GpsFix { lon: dms_at(d, p, le), ..acc } } else { acc }
    } else if tag == 6 && dtype == 5 {
        let num = if in_bounds(d.len() as int, p, 4) { u32_at(d, p, le) } else { 0 };
        let den = if in_bounds(d.len() as int, p + 4, 4) { nz(u32_at(d, p + 4, le)) } else { 1 };
        GpsFix { alt: Some((num as u32, den as u32)), ..acc }
    } else {
        acc
    }
}

pub open spec fn no_fix() -> GpsFix {
    GpsFix { lat_ref: None, lon_ref: None, lat: None, lon: None, alt: None }
}

/// Six digits of `m` (below one million), zero-padded.
pub open spec fn six_digits(m: int) -> Seq<char> {
    seq![
        digit(m / 100000),
        digit((m / 10000) % 10),
        digit((m / 1000) % 10),
        digit((m / 100) % 10),
        digit((m / 10) % 10),
        digit(m % 10),
    ]
}

/// A coordinate in millionths of a degree, rounded half up from
/// `deg + min / 60 + sec / 3600` (each term taken to the billionth, rounded down).
pub open spec fn micro_degrees(c: Dms) -> int {
    let nano = c.deg_n as int * 1_000_000_000 / nz(c.deg_d as int) + c.min_n as int * 1_000_000_000
        / (60 * nz(c.min_d as int)) + c.sec_n as int * 1_000_000_000 / (3600 * nz(c.sec_d as int));
    (nano + 500) / 1000
}

/// Signed decimal degrees with six decimals.
pub open spec fn coord_text(c: Dms, negative: bool) -> Seq<char> {
    let m = micro_degrees(c);
    (if negative { "-"@ } else { Seq::empty() }) + dec((m / 1_000_000) as nat) + seq!['.']
        + six_digits(m % 1_000_000)
}

/// Altitude in metres with one decimal, rounded half up.
pub open spec fn altitude_text(num: int, den: int) -> Seq<char> {
    let t = (20 * num + nz(den)) / (2 * nz(den));
    dec((t / 10) as nat) + seq!['.', digit(t % 10), 'm']
}

/// Entries shown for a GPS fix: the position when both coordinates and both
/// references were found (south and west negative), then the altitude.
pub open spec fn gps_entries(f: GpsFix) -> Seq<TagText> {
    let pos: Seq<TagText> = match (f.lat, f.lat_ref, f.lon, f.lon_ref) {
        (Some(la), Some(lr), Some(lo), Some(or)) => seq![
            ("GPS"@, coord_text(la, lr == 0x53u8) + ", "@ + coord_text(lo, or == 0x57u8)),
        ],
        _ => Seq::empty(),
    };
    match f.alt {
        Some((n, d)) => pos.push(("Altitude"@, altitude_text(n as int, d as int))),
        None => pos,
    }
}

/// The entries shown for the GPS directory at `off`.
pub open spec fn gps_tags(d: Seq<u8>, le: bool, off: int) -> Seq<TagText> {
    if !in_bounds(d.len() as int, off, 2) {
        Seq::empty()
    } else {
        gps_entries(gps_walk(d, le, off, 0, u16_at(d, off, le), no_fix()))
    }
}

fn read_dms(d: &[u8], p: usize, le: bool) -> (r: Option<Dms>)
    ensures
        r == dms_at(d@, p as int, le),
{
    let len: usize = d.len();
    if !fits(d, p, 24) {
        return None;
    }
    let deg_n = match read_u32(d, p, le) { Some(v) => v, None => return None };
    let deg_d = match read_u32(d, p + 4, le) { Some(v) => v, None => return None };
    let min_n = match read_u32(d, p + 8, le) { Some(v) => v, None => return None };
    let min_d = match read_u32(d, p + 12, le) { Some(v) => v, None => return None };
    let sec_n = match read_u32(d, p + 16, le) { Some(v) => v, None => return None };
    let sec_d = match read_u32(d, p + 20, le) { Some(v) => v, None => return None };
    Some(Dms { deg_n, deg_d, min_n, min_d, sec_n, sec_d })
}

fn push_six_digits(s: &mut String, m: u64)
    requires
        m < 1_000_000,
    ensures
        final(s)@ == old(s)@ + six_digits(m as int),
{
    push_char(s, digit_char(m / 100000));
    push_char(s, digit_char((m / 10000) % 10));
    push_char(s, digit_char((m / 1000) % 10));
    push_char(s, digit_char((m / 100) % 10));
    push_char(s, digit_char((m / 10) % 10));
    push_char(s, digit_char(m % 10));
    assert(final(s)@ =~= old(s)@ + six_digits(m as int));
}

fn push_coord(s: &mut String, c: Dms, negative: bool)
    ensures
        final(s)@ == old(s)@ + coord_text(c, negative),
{
    let dd: u64 = if c.deg_d == 0 { 1 } else { c.deg_d as u64 };
    let md: u64 = if c.min_d == 0 { 1 } else { c.min_d as u64 };
    let sd: u64 = if c.sec_d == 0 { 1 } else { c.sec_d as u64 };
    proof {
        assert(c.deg_n * 1_000_000_000 <= 0xffff_ffff * 1_000_000_000) by (nonlinear_arith)
            requires c.deg_n <= 0xffff_ffffu32;
        assert(c.min_n * 1_000_000_000 <= 0xffff_ffff * 1_000_000_000) by (nonlinear_arith)
            requires c.min_n <= 0xffff_ffffu32;
        assert(c.sec_n * 1_000_000_000 <= 0xffff_ffff * 1_000_000_000) by (nonlinear_arith)
            requires c.sec_n <= 0xffff_ffffu32;
    }
    let a: u64 = c.deg_n as u64 * 1_000_000_000 / dd;
    let b: u64 = c.min_n as u64 * 1_000_000_000 / (60 * md);
    let e: u64 = c.sec_n as u64 * 1_000_000_000 / (3600 * sd);
    proof {
        let (an, bn, en) = (c.deg_n as int, c.min_n as int, c.sec_n as int);
        assert(a as int <= an * 1_000_000_000) by (nonlinear_arith)
            requires a as int == an * 1_000_000_000 / (dd as int), dd >= 1, an >= 0;
        assert(b as int <= bn * 1_000_000_000) by (nonlinear_arith)
            requires b as int == bn * 1_000_000_000 / (60 * md as int), md >= 1, bn >= 0;
        assert(e as int <= en * 1_000_000_000) by (nonlinear_arith)
            requires e as int == en * 1_000_000_000 / (3600 * sd as int), sd >= 1, en >= 0;
    }
    let nano: u128 = a as u128 + b as u128 + e as u128;
    let m: u128 = (nano + 500) / 1000;
    assert(m / 1_000_000 <= 0xffff_ffff_ffff);
    assert(m as int == micro_degrees(c));
    if negative {
        push_char(s, '-');
    }
    let ghost mid = s@;
    assert(mid =~= old(s)@ + (if negative { "-"@ } else { Seq::<char>::empty() })) by {
        reveal_strlit("-");
    }
    let whole: u64 = (m / 1_000_000) as u64;
    let frac: u64 = (m % 1_000_000) as u64;
    push_dec(s, whole);
    push_char(s, '.');
    push_six_digits(s, frac);
    assert(whole as int == micro_degrees(c) / 1_000_000);
    assert(frac as int == micro_degrees(c) % 1_000_000);
    assert(final(s)@ =~= old(s)@ + coord_text(c, negative));
}

fn push_altitude(s: &mut String, num: u32, den0: u32)
    ensures
        final(s)@ == old(s)@ + altitude_text(num as int, den0 as int),
{
    let den: u32 = if den0 == 0 { 1 } else { den0 };
    let t: u64 = (20 * num as u64 + den as u64) / (2 * den as u64);
    proof {
        assert(t as int <= 20 * num as int + den as int) by (nonlinear_arith)
            requires t as int == (20 * num as int + den as int) / (2 * den as int), den >= 1, num >= 0;
    }
    push_dec(s, t / 10);
    push_char(s, '.');
    push_char(s, digit_char(t % 10));
    push_char(s, 'm');
    assert(final(s)@ =~= old(s)@ + altitude_text(num as int, den0 as int));
}

/// Applies the GPS entry at `e` to `f`.
fn gps_entry(d: &[u8], e: usize, le: bool, f: GpsFix) -> (r: GpsFix)
    requires
        in_bounds(d@.len() as int, e as int, 12),
    ensures
        r == gps_step(d@, le, e as int, f),
{
    let len: usize = d.len();
    let tag = match read_u16(d, e, le) { Some(v) => v, None => return f };
    let dtype = match read_u16(d, e + 2, le) { Some(v) => v, None => return f };
    let count = match read_u32(d, e + 4, le) { Some(v) => v, None => return f };
    if dtype > 10 {
        return f;
    }
    let ts: u64 = type_size_of(dtype);
    assert(ts * (count as u64) <= 8 * 0xffff_ffff) by (nonlinear_arith)
        requires ts <= 8, count <= 0xffff_ffffu32;
    let p: usize = if ts * (count as u64) <= 4 {
        e + 8
    } else {
        match read_u32(d, e + 8, le) { Some(v) => v as usize, None => return f }
    };
    if tag == 1 {
        if p < len { GpsFix { lat_ref: Some(d[p]), ..f } } else { f }
    } else if tag == 2 {
        if dtype == 5 && count == 3 { GpsFix { lat: read_dms(d, p, le), ..f } } else { f }
    } else if tag == 3 {
        if p < len { GpsFix { lon_ref: Some(d[p]), ..f } } else { f }
    } else if tag == 4 {
        if dtype == 5 && count == 3 { GpsFix { lon: read_dms(d, p, le), ..f } } else { f }
    } else if tag == 6 && dtype == 5 {
        let num: u32 = match read_u32(d, p, le) { Some(v) => v, None => 0 };
        let den: u32 = if fits(d, p, 8) {
            match read_u32(d, p + 4, le) { Some(v) => if v == 0 { 1 } else { v }, None => 1 }
        } else {
            1
        };
        GpsFix { alt: Some((num, den)), ..f }
    } else {
        f
    }
}

/// Appends the entries shown for the GPS directory at `off`.
pub fn parse_gps_tags(d: &[u8], off: usize, le: bool, tags: &mut Vec<(String, String)>)
    ensures
        tags_view(final(tags)@) == tags_view(old(tags)@) + gps_tags(d@, le, off as int),
{
    let mut f = GpsFix { lat_ref: None, lon_ref: None, lat: None, lon: None, alt: None };
    if fits(d, off, 2) {
        let count: usize = match read_u16(d, off, le) { Some(v) => v as usize, None => 0 };
        let len: usize = d.len();
        let entries: usize = off + 2;
        let mut i: usize = 0;
        while i < count
            invariant
                in_bounds(d@.len() as int, off as int, 2),
                count as int == u16_at(d@, off as int, le),
                count <= 65535,
                len == d@.len(),
                entries == off + 2,
                0 <= i <= count,
                gps_walk(d@, le, off as int, 0, count as int, no_fix()) == gps_walk(d@, le, off as int, i as int, count as int, f),
            decreases count - i,
        {
            if !fits(d, entries, 12 * i + 12) {
                i = count;
            } else {
                let e: usize = entries + 12 * i;
                f = gps_entry(d, e, le, f);
                i = i + 1;
            }
        }
    }
    let ghost fix = f;
    assert(gps_tags(d@, le, off as int) == gps_entries(fix));
    match (f.lat, f.lat_ref, f.lon, f.lon_ref) {
        (Some(la), Some(lr), Some(lo), Some(or)) => {
            let mut v = String::new();
            push_coord(&mut v, la, lr == 0x53);
            push_str(&mut v, ", ");
            push_coord(&mut v, lo, or == 0x57);
            let ghost old_tags = tags@;
            let entry = (String::from_str("GPS"), v);
            tags.push(entry);
            proof { lemma_view_push(old_tags, entry); }
        },
        _ => {},
    }
    match f.alt {
        Some((n, dd)) => {
            let mut v = String::new();
            push_altitude(&mut v, n, dd);
            let ghost old_tags = tags@;
            let entry = (String::from_str("Altitude"), v);
            tags.push(entry);
            proof { lemma_view_push(old_tags, entry); }
        },
        None => {},
    }
    assert(tags_view(tags@) =~= tags_view(old(tags)@) + gps_tags(d@, le, off as int));
}

/// Every entry shown for the TIFF structure `d`: IFD0's known tags, then those of
/// the EXIF sub-directory, then the GPS position and altitude.
pub open spec fn all_tags(d: Seq<u8>) -> Seq<TagText> {
    match tiff_header(d) {
        None => Seq::empty(),
        Some((le, ifd)) => {
            let w = ifd_parse(d, le, ifd, TagTable::Ifd0);
            let exif = match w.1 {
                Some(o) => ifd_parse(d, le, o, TagTable::Exif).0,
                None => Seq::empty(),
            };
            let gps = match w.2 {
                Some(o) => gps_tags(d, le, o),
                None => Seq::empty(),
            };
            w.0 + exif + gps
        },
    }
}

proof fn lemma_view_append(a: Seq<(String, String)>, b: Seq<(String, String)>)
    ensures
        tags_view(a + b) == tags_view(a) + tags_view(b),
{
    assert(tags_view(a + b) =~= tags_view(a) + tags_view(b));
}

/// Every entry shown for the TIFF structure `d`, whose header is at byte 0.
pub fn tags_in_tiff(d: &[u8]) -> (r: Vec<(String, String)>)
    ensures
        tags_view(r@) == all_tags(d@),
{
    let (le, ifd) = match parse_tiff_header(d) {
        Some(h) => h,
        None => {
            let v: Vec<(String, String)> = Vec::new();
            assert(tags_view(v@) =~= Seq::<TagText>::empty());
            return v;
        },
    };
    let (mut tags, exif, gps) = parse_ifd_tags(d, ifd, le, TagTable::Ifd0);
    let ghost t0 = tags@;
    match exif {
        Some(o) => {
            let (mut more, _, _) = parse_ifd_tags(d, o as usize, le, TagTable::Exif);
            let ghost m = more@;
            tags.append(&mut more);
            proof { lemma_view_append(t0, m); }
        },
        None => {
            assert(tags@ =~= t0 + Seq::<(String, String)>::empty());
            proof { lemma_view_append(t0, Seq::empty()); }
            assert(tags_view(Seq::<(String, String)>::empty()) =~= Seq::<TagText>::empty());
        },
    }
    match gps {
        Some(o) => parse_gps_tags(d, o as usize, le, &mut tags),
        None => {},
    }
    assert(tags_view(tags@) =~= all_tags(d@));
    tags
}

/// Every entry shown for the TIFF structure that starts at `tiff_offset` in `data`.
pub fn parse_all_exif_tags(data: &[u8], tiff_offset: usize) -> (r: Vec<(String, String)>)
    ensures
        tags_view(r@) == (if tiff_offset <= data@.len() {
            all_tags(data@.subrange(tiff_offset as int, data@.len() as int))
        } else {
            Seq::empty()
        }),
{
    if tiff_offset > data.len() {
        let v: Vec<(String, String)> = Vec::new();
        assert(tags_view(v@) =~= Seq::<TagText>::empty());
        return v;
    }
    tags_in_tiff(vstd::slice::slice_subrange(data, tiff_offset, data.len()))
}

} // verus!
