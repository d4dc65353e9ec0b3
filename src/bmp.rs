use vstd::prelude::*;
use crate::bytes::{u16_at, u32_at, i32_at, read_u16, read_u32, read_i32};
use crate::image::{RgbaImage, LoadedImage, MAX_PIXEL_COUNT, rgba_len, px_index, byte_at, lemma_u32_mul_fits};
use crate::text::{push_str, push_dec, dec};
use crate::orient::{lemma_px_bound, lemma_before_index, lemma_row_end, before};

verus! {

/// Why a BMP file was refused.
#[derive(Clone, Copy, PartialEq, Eq, Structural, Debug)]
pub enum BmpError {
    /// Shorter than the 54-byte file and info headers.
    TooSmall,
    /// Does not start with "BM".
    NotBmp,
    /// Width not positive, or height zero.
    InvalidDimensions,
    /// Width times height above the pixel ceiling.
    TooLarge { width: u32, height: u32 },
    /// Run-length encoding with 8-bit codes (compression 1).
    Rle8,
    /// Run-length encoding with 4-bit codes (compression 2).
    Rle4,
    /// Fewer bytes than the declared rows need.
    Truncated,
    /// More palette entries declared than the bit depth can index.
    TooManyColors { used: u32, max: u32, bits: u16 },
    /// The palette runs past the end of the file.
    ColorTableTruncated,
    /// A bit depth other than 1, 4, 8, 24 and 32.
    UnknownDepth(u16),
}

pub open spec fn data_offset(d: Seq<u8>) -> int {
    u32_at(d, 10, true)
}

pub open spec fn dib_size(d: Seq<u8>) -> int {
    u32_at(d, 14, true)
}

pub open spec fn bmp_width(d: Seq<u8>) -> int {
    i32_at(d, 18, true)
}

/// Declared height; negative for rows stored top-down.
pub open spec fn bmp_height(d: Seq<u8>) -> int {
    i32_at(d, 22, true)
}

pub open spec fn abs_height(d: Seq<u8>) -> int {
    if bmp_height(d) < 0 {
        -bmp_height(d)
    } else {
        bmp_height(d)
    }
}

pub open spec fn bit_depth(d: Seq<u8>) -> int {
    u16_at(d, 28, true)
}

pub open spec fn compression(d: Seq<u8>) -> int {
    u32_at(d, 30, true)
}

/// Bytes per stored row: the bits of one row rounded up to a multiple of 32.
pub open spec fn row_size(w: int, bits: int) -> int {
    ((w * bits + 31) / 32) * 4
}

pub open spec fn is_paletted(bits: int) -> bool {
    bits == 1 || bits == 4 || bits == 8
}

/// Palette entries in use: the declared count, or `2^bits` when that is zero.
pub open spec fn colors_used(d: Seq<u8>) -> int {
    if u32_at(d, 46, true) == 0 {
        pow2(bit_depth(d))
    } else {
        u32_at(d, 46, true)
    }
}

pub open spec fn pow2(bits: int) -> int {
    if bits == 1 {
        2
    } else if bits == 4 {
        16
    } else {
        256
    }
}

/// Start of the palette: right after the 14-byte file header and the info header.
pub open spec fn palette_start(d: Seq<u8>) -> int {
    14 + dib_size(d)
}

/// The checks a BMP file goes through before any pixel is decoded, in order,
/// with `max_pixels` as the pixel ceiling.
pub open spec fn bmp_check(d: Seq<u8>, max_pixels: int) -> Result<(), BmpError> {
    if d.len() < 54 {
        Err(BmpError::TooSmall)
    } else if d[0] != 0x42u8 || d[1] != 0x4Du8 {
        Err(BmpError::NotBmp)
    } else if bmp_width(d) <= 0 || bmp_height(d) == 0 {
        Err(BmpError::InvalidDimensions)
    } else if bmp_width(d) * abs_height(d) > max_pixels {
        Err(BmpError::TooLarge { width: bmp_width(d) as u32, height: abs_height(d) as u32 })
    } else if compression(d) == 1 {
        Err(BmpError::Rle8)
    } else if compression(d) == 2 {
        Err(BmpError::Rle4)
    } else if data_offset(d) + row_size(bmp_width(d), bit_depth(d)) * abs_height(d) > d.len() {
        Err(BmpError::Truncated)
    } else if !(is_paletted(bit_depth(d)) || bit_depth(d) == 24 || bit_depth(d) == 32) {
        Err(BmpError::UnknownDepth(bit_depth(d) as u16))
    } else if is_paletted(bit_depth(d)) && colors_used(d) > pow2(bit_depth(d)) {
        Err(
            BmpError::TooManyColors {
                used: colors_used(d) as u32,
                max: pow2(bit_depth(d)) as u32,
                bits: bit_depth(d) as u16,
            },
        )
    } else if is_paletted(bit_depth(d)) && palette_start(d) + colors_used(d) * 4 > d.len() {
        Err(BmpError::ColorTableTruncated)
    } else {
        Ok(())
    }
}

/// File row that holds image row `y`: rows are stored bottom-up unless the
/// declared height is negative.
pub open spec fn src_row(d: Seq<u8>, y: int) -> int {
    if bmp_height(d) > 0 {
        abs_height(d) - 1 - y
    } else {
        y
    }
}

pub open spec fn row_start(d: Seq<u8>, y: int) -> int {
    data_offset(d) + src_row(d, y) * row_size(bmp_width(d), bit_depth(d))
}

/// Palette index of pixel `(x, y)` of a paletted file: a whole byte at 8 bits, the
/// high then the low nibble at 4 bits, bits from the most significant at 1 bit.
pub open spec fn palette_index(d: Seq<u8>, x: int, y: int) -> int {
    if bit_depth(d) == 8 {
        d[row_start(d, y) + x] as int
    } else if bit_depth(d) == 4 {
        if x % 2 == 0 {
            d[row_start(d, y) + x / 2] as int / 16
        } else {
            d[row_start(d, y) + x / 2] as int % 16
        }
    } else {
        (d[row_start(d, y) + x / 8] as int / pow2_bit(7 - x % 8)) % 2
    }
}

pub open spec fn pow2_bit(k: int) -> int
    decreases k,
{
    if k <= 0 {
        1
    } else {
        2 * pow2_bit(k - 1)
    }
}

/// Channel `c` of decoded pixel `(x, y)`: BGR(A) reordered to RGBA, with opaque
/// alpha for 24-bit and paletted data; an index past the palette leaves the
/// pixel transparent black.
pub open spec fn bmp_px(d: Seq<u8>, x: int, y: int, c: int) -> u8 {
    let bits = bit_depth(d);
    if bits == 24 || bits == 32 {
        let base = row_start(d, y) + x * (bits / 8);
        if c == 0 {
            d[base + 2]
        } else if c == 1 {
            d[base + 1]
        } else if c == 2 {
            d[base]
        } else if bits == 24 {
            255u8
        } else {
            d[base + 3]
        }
    } else if palette_index(d, x, y) < colors_used(d) {
        let e = palette_start(d) + 4 * palette_index(d, x, y);
        if c == 0 {
            d[e + 2]
        } else if c == 1 {
            d[e + 1]
        } else if c == 2 {
            d[e]
        } else {
            255u8
        }
    } else {
        0u8
    }
}

/// `img` is the decoded BMP `d`.
pub open spec fn bmp_decoded(d: Seq<u8>, img: RgbaImage) -> bool {
    &&& img.wf()
    &&& img.width as int == bmp_width(d)
    &&& img.height as int == abs_height(d)
    &&& forall|x: int, y: int, c: int|
        0 <= x < img.width && 0 <= y < img.height && 0 <= c < 4 ==> #[trigger] img.px(x, y, c)
            == bmp_px(d, x, y, c)
}

proof fn lemma_row_bytes(w: int, bits: int, x: int)
    requires
        0 <= x < w,
        bits == 1 || bits == 4 || bits == 8 || bits == 24 || bits == 32,
    ensures
        row_size(w, bits) >= 0,
        bits == 24 ==> 3 * x + 3 <= row_size(w, bits),
        bits == 32 ==> 4 * x + 4 <= row_size(w, bits),
        bits == 8 ==> x + 1 <= row_size(w, bits),
        bits == 4 ==> x / 2 + 1 <= row_size(w, bits),
        bits == 1 ==> x / 8 + 1 <= row_size(w, bits),
{
    let q = (w * bits + 31) / 32;
    assert(q * 32 >= w * bits) by (nonlinear_arith)
        requires q == (w * bits + 31) / 32, w >= 0, bits >= 0;
    assert(q >= 0) by (nonlinear_arith)
        requires q == (w * bits + 31) / 32, w >= 0, bits >= 0;
    if bits == 24 {
        assert(3 * x + 3 <= q * 4) by (nonlinear_arith)
            requires q * 32 >= w * 24, x < w;
    } else if bits == 32 {
        assert(4 * x + 4 <= q * 4) by (nonlinear_arith)
            requires q * 32 >= w * 32, x < w;
    } else if bits == 8 {
        assert(x + 1 <= q * 4) by (nonlinear_arith)
            requires q * 32 >= w * 8, x < w;
    } else if bits == 4 {
        assert(x / 2 + 1 <= q * 4) by (nonlinear_arith)
            requires q * 32 >= w * 4, 0 <= x < w;
    } else {
        assert(x / 8 + 1 <= q * 4) by (nonlinear_arith)
            requires q * 32 >= w, 0 <= x < w;
    }
}

proof fn lemma_row_in_file(off: int, rs: int, r: int, h: int, len: int)
    requires
        0 <= r < h,
        rs >= 0,
        off >= 0,
        off + rs * h <= len,
    ensures
        off + r * rs + rs <= len,
        0 <= r * rs,
{
    assert(r * rs + rs <= rs * h) by (nonlinear_arith)
        requires 0 <= r < h, rs >= 0;
    assert(0 <= r * rs) by (nonlinear_arith)
        requires 0 <= r, rs >= 0;
}

/// Header values that the pixel loop reads, once checked.
struct Layout {
    offset: usize,
    w: u32,
    h: u32,
    bottom_up: bool,
    bits: u16,
    row: usize,
    colors: usize,
    palette: usize,
}

spec fn layout_of(d: Seq<u8>, l: Layout) -> bool {
    &&& l.offset as int == data_offset(d)
    &&& l.w as int == bmp_width(d)
    &&& l.h as int == abs_height(d)
    &&& l.bottom_up == (bmp_height(d) > 0)
    &&& l.bits as int == bit_depth(d)
    &&& l.row as int == row_size(bmp_width(d), bit_depth(d))
    &&& is_paletted(bit_depth(d)) ==> l.colors as int == colors_used(d) && l.palette as int
        == palette_start(d)
}

/// One decoded pixel, as [`bmp_px`] gives it.
fn pixel(d: &[u8], l: &Layout, x: u32, y: u32) -> (r: (u8, u8, u8, u8))
    requires
        layout_of(d@, *l),
        bmp_check(d@, l.w as int * l.h as int) is Ok,
        x < l.w,
        y < l.h,
    ensures
        r.0 == bmp_px(d@, x as int, y as int, 0),
        r.1 == bmp_px(d@, x as int, y as int, 1),
        r.2 == bmp_px(d@, x as int, y as int, 2),
        r.3 == bmp_px(d@, x as int, y as int, 3),
{
    let ghost gd = d@;
    let len: usize = d.len();
    let sr: usize = if l.bottom_up { (l.h - 1 - y) as usize } else { y as usize };
    proof {
        lemma_row_bytes(l.w as int, l.bits as int, x as int);
        lemma_row_in_file(l.offset as int, l.row as int, sr as int, l.h as int, gd.len() as int);
        assert(sr as int == src_row(gd, y as int));
    }
    let start: usize = l.offset + sr * l.row;
    let xs = x as usize;
    if l.bits == 24 || l.bits == 32 {
        let step: usize = if l.bits == 24 { 3 } else { 4 };
        let base: usize = start + xs * step;
        let a: u8 = if l.bits == 24 { 255 } else { d[base + 3] };
        return (d[base + 2], d[base + 1], d[base], a);
    }
    let idx: usize = if l.bits == 8 {
        d[start + xs] as usize
    } else if l.bits == 4 {
        let b = d[start + xs / 2];
        if xs % 2 == 0 { (b / 16) as usize } else { (b % 16) as usize }
    } else {
        let b = d[start + xs / 8];
        let k = 7 - xs % 8;
        let p: u8 = match k {
            0 => 1,
            1 => 2,
            2 => 4,
            3 => 8,
            4 => 16,
            5 => 32,
            6 => 64,
            _ => 128,
        };
        proof {
            reveal_with_fuel(pow2_bit, 8);
            assert(p as int == pow2_bit(k as int));
        }
        ((b / p) % 2) as usize
    };
    assert(idx as int == palette_index(gd, x as int, y as int));
    if idx < l.colors {
        proof {
            assert(idx * 4 + 4 <= l.colors * 4) by (nonlinear_arith)
                requires idx < l.colors;
        }
        let e: usize = l.palette + 4 * idx;
        (d[e + 2], d[e + 1], d[e], 255)
    } else {
        (0, 0, 0, 0)
    }
}

/// Runs the checks of [`bmp_check`] and gathers what the pixel loop needs.
fn check(d: &[u8], max_pixels: u64) -> (r: Result<Layout, BmpError>)
    ensures
        r matches Ok(l) ==> bmp_check(d@, max_pixels as int) is Ok && layout_of(d@, l),
        r matches Err(e) ==> bmp_check(d@, max_pixels as int) == Err::<(), BmpError>(e),
{
    let len: usize = d.len();
    if len < 54 {
        return Err(BmpError::TooSmall);
    }
    if d[0] != 0x42 || d[1] != 0x4D {
        return Err(BmpError::NotBmp);
    }
    let offset: u32 = match read_u32(d, 10, true) { Some(v) => v, None => return Err(BmpError::TooSmall) };
    let dib: u32 = match read_u32(d, 14, true) { Some(v) => v, None => return Err(BmpError::TooSmall) };
    let width: i64 = match read_i32(d, 18, true) { Some(v) => v, None => return Err(BmpError::TooSmall) };
    let height: i64 = match read_i32(d, 22, true) { Some(v) => v, None => return Err(BmpError::TooSmall) };
    let bits: u16 = match read_u16(d, 28, true) { Some(v) => v, None => return Err(BmpError::TooSmall) };
    let comp: u32 = match read_u32(d, 30, true) { Some(v) => v, None => return Err(BmpError::TooSmall) };
    if width <= 0 || height == 0 {
        return Err(BmpError::InvalidDimensions);
    }
    let w: u32 = width as u32;
    let h: u32 = if height < 0 { (-height) as u32 } else { height as u32 };
    proof {
        lemma_u32_mul_fits(w, h);
    }
    if (w as u64) * (h as u64) > max_pixels {
        return Err(BmpError::TooLarge { width: w, height: h });
    }
    if comp == 1 {
        return Err(BmpError::Rle8);
    }
    if comp == 2 {
        return Err(BmpError::Rle4);
    }
    proof {
        assert(w as int * bits as int <= 0xffff_ffff * 0xffff) by (nonlinear_arith)
            requires w <= 0xffff_ffffu32, bits <= 0xffffu16;
    }
    let row: u128 = ((w as u128 * bits as u128 + 31) / 32) * 4;
    proof {
        assert(row * h <= 0xffff_ffff_ffff_ffff_ffff_ffff) by (nonlinear_arith)
            requires row <= 0xffff_ffff_ffff, h <= 0xffff_ffffu32;
    }
    if offset as u128 + row * (h as u128) > len as u128 {
        return Err(BmpError::Truncated);
    }
    let paletted = bits == 1 || bits == 4 || bits == 8;
    if !(paletted || bits == 24 || bits == 32) {
        return Err(BmpError::UnknownDepth(bits));
    }
    let mut colors: usize = 0;
    let mut palette: usize = 0;
    if paletted {
        let max_colors: u32 = if bits == 1 { 2 } else if bits == 4 { 16 } else { 256 };
        let declared: u32 = match read_u32(d, 46, true) { Some(v) => v, None => return Err(BmpError::TooSmall) };
        let used: u32 = if declared == 0 { max_colors } else { declared };
        if used > max_colors {
            return Err(BmpError::TooManyColors { used, max: max_colors, bits });
        }
        if 14 + dib as u64 + used as u64 * 4 > len as u64 {
            return Err(BmpError::ColorTableTruncated);
        }
        colors = used as usize;
        palette = 14 + dib as usize;
    }
    proof {
        assert(row * h >= row) by (nonlinear_arith)
            requires h >= 1, row >= 0;
    }
    Ok(Layout {
        offset: offset as usize,
        w,
        h,
        bottom_up: height > 0,
        bits,
        row: row as usize,
        colors,
        palette,
    })
}

/// Decodes a BMP file into an RGBA buffer, refusing files whose area exceeds
/// `max_pixels` before any pixel storage is allocated.
pub fn decode_bmp_pixels(d: &[u8], max_pixels: u64) -> (r: Result<RgbaImage, BmpError>)
    ensures
        r is Ok <==> bmp_check(d@, max_pixels as int) is Ok,
        r matches Ok(img) ==> bmp_decoded(d@, img),
        r matches Err(e) ==> bmp_check(d@, max_pixels as int) == Err::<(), BmpError>(e),
{
    let l = match check(d, max_pixels) {
        Ok(l) => l,
        Err(e) => return Err(e),
    };
    let ghost gd = d@;
    let w: usize = l.w as usize;
    let h: usize = l.h as usize;
    proof {
        assert(w * h <= max_pixels) by (nonlinear_arith)
            requires w as int * h as int <= max_pixels as int;
    }
    let mut data: Vec<u8> = Vec::new();
    let mut y: usize = 0;
    while y < h
        invariant
            layout_of(gd, l),
            gd == d@,
            bmp_check(gd, max_pixels as int) is Ok,
            w == l.w,
            h == l.h,
            0 <= y <= h,
            data@.len() == px_index(w as int, 0, y as int),
            forall|xx: int, yy: int, c: int|
                0 <= xx < w && 0 <= yy && before(xx, yy, 0, y as int) && 0 <= c < 4
                    ==> #[trigger] byte_at(data@, w as int, xx, yy, c) == bmp_px(gd, xx, yy, c),
        decreases h - y,
    {
        let mut x: usize = 0;
        while x < w
            invariant
                layout_of(gd, l),
                gd == d@,
                bmp_check(gd, max_pixels as int) is Ok,
                w == l.w,
                h == l.h,
                0 <= y < h,
                0 <= x <= w,
                data@.len() == px_index(w as int, x as int, y as int),
                forall|xx: int, yy: int, c: int|
                    0 <= xx < w && 0 <= yy && before(xx, yy, x as int, y as int) && 0 <= c < 4
                        ==> #[trigger] byte_at(data@, w as int, xx, yy, c) == bmp_px(gd, xx, yy, c),
            decreases w - x,
        {
            proof {
                assert(l.w as int * l.h as int >= l.w as int * l.h as int);
            }
            let (r, g, b, a) = pixel(d, &l, x as u32, y as u32);
            let ghost prev = data@;
            data.push(r);
            data.push(g);
            data.push(b);
            data.push(a);
            assert forall|xx: int, yy: int, c: int|
                0 <= xx < w && 0 <= yy && before(xx, yy, x as int + 1, y as int) && 0 <= c < 4
                    implies #[trigger] byte_at(data@, w as int, xx, yy, c) == bmp_px(gd, xx, yy, c) by {
                if before(xx, yy, x as int, y as int) {
                    lemma_before_index(w as int, xx, yy, x as int, y as int);
                    assert(byte_at(prev, w as int, xx, yy, c) == byte_at(data@, w as int, xx, yy, c));
                } else {
                    assert(xx == x && yy == y);
                }
            }
            x = x + 1;
        }
        proof {
            lemma_row_end(w as int, y as int);
        }
        y = y + 1;
    }
    proof {
        assert(px_index(w as int, 0, h as int) == rgba_len(l.w, l.h)) by (nonlinear_arith)
            requires w == l.w, h == l.h;
    }
    Ok(RgbaImage { data, width: l.w, height: l.h })
}

impl BmpError {
    /// The message shown for this error; `path` names the file.
    pub open spec fn text(self, path: Seq<char>) -> Seq<char> {
        match self {
            BmpError::TooSmall => "File too small to be BMP"@,
            BmpError::NotBmp => "Not a BMP file"@,
            BmpError::InvalidDimensions => "Invalid BMP dimensions"@,
            BmpError::TooLarge { width, height } => "BMP image too large: "@ + dec(width as nat)
                + "x"@ + dec(height as nat),
            BmpError::Rle8 => "Unsupported BMP compression: BI_RLE8 in "@ + path,
            BmpError::Rle4 => "Unsupported BMP compression: BI_RLE4 in "@ + path,
            BmpError::Truncated => "BMP file truncated"@,
            BmpError::TooManyColors { used, max, bits } => "Invalid BMP color table: biClrUsed "@
                + dec(used as nat) + " exceeds max "@ + dec(max as nat) + " for "@ + dec(
                bits as nat,
            ) + "-bit"@,
            BmpError::ColorTableTruncated => "BMP color table truncated"@,
            BmpError::UnknownDepth(bits) => "Unknown BMP bit depth: "@ + dec(bits as nat),
        }
    }

    /// The message shown for this error; `path` names the file.
    pub fn message(&self, path: &str) -> (r: String)
        ensures
            r@ == self.text(path@),
    {
        let mut s = String::new();
        match *self {
            BmpError::TooSmall => push_str(&mut s, "File too small to be BMP"),
            BmpError::NotBmp => push_str(&mut s, "Not a BMP file"),
            BmpError::InvalidDimensions => push_str(&mut s, "Invalid BMP dimensions"),
            BmpError::TooLarge { width, height } => {
                push_str(&mut s, "BMP image too large: ");
                push_dec(&mut s, width as u64);
                push_str(&mut s, "x");
                push_dec(&mut s, height as u64);
            },
            BmpError::Rle8 => {
                push_str(&mut s, "Unsupported BMP compression: BI_RLE8 in ");
                push_str(&mut s, path);
            },
            BmpError::Rle4 => {
                push_str(&mut s, "Unsupported BMP compression: BI_RLE4 in ");
                push_str(&mut s, path);
            },
            BmpError::Truncated => push_str(&mut s, "BMP file truncated"),
            BmpError::TooManyColors { used, max, bits } => {
                push_str(&mut s, "Invalid BMP color table: biClrUsed ");
                push_dec(&mut s, used as u64);
                push_str(&mut s, " exceeds max ");
                push_dec(&mut s, max as u64);
                push_str(&mut s, " for ");
                push_dec(&mut s, bits as u64);
                push_str(&mut s, "-bit");
            },
            BmpError::ColorTableTruncated => push_str(&mut s, "BMP color table truncated"),
            BmpError::UnknownDepth(bits) => {
                push_str(&mut s, "Unknown BMP bit depth: ");
                push_dec(&mut s, bits as u64);
            },
        }
        assert(s@ =~= self.text(path@));
        s
    }
}

/// Decodes a BMP file held in memory, with `max_pixels` as the pixel ceiling;
/// `path_display` names the file in error messages.
pub fn decode_bmp_limited(data: &[u8], path_display: &str, max_pixels: u64) -> (r: Result<
    LoadedImage,
    String,
>)
    ensures
        r is Ok <==> bmp_check(data@, max_pixels as int) is Ok,
        r matches Ok(img) ==> img.wf() && (img matches LoadedImage::Static(p) && bmp_decoded(
            data@,
            p,
        )),
        r matches Err(m) ==> (bmp_check(data@, max_pixels as int) matches Err(e) && m@ == e.text(
            path_display@,
        )),
{
    match decode_bmp_pixels(data, max_pixels) {
        Ok(img) => Ok(LoadedImage::Static(img)),
        Err(e) => Err(e.message(path_display)),
    }
}

/// Decodes a BMP file held in memory under the default pixel ceiling.
pub fn decode_bmp(data: &[u8], path_display: &str) -> (r: Result<LoadedImage, String>)
    ensures
        r is Ok <==> bmp_check(data@, MAX_PIXEL_COUNT as int) is Ok,
        r matches Ok(img) ==> img.wf() && (img matches LoadedImage::Static(p) && bmp_decoded(
            data@,
            p,
        )),
        r matches Err(m) ==> (bmp_check(data@, MAX_PIXEL_COUNT as int) matches Err(e) && m@
            == e.text(path_display@)),
{
    decode_bmp_limited(data, path_display, MAX_PIXEL_COUNT)
}

/// The header checks that come before the compression check all pass.
pub open spec fn header_ok(d: Seq<u8>, max_pixels: int) -> bool {
    d.len() >= 54 && d[0] == 0x42u8 && d[1] == 0x4Du8 && bmp_width(d) > 0 && bmp_height(d) != 0
        && bmp_width(d) * abs_height(d) <= max_pixels
}

/// Run-length encoded files are refused whatever their bit depth or payload,
/// with a message that names the encoding.
pub proof fn law_rle_refused(d: Seq<u8>, max_pixels: int, path: Seq<char>)
    requires
        header_ok(d, max_pixels),
        compression(d) == 1 || compression(d) == 2,
    ensures
        compression(d) == 1 ==> bmp_check(d, max_pixels) == Err::<(), BmpError>(BmpError::Rle8)
            && BmpError::Rle8.text(path).subrange(29, 36) == "BI_RLE8"@,
        compression(d) == 2 ==> bmp_check(d, max_pixels) == Err::<(), BmpError>(BmpError::Rle4)
            && BmpError::Rle4.text(path).subrange(29, 36) == "BI_RLE4"@,
{
    reveal_strlit("Unsupported BMP compression: BI_RLE8 in ");
    reveal_strlit("Unsupported BMP compression: BI_RLE4 in ");
    reveal_strlit("BI_RLE8");
    reveal_strlit("BI_RLE4");
    assert(BmpError::Rle8.text(path).subrange(29, 36) =~= "BI_RLE8"@);
    assert(BmpError::Rle4.text(path).subrange(29, 36) =~= "BI_RLE4"@);
}

/// A file that declares one pixel more than the ceiling is refused by the header
/// checks, so [`decode_bmp_pixels`] fails before it allocates any pixel storage.
pub proof fn law_one_pixel_over_ceiling(d: Seq<u8>, max_pixels: int)
    requires
        d.len() >= 54,
        d[0] == 0x42u8,
        d[1] == 0x4Du8,
        bmp_width(d) > 0,
        bmp_height(d) != 0,
        bmp_width(d) * abs_height(d) == max_pixels + 1,
    ensures
        bmp_check(d, max_pixels) == Err::<(), BmpError>(
            BmpError::TooLarge { width: bmp_width(d) as u32, height: abs_height(d) as u32 },
        ),
        bmp_check(d, max_pixels + 1) != Err::<(), BmpError>(
            BmpError::TooLarge { width: bmp_width(d) as u32, height: abs_height(d) as u32 },
        ),
{
}

} // verus!
