use vstd::prelude::*;
use crate::image::{RgbaImage, px_index, byte_at, rgba_len};
use crate::orient::{lemma_before_index, lemma_row_end, before};

verus! {

/// Straight (not premultiplied) value of channel `v` under alpha `a`, rounded to
/// nearest and capped at 255.
pub open spec fn unpremul(v: int, a: int) -> int {
    if a == 0 {
        0
    } else if a == 255 {
        v
    } else if (v * 255 + a / 2) / a > 255 {
        255
    } else {
        (v * 255 + a / 2) / a
    }
}

/// Channel `c` of pixel `(x, y)` of a premultiplied B, G, R, A buffer whose rows
/// are `stride` bytes apart, as straight RGBA.
pub open spec fn straight_px(s: Seq<u8>, stride: int, x: int, y: int, c: int) -> u8 {
    let base = y * stride + 4 * x;
    let a = s[base + 3] as int;
    if c == 3 {
        s[base + 3]
    } else {
        unpremul(s[base + 2 - c] as int, a) as u8
    }
}

fn unpremul_exec(v: u8, a: u8) -> (r: u8)
    ensures
        r as int == unpremul(v as int, a as int),
{
    if a == 0 {
        0
    } else if a == 255 {
        v
    } else {
        let q: u32 = (v as u32 * 255 + a as u32 / 2) / a as u32;
        if q > 255 { 255 } else { q as u8 }
    }
}

proof fn lemma_row_offset(stride: int, w: int, h: int, x: int, y: int)
    requires
        0 <= x < w,
        0 <= y < h,
        stride >= 4 * w,
    ensures
        0 <= y * stride + 4 * x,
        y * stride + 4 * x + 4 <= stride * h,
{
    assert(0 <= y * stride) by (nonlinear_arith) requires 0 <= y, stride >= 0;
    assert(y * stride + stride <= stride * h) by (nonlinear_arith) requires 0 <= y < h, stride >= 0;
}

/// Converts a premultiplied B, G, R, A buffer (rows `stride` bytes apart, as a
/// rasterizer leaves it in memory) to a straight RGBA image.
pub fn unpremultiply_bgra(src: &[u8], stride: usize, width: u32, height: u32) -> (r: RgbaImage)
    requires
        stride >= 4 * width,
        src@.len() >= stride * height,
    ensures
        r.wf(),
        r.width == width,
        r.height == height,
        forall|x: int, y: int, c: int|
            0 <= x < width && 0 <= y < height && 0 <= c < 4 ==> #[trigger] r.px(x, y, c)
                == straight_px(src@, stride as int, x, y, c),
{
    let w: usize = width as usize;
    let h: usize = height as usize;
    let len: usize = src.len();
    let mut data: Vec<u8> = Vec::new();
    let mut y: usize = 0;
    while y < h
        invariant
            w == width,
            h == height,
            len == src@.len(),
            stride >= 4 * w,
            len >= stride * h,
            0 <= y <= h,
            data@.len() == px_index(w as int, 0, y as int),
            forall|xx: int, yy: int, c: int|
                0 <= xx < w && 0 <= yy && before(xx, yy, 0, y as int) && 0 <= c < 4
                    ==> #[trigger] byte_at(data@, w as int, xx, yy, c) == straight_px(src@, stride as int, xx, yy, c),
        decreases h - y,
    {
        let mut x: usize = 0;
        while x < w
            invariant
                w == width,
                h == height,
                len == src@.len(),
                stride >= 4 * w,
                len >= stride * h,
                0 <= y < h,
                0 <= x <= w,
                data@.len() == px_index(w as int, x as int, y as int),
                forall|xx: int, yy: int, c: int|
                    0 <= xx < w && 0 <= yy && before(xx, yy, x as int, y as int) && 0 <= c < 4
                        ==> #[trigger] byte_at(data@, w as int, xx, yy, c) == straight_px(src@, stride as int, xx, yy, c),
            decreases w - x,
        {
            proof {
                lemma_row_offset(stride as int, w as int, h as int, x as int, y as int);
            }
            let base: usize = y * stride + 4 * x;
            let a = src[base + 3];
            let ghost prev = data@;
            data.push(unpremul_exec(src[base + 2], a));
            data.push(unpremul_exec(src[base + 1], a));
            data.push(unpremul_exec(src[base], a));
            data.push(a);
            assert forall|xx: int, yy: int, c: int|
                0 <= xx < w && 0 <= yy && before(xx, yy, x as int + 1, y as int) && 0 <= c < 4
                    implies #[trigger] byte_at(data@, w as int, xx, yy, c) == straight_px(src@, stride as int, xx, yy, c) by {
                if before(xx, yy, x as int, y as int) {
                    lemma_before_index(w as int, xx, yy, x as int, y as int);
                    assert(byte_at(prev, w as int, xx, yy, c) == byte_at(data@, w as int, xx, yy, c));
                } else {
                    assert(xx == x && yy == y);
                }
            }
            x = x + 1;
        }
        proof {
            lemma_row_end(w as int, y as int);
        }
        y = y + 1;
    }
    proof {
        assert(px_index(w as int, 0, h as int) == rgba_len(width, height)) by (nonlinear_arith)
            requires w == width, h == height;
    }
    RgbaImage { data, width, height }
}

} // verus!
