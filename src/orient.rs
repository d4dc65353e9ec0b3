use vstd::prelude::*;
use vstd::arithmetic::div_mod::{lemma_fundamental_div_mod, lemma_div_pos_is_pos, lemma_mod_bound};
use crate::image::{RgbaImage, px_index, byte_at, rgba_len};

verus! {

/// The geometric transforms from which every EXIF orientation is built.
#[derive(Clone, Copy, PartialEq, Eq, Structural)]
pub enum Transform {
    /// Quarter turn clockwise.
    Rotate90,
    Rotate180,
    /// Quarter turn counter-clockwise.
    Rotate270,
    /// Mirror left to right.
    FlipH,
    /// Mirror top to bottom.
    FlipV,
}

/// Whether the transform exchanges width and height.
pub open spec fn swaps_axes(t: Transform) -> bool {
    t == Transform::Rotate90 || t == Transform::Rotate270
}

/// Column of the source pixel that lands at `(x, y)` of the output, for a
/// `w` x `h` source.
pub open spec fn src_x(t: Transform, w: int, h: int, x: int, y: int) -> int {
    match t {
        Transform::Rotate90 => y,
        Transform::Rotate180 => w - 1 - x,
        Transform::Rotate270 => w - 1 - y,
        Transform::FlipH => w - 1 - x,
        Transform::FlipV => x,
    }
}

/// Row of the source pixel that lands at `(x, y)` of the output.
pub open spec fn src_y(t: Transform, w: int, h: int, x: int, y: int) -> int {
    match t {
        Transform::Rotate90 => h - 1 - x,
        Transform::Rotate180 => h - 1 - y,
        Transform::Rotate270 => x,
        Transform::FlipH => y,
        Transform::FlipV => h - 1 - y,
    }
}

/// `out` is `img` under transform `t`: its sides are those of `img`, exchanged
/// for a quarter turn, and each of its pixels is the source pixel that `t` maps there.
pub open spec fn transformed(img: RgbaImage, t: Transform, out: RgbaImage) -> bool {
    &&& out.wf()
    &&& if swaps_axes(t) {
        out.width == img.height && out.height == img.width
    } else {
        out.width == img.width && out.height == img.height
    }
    &&& forall|x: int, y: int, c: int|
        0 <= x < out.width && 0 <= y < out.height && 0 <= c < 4 ==> #[trigger] out.px(x, y, c)
            == img.px(
            src_x(t, img.width as int, img.height as int, x, y),
            src_y(t, img.width as int, img.height as int, x, y),
            c,
        )
}

/// `(x, y)` comes before `(cx, cy)` in row-major order, rows being `w` wide.
pub open spec fn before(x: int, y: int, cx: int, cy: int) -> bool {
    y < cy || (y == cy && x < cx)
}

pub proof fn lemma_px_bound(w: int, h: int, x: int, y: int)
    requires
        0 <= x < w,
        0 <= y < h,
    ensures
        0 <= px_index(w, x, y),
        px_index(w, x, y) + 4 <= w * h * 4,
{
    assert(0 <= y * w) by (nonlinear_arith)
        requires 0 <= y, 0 <= w;
    assert(y * w + x + 1 <= w * h) by (nonlinear_arith)
        requires 0 <= x < w, 0 <= y < h;
}

pub proof fn lemma_before_index(w: int, x: int, y: int, cx: int, cy: int)
    requires
        0 <= x < w,
        0 <= cx <= w,
        0 <= y,
        before(x, y, cx, cy),
    ensures
        px_index(w, x, y) + 4 <= px_index(w, cx, cy),
{
    if y < cy {
        assert(y * w + x + 1 <= cy * w + cx) by (nonlinear_arith)
            requires 0 <= x < w, y < cy, 0 <= cx, 0 <= y;
    }
}

pub proof fn lemma_row_end(w: int, y: int)
    ensures
        px_index(w, w, y) == px_index(w, 0, y + 1),
{
    assert(y * w + w == (y + 1) * w) by (nonlinear_arith);
}

/// Every byte index of a `w` x `h` buffer is channel `k % 4` of pixel
/// `((k / 4) % w, (k / 4) / w)`.
pub proof fn lemma_index_decompose(w: int, h: int, k: int)
    requires
        w > 0,
        h > 0,
        0 <= k < w * h * 4,
    ensures
        0 <= (k / 4) % w < w,
        0 <= (k / 4) / w < h,
        0 <= k % 4 < 4,
        k == px_index(w, (k / 4) % w, (k / 4) / w) + k % 4,
{
    let p = k / 4;
    lemma_fundamental_div_mod(k, 4);
    lemma_mod_bound(k, 4);
    lemma_fundamental_div_mod(p, w);
    lemma_mod_bound(p, w);
    assert(p >= 0);
    lemma_div_pos_is_pos(p, w);
    assert(p < w * h) by (nonlinear_arith)
        requires k == 4 * p + k % 4, 0 <= k % 4 < 4, k < w * h * 4;
    assert(p / w < h) by (nonlinear_arith)
        requires p == w * (p / w) + p % w, 0 <= p % w, p < w * h, w > 0;
    assert(px_index(w, p % w, p / w) == (p / w * w + p % w) * 4);
    assert(p / w * w == w * (p / w)) by (nonlinear_arith);
}

/// Two well-formed buffers of the same size whose pixels all agree hold the same bytes.
pub proof fn lemma_pixels_determine(a: RgbaImage, b: RgbaImage)
    requires
        a.wf(),
        b.wf(),
        a.width == b.width,
        a.height == b.height,
        forall|x: int, y: int, c: int|
            0 <= x < a.width && 0 <= y < a.height && 0 <= c < 4 ==> #[trigger] a.px(x, y, c)
                == b.px(x, y, c),
    ensures
        a.same_as(b),
{
    let w = a.width as int;
    let h = a.height as int;
    assert forall|k: int| 0 <= k < a.data@.len() implies a.data@[k] == b.data@[k] by {
        lemma_index_decompose(w, h, k);
        let x = (k / 4) % w;
        let y = (k / 4) / w;
        let c = k % 4;
        assert(a.px(x, y, c) == b.px(x, y, c));
    }
    assert(a.data@ =~= b.data@);
}

/// The transform `t` applied to `img`, built pixel by pixel in output order.
fn remap(img: &RgbaImage, t: Transform) -> (out: RgbaImage)
    requires
        img.wf(),
    ensures
        transformed(*img, t, out),
{
    let w: usize = img.width as usize;
    let h: usize = img.height as usize;
    let swap = t == Transform::Rotate90 || t == Transform::Rotate270;
    let ow: usize = if swap { h } else { w };
    let oh: usize = if swap { w } else { h };
    let ghost gw = w as int;
    let ghost gh = h as int;
    let ghost src = img.data@;
    let total: usize = img.data.len();
    let mut data: Vec<u8> = Vec::new();
    let mut y: usize = 0;
    while y < oh
        invariant
            img.wf(),
            src == img.data@,
            total == src.len(),
            gw == img.width as int,
            gh == img.height as int,
            w == gw,
            h == gh,
            ow == (if swaps_axes(t) { gh } else { gw }),
            oh == (if swaps_axes(t) { gw } else { gh }),
            0 <= y <= oh,
            data@.len() == px_index(ow as int, 0, y as int),
            forall|xx: int, yy: int, c: int|
                0 <= xx < ow && 0 <= yy && before(xx, yy, 0, y as int) && 0 <= c < 4
                    ==> #[trigger] byte_at(data@, ow as int, xx, yy, c) == byte_at(
                    src,
                    gw,
                    src_x(t, gw, gh, xx, yy),
                    src_y(t, gw, gh, xx, yy),
                    c,
                ),
        decreases oh - y,
    {
        let mut x: usize = 0;
        while x < ow
            invariant
                img.wf(),
                src == img.data@,
                total == src.len(),
                gw == img.width as int,
                gh == img.height as int,
                w == gw,
                h == gh,
                ow == (if swaps_axes(t) { gh } else { gw }),
                oh == (if swaps_axes(t) { gw } else { gh }),
                0 <= y < oh,
                0 <= x <= ow,
                data@.len() == px_index(ow as int, x as int, y as int),
                forall|xx: int, yy: int, c: int|
                    0 <= xx < ow && 0 <= yy && before(xx, yy, x as int, y as int) && 0 <= c < 4
                        ==> #[trigger] byte_at(data@, ow as int, xx, yy, c) == byte_at(
                        src,
                        gw,
                        src_x(t, gw, gh, xx, yy),
                        src_y(t, gw, gh, xx, yy),
                        c,
                    ),
            decreases ow - x,
        {
            let sx: usize = match t {
                Transform::Rotate90 => y,
                Transform::Rotate180 => w - 1 - x,
                Transform::Rotate270 => w - 1 - y,
                Transform::FlipH => w - 1 - x,
                Transform::FlipV => x,
            };
            let sy: usize = match t {
                Transform::Rotate90 => h - 1 - x,
                Transform::Rotate180 => h - 1 - y,
                Transform::Rotate270 => x,
                Transform::FlipH => y,
                Transform::FlipV => h - 1 - y,
            };
            assert(sx as int == src_x(t, gw, gh, x as int, y as int));
            assert(sy as int == src_y(t, gw, gh, x as int, y as int));
            proof {
                lemma_px_bound(gw, gh, sx as int, sy as int);
                lemma_px_bound(ow as int, oh as int, x as int, y as int);
                assert(0 <= sy * w <= sy * w + sx <= (sy * w + sx) * 4 <= total) by (nonlinear_arith)
                    requires
                        0 <= sx,
                        0 <= sy,
                        0 <= w,
                        (sy * w + sx) * 4 + 4 <= gw * gh * 4,
                        gw == w,
                        gh == h,
                        total == gw * gh * 4;
            }
            let base: usize = (sy * w + sx) * 4;
            let ghost before_len = data@.len();
            let ghost prev = data@;
            data.push(img.data[base]);
            data.push(img.data[base + 1]);
            data.push(img.data[base + 2]);
            data.push(img.data[base + 3]);
            assert forall|xx: int, yy: int, c: int|
                0 <= xx < ow && 0 <= yy && before(xx, yy, x as int + 1, y as int) && 0 <= c < 4
                    implies #[trigger] byte_at(data@, ow as int, xx, yy, c) == byte_at(
                    src,
                    gw,
                    src_x(t, gw, gh, xx, yy),
                    src_y(t, gw, gh, xx, yy),
                    c,
                ) by {
                if before(xx, yy, x as int, y as int) {
                    lemma_before_index(ow as int, xx, yy, x as int, y as int);
                    assert(byte_at(prev, ow as int, xx, yy, c) == byte_at(data@, ow as int, xx, yy, c));
                } else {
                    assert(xx == x && yy == y);
                }
            }
            x = x + 1;
        }
        proof {
            lemma_row_end(ow as int, y as int);
        }
        y = y + 1;
    }
    proof {
        assert(px_index(ow as int, 0, oh as int) == rgba_len(
            if swaps_axes(t) { img.height } else { img.width },
            if swaps_axes(t) { img.width } else { img.height },
        )) by (nonlinear_arith)
            requires
                ow == (if swaps_axes(t) { gh } else { gw }),
                oh == (if swaps_axes(t) { gw } else { gh }),
                gw == img.width as int,
                gh == img.height as int;
    }
    let (out_w, out_h) = if swap { (img.height, img.width) } else { (img.width, img.height) };
    RgbaImage { data, width: out_w, height: out_h }
}

/// Quarter turn clockwise: output pixel `(x, y)` is source pixel `(y, h - 1 - x)`.
pub fn rotate_90(img: RgbaImage) -> (r: RgbaImage)
    requires
        img.wf(),
    ensures
        transformed(img, Transform::Rotate90, r),
{
    remap(&img, Transform::Rotate90)
}

/// Half turn: output pixel `(x, y)` is source pixel `(w - 1 - x, h - 1 - y)`.
pub fn rotate_180(img: RgbaImage) -> (r: RgbaImage)
    requires
        img.wf(),
    ensures
        transformed(img, Transform::Rotate180, r),
{
    remap(&img, Transform::Rotate180)
}

/// Quarter turn counter-clockwise: output pixel `(x, y)` is source pixel `(w - 1 - y, x)`.
pub fn rotate_270(img: RgbaImage) -> (r: RgbaImage)
    requires
        img.wf(),
    ensures
        transformed(img, Transform::Rotate270, r),
{
    remap(&img, Transform::Rotate270)
}

/// Mirror left to right: output pixel `(x, y)` is source pixel `(w - 1 - x, y)`.
pub fn flip_h(img: RgbaImage) -> (r: RgbaImage)
    requires
        img.wf(),
    ensures
        transformed(img, Transform::FlipH, r),
{
    remap(&img, Transform::FlipH)
}

/// Mirror top to bottom: output pixel `(x, y)` is source pixel `(x, h - 1 - y)`.
pub fn flip_v(img: RgbaImage) -> (r: RgbaImage)
    requires
        img.wf(),
    ensures
        transformed(img, Transform::FlipV, r),
{
    remap(&img, Transform::FlipV)
}

/// Whether EXIF orientation `o` exchanges width and height (values 5 to 8).
pub open spec fn orientation_swaps(o: u32) -> bool {
    5 <= o <= 8
}

/// Column of the source pixel shown at `(x, y)` under EXIF orientation `o` (2 to 8).
pub open spec fn orient_src_x(o: u32, w: int, h: int, x: int, y: int) -> int {
    if o == 2 || o == 3 {
        w - 1 - x
    } else if o == 4 {
        x
    } else if o == 5 || o == 6 {
        y
    } else {
        w - 1 - y
    }
}

/// Row of the source pixel shown at `(x, y)` under EXIF orientation `o` (2 to 8).
pub open spec fn orient_src_y(o: u32, w: int, h: int, x: int, y: int) -> int {
    if o == 2 {
        y
    } else if o == 3 || o == 4 {
        h - 1 - y
    } else if o == 5 || o == 8 {
        x
    } else {
        h - 1 - x
    }
}

/// `out` is `img` displayed under EXIF orientation `o`. Values 2 to 8 move each
/// pixel as the EXIF standard says; 1 and every value outside 1 to 8 leave the
/// image as it is.
pub open spec fn oriented(img: RgbaImage, o: u32, out: RgbaImage) -> bool {
    if 2 <= o <= 8 {
        &&& out.wf()
        &&& if orientation_swaps(o) {
            out.width == img.height && out.height == img.width
        } else {
            out.width == img.width && out.height == img.height
        }
        &&& forall|x: int, y: int, c: int|
            0 <= x < out.width && 0 <= y < out.height && 0 <= c < 4 ==> #[trigger] out.px(x, y, c)
                == img.px(
                orient_src_x(o, img.width as int, img.height as int, x, y),
                orient_src_y(o, img.width as int, img.height as int, x, y),
                c,
            )
    } else {
        out.same_as(img)
    }
}

/// Applies EXIF orientation `orientation` to `img`.
pub fn apply_orientation(img: RgbaImage, orientation: u32) -> (r: RgbaImage)
    requires
        img.wf(),
    ensures
        oriented(img, orientation, r),
        r.wf(),
{
    match orientation {
        2 => flip_h(img),
        3 => rotate_180(img),
        4 => flip_v(img),
        5 => {
            let ghost g = img;
            let t = rotate_90(img);
            let r = flip_h(t);
            assert forall|x: int, y: int, c: int|
                0 <= x < r.width && 0 <= y < r.height && 0 <= c < 4 implies #[trigger] r.px(x, y, c)
                    == g.px(y, x, c) by {
                assert(r.px(x, y, c) == t.px(t.width - 1 - x, y, c));
            }
            r
        },
        6 => rotate_90(img),
        7 => {
            let ghost g = img;
            let t = rotate_270(img);
            let r = flip_h(t);
            assert forall|x: int, y: int, c: int|
                0 <= x < r.width && 0 <= y < r.height && 0 <= c < 4 implies #[trigger] r.px(x, y, c)
                    == g.px(g.width - 1 - y, g.height - 1 - x, c) by {
                assert(r.px(x, y, c) == t.px(t.width - 1 - x, y, c));
            }
            r
        },
        8 => rotate_270(img),
        _ => img,
    }
}

/// Mirroring left to right twice gives back the buffer it started from.
pub proof fn law_flip_h_twice(a: RgbaImage, b: RgbaImage, c: RgbaImage)
    requires
        a.wf(),
        transformed(a, Transform::FlipH, b),
        transformed(b, Transform::FlipH, c),
    ensures
        c.same_as(a),
{
    assert forall|x: int, y: int, k: int|
        0 <= x < c.width && 0 <= y < c.height && 0 <= k < 4 implies #[trigger] c.px(x, y, k)
            == a.px(x, y, k) by {
        assert(c.px(x, y, k) == b.px(b.width - 1 - x, y, k));
    }
    lemma_pixels_determine(c, a);
}

/// A half turn applied twice gives back the buffer it started from.
pub proof fn law_rotate_180_twice(a: RgbaImage, b: RgbaImage, c: RgbaImage)
    requires
        a.wf(),
        transformed(a, Transform::Rotate180, b),
        transformed(b, Transform::Rotate180, c),
    ensures
        c.same_as(a),
{
    assert forall|x: int, y: int, k: int|
        0 <= x < c.width && 0 <= y < c.height && 0 <= k < 4 implies #[trigger] c.px(x, y, k)
            == a.px(x, y, k) by {
        assert(c.px(x, y, k) == b.px(b.width - 1 - x, b.height - 1 - y, k));
    }
    lemma_pixels_determine(c, a);
}

/// A quarter turn clockwise followed by a quarter turn counter-clockwise gives back
/// the starting dimensions and pixels.
pub proof fn law_rotate_90_then_270(a: RgbaImage, b: RgbaImage, c: RgbaImage)
    requires
        a.wf(),
        transformed(a, Transform::Rotate90, b),
        transformed(b, Transform::Rotate270, c),
    ensures
        c.same_as(a),
{
    assert forall|x: int, y: int, k: int|
        0 <= x < c.width && 0 <= y < c.height && 0 <= k < 4 implies #[trigger] c.px(x, y, k)
            == a.px(x, y, k) by {
        assert(c.px(x, y, k) == b.px(b.width - 1 - y, x, k));
    }
    lemma_pixels_determine(c, a);
}

} // verus!
