use vstd::prelude::*;
use vstd::arithmetic::div_mod::{lemma_fundamental_div_mod, lemma_fundamental_div_mod_converse};
use crate::image::RgbaImage;

verus! {

/// `a + b`, at most `u32::MAX`.
pub open spec fn sat_add(a: int, b: int) -> int {
    if a + b > u32::MAX { u32::MAX as int } else { a + b }
}

/// Cell `i` of a buffer of `len` pixels in rows `bw` wide lies in the part of
/// the rectangle at `(x, y)`, `w` x `h`, that falls on whole rows of the buffer.
pub open spec fn in_rect(i: int, len: int, bw: int, x: int, y: int, w: int, h: int) -> bool {
    let r = i / bw;
    let c = i % bw;
    r < len / bw && y <= r < sat_add(y, h) && x <= c < sat_add(x, w)
}

/// The rectangle's cells up to (not including) row `row`, column `col` are done.
spec fn done(i: int, bw: int, row: int, col: int) -> bool {
    i / bw < row || (i / bw == row && i % bw < col)
}

/// What painting a rectangle does to each of its pixels.
#[derive(Clone, Copy)]
pub enum Paint {
    /// Replace the pixel with this XRGB color.
    Fill(u32),
    /// Blend black over the pixel with this opacity (0 to 255).
    Shade(u32),
}

/// One 8-bit channel scaled by `(255 - alpha) / 255`, rounded down.
pub open spec fn shade_channel(v: int, alpha: int) -> int {
    v * (255 - alpha) / 255
}

/// An XRGB pixel with black blended over it at opacity `alpha`; the unused top
/// byte becomes zero.
pub open spec fn shaded(p: int, alpha: int) -> int {
    shade_channel((p / 65536) % 256, alpha) * 65536 + shade_channel((p / 256) % 256, alpha) * 256
        + shade_channel(p % 256, alpha)
}

/// The new value of a painted pixel that held `p`.
pub open spec fn painted(m: Paint, p: u32) -> u32 {
    match m {
        Paint::Fill(c) => c,
        Paint::Shade(a) => shaded(p as int, a as int) as u32,
    }
}

fn paint_pixel(m: Paint, p: u32) -> (r: u32)
    requires
        m matches Paint::Shade(a) ==> a <= 255,
    ensures
        r == painted(m, p),
{
    match m {
        Paint::Fill(c) => c,
        Paint::Shade(a) => {
            proof {
                assert(((p / 65536) % 256) * (255 - a) <= 255 * 255) by (nonlinear_arith)
                    requires (p / 65536) % 256 < 256, a <= 255;
                assert(((p / 256) % 256) * (255 - a) <= 255 * 255) by (nonlinear_arith)
                    requires (p / 256) % 256 < 256, a <= 255;
                assert((p % 256) * (255 - a) <= 255 * 255) by (nonlinear_arith)
                    requires p % 256 < 256, a <= 255;
            }
            let r = ((p / 65536) % 256) * (255 - a) / 255;
            let g = ((p / 256) % 256) * (255 - a) / 255;
            let b = (p % 256) * (255 - a) / 255;
            r * 65536 + g * 256 + b
        },
    }
}

/// Paints the part of the rectangle at `(x, y)`, `w` x `h`, that lies on the
/// buffer's whole rows and within its width.
fn paint_rect(buf: &mut [u32], buf_w: u32, x: u32, y: u32, w: u32, h: u32, m: Paint)
    requires
        buf_w > 0,
        old(buf)@.len() <= u32::MAX,
        m matches Paint::Shade(a) ==> a <= 255,
    ensures
        final(buf)@.len() == old(buf)@.len(),
        forall|i: int| 0 <= i < final(buf)@.len() ==> #[trigger] final(buf)@[i] == if in_rect(
            i,
            old(buf)@.len() as int,
            buf_w as int,
            x as int,
            y as int,
            w as int,
            h as int,
        ) {
            painted(m, old(buf)@[i])
        } else {
            old(buf)@[i]
        },
{
    let ghost start = buf@;
    let ghost (len, bw) = (buf@.len() as int, buf_w as int);
    let rows: u32 = (buf.len() as u32) / buf_w;
    let row_end: u32 = y.saturating_add(h);
    let col_end: u32 = x.saturating_add(w);
    let mut row: u32 = y;
    while row < row_end && row < rows
        invariant
            buf@.len() == len,
            start.len() == len,
            m matches Paint::Shade(a) ==> a <= 255,
            bw == buf_w as int,
            bw > 0,
            len <= u32::MAX,
            rows as int == len / bw,
            row_end as int == sat_add(y as int, h as int),
            col_end as int == sat_add(x as int, w as int),
            y <= row,
            forall|i: int| 0 <= i < len ==> #[trigger] buf@[i] == if in_rect(i, len, bw, x as int, y as int, w as int, h as int)
                && done(i, bw, row as int, 0) {
                painted(m, start[i])
            } else {
                start[i]
            },
        decreases rows - row,
    {
        let mut col: u32 = x;
        while col < col_end && col < buf_w
            invariant
                buf@.len() == len,
                start.len() == len,
                m matches Paint::Shade(a) ==> a <= 255,
                bw == buf_w as int,
                bw > 0,
                len <= u32::MAX,
                rows as int == len / bw,
                row_end as int == sat_add(y as int, h as int),
                col_end as int == sat_add(x as int, w as int),
                y <= row < row_end,
                row < rows,
                x <= col,
                forall|i: int| 0 <= i < len ==> #[trigger] buf@[i] == if in_rect(i, len, bw, x as int, y as int, w as int, h as int)
                    && (done(i, bw, row as int, 0) || (i / bw == row && x <= i % bw < col)) {
                    painted(m, start[i])
                } else {
                    start[i]
                },
            decreases buf_w - col,
        {
            let ghost k = row as int * bw + col as int;
            proof {
                lemma_fundamental_div_mod_converse(k, bw, row as int, col as int);
                lemma_fundamental_div_mod(len, bw);
                assert(k < len) by (nonlinear_arith)
                    requires k == row * bw + col, row < len / bw, col < bw, len == bw * (len / bw) + len % bw, len % bw >= 0;
            }
            let idx: usize = (row as usize) * (buf_w as usize) + col as usize;
            let ghost prev = buf@;
            assert(buf@[k] == start[k]);
            let v = paint_pixel(m, buf[idx]);
            buf[idx] = v;
            proof {
                assert forall|i: int| 0 <= i < len implies #[trigger] buf@[i] == if in_rect(i, len, bw, x as int, y as int, w as int, h as int)
                    && (done(i, bw, row as int, 0) || (i / bw == row && x <= i % bw < col + 1)) {
                    painted(m, start[i])
                } else {
                    start[i]
                } by {
                    if i != k {
                        lemma_fundamental_div_mod(i, bw);
                        assert(buf@[i] == prev[i]);
                        if i / bw == row && i % bw == col {
                            assert(bw * (row as int) == (row as int) * bw) by (nonlinear_arith);
                            assert(i == k);
                        }
                    }
                }
            }
            col = col + 1;
        }
        proof {
            assert forall|i: int| 0 <= i < len implies #[trigger] buf@[i] == if in_rect(i, len, bw, x as int, y as int, w as int, h as int)
                && done(i, bw, row as int + 1, 0) {
                painted(m, start[i])
            } else {
                start[i]
            } by {
                if in_rect(i, len, bw, x as int, y as int, w as int, h as int) && i / bw == row {
                    assert(i % bw < col);
                }
            }
        }
        row = row + 1;
    }
    proof {
        assert forall|i: int| 0 <= i < len implies #[trigger] buf@[i] == if in_rect(i, len, bw, x as int, y as int, w as int, h as int) {
            painted(m, start[i])
        } else {
            start[i]
        } by {
            if in_rect(i, len, bw, x as int, y as int, w as int, h as int) {
                assert(done(i, bw, row as int, 0));
            }
        }
    }
}

/// Fills a rectangle of an XRGB buffer `buf_w` pixels wide with `color`,
/// clipped to the buffer's whole rows and its width.
pub fn fill_rect(buf: &mut [u32], buf_w: u32, x: u32, y: u32, w: u32, h: u32, color: u32)
    requires
        buf_w > 0,
        old(buf)@.len() <= u32::MAX,
    ensures
        final(buf)@.len() == old(buf)@.len(),
        forall|i: int| 0 <= i < final(buf)@.len() ==> #[trigger] final(buf)@[i] == if in_rect(
            i,
            old(buf)@.len() as int,
            buf_w as int,
            x as int,
            y as int,
            w as int,
            h as int,
        ) {
            color
        } else {
            old(buf)@[i]
        },
{
    paint_rect(buf, buf_w, x, y, w, h, Paint::Fill(color));
}

/// Darkens a rectangle of an XRGB buffer by blending black over it at opacity
/// `alpha` (out of 255), as behind the status text; a zero-width buffer is left alone.
pub fn draw_overlay(buf: &mut [u32], buf_w: u32, x: u32, y: u32, w: u32, h: u32, alpha: u32)
    requires
        alpha <= 255,
        old(buf)@.len() <= u32::MAX,
    ensures
        final(buf)@.len() == old(buf)@.len(),
        forall|i: int| 0 <= i < final(buf)@.len() ==> #[trigger] final(buf)@[i] == if buf_w > 0
            && in_rect(
            i,
            old(buf)@.len() as int,
            buf_w as int,
            x as int,
            y as int,
            w as int,
            h as int,
        ) {
            shaded(old(buf)@[i] as int, alpha as int) as u32
        } else {
            old(buf)@[i]
        },
{
    if buf_w == 0 {
        return;
    }
    paint_rect(buf, buf_w, x, y, w, h, Paint::Shade(alpha));
}

/// Window background, #1a1a1a.
pub const BG_COLOR: u32 = 0x001a1a1a;

/// The XRGB pixel of color `(r, g, b)`.
pub open spec fn xrgb(r: int, g: int, b: int) -> int {
    r * 65536 + g * 256 + b
}

/// One channel of `v` over `bg` at opacity `a`, rounded down.
pub open spec fn mix(v: int, bg: int, a: int) -> int {
    (v * a + bg * (255 - a)) / 255
}

/// The RGBA color `(r, g, b, a)` drawn over the XRGB pixel `p`: opaque colors
/// replace it, transparent ones leave it, others blend channel by channel.
pub open spec fn over(p: int, r: int, g: int, b: int, a: int) -> int {
    if a == 255 {
        xrgb(r, g, b)
    } else if a == 0 {
        p
    } else {
        xrgb(mix(r, (p / 65536) % 256, a), mix(g, (p / 256) % 256, a), mix(b, p % 256, a))
    }
}

/// Pixel `(x, y)` of `img` drawn over the XRGB pixel `p`.
pub open spec fn over_px(p: int, img: RgbaImage, x: int, y: int) -> int {
    over(p, img.px(x, y, 0) as int, img.px(x, y, 1) as int, img.px(x, y, 2) as int, img.px(x, y, 3) as int)
}

fn mix_exec(v: u32, bg: u32, a: u32) -> (r: u32)
    requires
        v < 256,
        bg < 256,
        1 <= a <= 254,
    ensures
        r as int == mix(v as int, bg as int, a as int),
        r < 256,
{
    proof {
        assert(v * a + bg * (255 - a) <= 255 * 255) by (nonlinear_arith)
            requires v < 256, bg < 256, 1 <= a <= 254;
    }
    (v * a + bg * (255 - a)) / 255
}

fn over_exec(p: u32, r: u8, g: u8, b: u8, a: u8) -> (out: u32)
    ensures
        out as int == over(p as int, r as int, g as int, b as int, a as int),
{
    if a == 255 {
        r as u32 * 65536 + g as u32 * 256 + b as u32
    } else if a == 0 {
        p
    } else {
        let rr = mix_exec(r as u32, (p / 65536) % 256, a as u32);
        let gg = mix_exec(g as u32, (p / 256) % 256, a as u32);
        let bb = mix_exec(b as u32, p % 256, a as u32);
        rr * 65536 + gg * 256 + bb
    }
}

/// Reads pixel `(x, y)` of a well-formed image.
fn rgba_at(img: &RgbaImage, x: u32, y: u32) -> (r: (u8, u8, u8, u8))
    requires
        img.wf(),
        x < img.width,
        y < img.height,
    ensures
        r == (img.px(x as int, y as int, 0), img.px(x as int, y as int, 1), img.px(x as int, y as int, 2), img.px(x as int, y as int, 3)),
{
    let n: usize = img.data.len();
    let (w, xx, yy) = (img.width as usize, x as usize, y as usize);
    proof {
        crate::orient::lemma_px_bound(img.width as int, img.height as int, x as int, y as int);
        assert(0 <= yy * w <= yy * w + xx <= (yy * w + xx) * 4 <= n) by (nonlinear_arith)
            requires
                (yy * w + xx) * 4 + 4 <= img.width as int * img.height as int * 4,
                n == img.width as int * img.height as int * 4,
                w == img.width;
    }
    let base: usize = (yy * w + xx) * 4;
    (img.data[base], img.data[base + 1], img.data[base + 2], img.data[base + 3])
}

/// `v / 2` rounded toward zero.
pub open spec fn half_toward_zero(v: int) -> int {
    if v >= 0 { v / 2 } else { -((-v) / 2) }
}

/// The window buffer of [`composite_centered`]: cell `(wx, wy)` shows image
/// pixel `(wx - cx, wy - cy)` over the background when that lies in the image.
pub open spec fn centered_cell(img: RgbaImage, cx: int, cy: int, wx: int, wy: int) -> int {
    let ix = wx - cx;
    let iy = wy - cy;
    if 0 <= ix < img.width && 0 <= iy < img.height {
        over_px(BG_COLOR as int, img, ix, iy)
    } else {
        BG_COLOR as int
    }
}

/// Draws `img` centered in a `win_w` x `win_h` window, moved by the pan offset,
/// over the background; returns the window's XRGB pixels row by row.
pub fn composite_centered(img: &RgbaImage, win_w: u32, win_h: u32, offset_x: i32, offset_y: i32) -> (r: Vec<u32>)
    requires
        img.wf(),
        win_w as int * win_h as int <= usize::MAX,
    ensures
        r@.len() == win_w as int * win_h as int,
        forall|wx: int, wy: int| 0 <= wx < win_w && 0 <= wy < win_h ==> #[trigger] r@[wy * win_w + wx] as int
            == centered_cell(
            *img,
            half_toward_zero(win_w - img.width) + offset_x,
            half_toward_zero(win_h - img.height) + offset_y,
            wx,
            wy,
        ),
{
    let dw: i64 = win_w as i64 - img.width as i64;
    let dh: i64 = win_h as i64 - img.height as i64;
    let cx: i64 = (if dw >= 0 { dw / 2 } else { -((-dw) / 2) }) + offset_x as i64;
    let cy: i64 = (if dh >= 0 { dh / 2 } else { -((-dh) / 2) }) + offset_y as i64;
    let ghost (gcx, gcy) = (cx as int, cy as int);
    assert(-0x4_0000_0000 <= cx <= 0x4_0000_0000 && -0x4_0000_0000 <= cy <= 0x4_0000_0000);
    let mut out: Vec<u32> = Vec::new();
    let mut wy: u32 = 0;
    while wy < win_h
        invariant
            img.wf(),
            win_w as int * win_h as int <= usize::MAX,
            gcx == half_toward_zero(win_w - img.width) + offset_x,
            gcy == half_toward_zero(win_h - img.height) + offset_y,
            cx == gcx,
            cy == gcy,
            -0x4_0000_0000 <= cx <= 0x4_0000_0000,
            -0x4_0000_0000 <= cy <= 0x4_0000_0000,
            wy <= win_h,
            out@.len() == wy * win_w,
            forall|xx: int, yy: int| 0 <= xx < win_w && 0 <= yy < wy ==> #[trigger] out@[yy * win_w + xx] as int
                == centered_cell(*img, gcx, gcy, xx, yy),
        decreases win_h - wy,
    {
        let mut wx: u32 = 0;
        while wx < win_w
            invariant
                img.wf(),
                win_w as int * win_h as int <= usize::MAX,
                cx == gcx,
                cy == gcy,
                -0x4_0000_0000 <= cx <= 0x4_0000_0000,
                -0x4_0000_0000 <= cy <= 0x4_0000_0000,
                wy < win_h,
                wx <= win_w,
                out@.len() == wy * win_w + wx,
                forall|xx: int, yy: int| 0 <= xx < win_w && 0 <= yy < wy ==> #[trigger] out@[yy * win_w + xx] as int
                    == centered_cell(*img, gcx, gcy, xx, yy),
                forall|xx: int| 0 <= xx < wx ==> #[trigger] out@[wy * win_w + xx] as int
                    == centered_cell(*img, gcx, gcy, xx, wy as int),
            decreases win_w - wx,
        {
            let ix: i64 = wx as i64 - cx;
            let iy: i64 = wy as i64 - cy;
            let v: u32 = if 0 <= ix && ix < img.width as i64 && 0 <= iy && iy < img.height as i64 {
                let (r, g, b, a) = rgba_at(img, ix as u32, iy as u32);
                over_exec(BG_COLOR, r, g, b, a)
            } else {
                BG_COLOR
            };
            proof {
                assert(wy * win_w + wx < win_w * win_h) by (nonlinear_arith)
                    requires wy < win_h, wx < win_w;
            }
            let ghost prev = out@;
            out.push(v);
            proof {
                assert forall|xx: int, yy: int| 0 <= xx < win_w && 0 <= yy < wy implies #[trigger] out@[yy * win_w + xx] as int
                    == centered_cell(*img, gcx, gcy, xx, yy) by {
                    assert(yy * win_w + xx < wy * win_w) by (nonlinear_arith)
                        requires 0 <= xx < win_w, 0 <= yy < wy;
                    assert(out@[yy * win_w + xx] == prev[yy * win_w + xx]);
                }
                assert forall|xx: int| 0 <= xx < wx + 1 implies #[trigger] out@[wy * win_w + xx] as int
                    == centered_cell(*img, gcx, gcy, xx, wy as int) by {
                    if xx < wx {
                        assert(out@[wy * win_w + xx] == prev[wy * win_w + xx]);
                    }
                }
            }
            wx = wx + 1;
        }
        proof {
            assert(out@.len() == (wy + 1) * win_w) by (nonlinear_arith)
                requires out@.len() == wy * win_w + win_w;
        }
        wy = wy + 1;
    }
    proof {
        assert(out@.len() == win_w as int * win_h as int) by (nonlinear_arith)
            requires out@.len() == win_h * win_w;
    }
    out
}

/// The image as XRGB pixels, row by row; alpha is dropped.
pub fn rgba_to_xrgb(img: &RgbaImage) -> (r: Vec<u32>)
    requires
        img.wf(),
    ensures
        r@.len() == img.width as int * img.height as int,
        forall|i: int| 0 <= i < r@.len() ==> #[trigger] r@[i] as int == xrgb(
            img.data@[4 * i] as int,
            img.data@[4 * i + 1] as int,
            img.data@[4 * i + 2] as int,
        ),
{
    let len: usize = img.data.len();
    let n: usize = len / 4;
    let mut out: Vec<u32> = Vec::new();
    let mut i: usize = 0;
    while i < n
        invariant
            img.wf(),
            n == img.width as int * img.height as int,
            len == img.data@.len(),
            len == 4 * n,
            i <= n,
            out@.len() == i,
            forall|k: int| 0 <= k < i ==> #[trigger] out@[k] as int == xrgb(
                img.data@[4 * k] as int,
                img.data@[4 * k + 1] as int,
                img.data@[4 * k + 2] as int,
            ),
        decreases n - i,
    {
        let (b0, b1, b2) = (img.data[4 * i] as u32, img.data[4 * i + 1] as u32, img.data[4 * i + 2] as u32);
        let v: u32 = b0 * 65536 + b1 * 256 + b2;
        out.push(v);
        i = i + 1;
    }
    out
}

/// Buffer cell `i` (rows `bw` wide, `bh` tall) lies under the `tw` x `th`
/// thumbnail placed with its top left corner at `(ox, oy)`.
pub open spec fn under_thumb(i: int, bw: int, bh: int, ox: int, oy: int, tw: int, th: int) -> bool {
    bw > 0 && i / bw < bh && ox <= i % bw < ox + tw && oy <= i / bw < oy + th
}

/// Left edge of a thumbnail `tw` wide centered in a cell `cell_w` wide at `dx`.
pub open spec fn centered_in(dx: int, cell_w: int, tw: int) -> int {
    dx + (if cell_w > tw { cell_w - tw } else { 0 }) / 2
}

/// Draws `thumb` over an XRGB buffer `buf_w` x `buf_h`, centered in the cell
/// `cell_w` x `cell_h` whose top left corner is `(dx, dy)`, clipped to the buffer.
pub fn blit_thumbnail(buf: &mut [u32], buf_w: u32, buf_h: u32, thumb: &RgbaImage, dx: u32, dy: u32, cell_w: u32, cell_h: u32)
    requires
        thumb.wf(),
        old(buf)@.len() >= buf_w as int * buf_h as int,
    ensures
        final(buf)@.len() == old(buf)@.len(),
        forall|i: int| 0 <= i < final(buf)@.len() ==> #[trigger] final(buf)@[i] as int == if under_thumb(
            i,
            buf_w as int,
            buf_h as int,
            centered_in(dx as int, cell_w as int, thumb.width as int),
            centered_in(dy as int, cell_h as int, thumb.height as int),
            thumb.width as int,
            thumb.height as int,
        ) {
            over_px(
                old(buf)@[i] as int,
                *thumb,
                i % buf_w as int - centered_in(dx as int, cell_w as int, thumb.width as int),
                i / buf_w as int - centered_in(dy as int, cell_h as int, thumb.height as int),
            )
        } else {
            old(buf)@[i] as int
        },
{
    let ghost start = buf@;
    let ghost len = buf@.len() as int;
    let blen: usize = buf.len();
    let (tw, th) = (thumb.width, thumb.height);
    let ox: u64 = dx as u64 + (cell_w.saturating_sub(tw) / 2) as u64;
    let oy: u64 = dy as u64 + (cell_h.saturating_sub(th) / 2) as u64;
    let ghost (gox, goy, bw, bh) = (ox as int, oy as int, buf_w as int, buf_h as int);
    assert(gox == centered_in(dx as int, cell_w as int, tw as int));
    assert(goy == centered_in(dy as int, cell_h as int, th as int));
    let mut iy: u32 = 0;
    while iy < th && oy + (iy as u64) < buf_h as u64
        invariant
            thumb.wf(),
            buf@.len() == len,
            blen == len,
            start.len() == len,
            len >= bw * bh,
            tw == thumb.width,
            th == thumb.height,
            bw == buf_w,
            bh == buf_h,
            ox == gox,
            oy == goy,
            ox <= 0x2_0000_0000,
            oy <= 0x2_0000_0000,
            iy <= th,
            forall|i: int| 0 <= i < len ==> #[trigger] buf@[i] as int == if under_thumb(i, bw, bh, gox, goy, tw as int, th as int)
                && i / bw < goy + iy {
                over_px(start[i] as int, *thumb, i % bw - gox, i / bw - goy)
            } else {
                start[i] as int
            },
        decreases th - iy,
    {
        let py: u64 = oy + iy as u64;
        let mut ix: u32 = 0;
        while ix < tw && ox + (ix as u64) < buf_w as u64
            invariant
                thumb.wf(),
                buf@.len() == len,
                blen == len,
                start.len() == len,
                len >= bw * bh,
                tw == thumb.width,
                th == thumb.height,
                bw == buf_w,
                bh == buf_h,
                ox == gox,
                oy == goy,
                ox <= 0x2_0000_0000,
                oy <= 0x2_0000_0000,
                iy < th,
                py == oy + iy,
                py < bh,
                ix <= tw,
                forall|i: int| 0 <= i < len ==> #[trigger] buf@[i] as int == if under_thumb(i, bw, bh, gox, goy, tw as int, th as int)
                    && (i / bw < py || (i / bw == py && i % bw < gox + ix)) {
                    over_px(start[i] as int, *thumb, i % bw - gox, i / bw - goy)
                } else {
                    start[i] as int
                },
            decreases tw - ix,
        {
            let px: u64 = ox + ix as u64;
            let ghost k = py as int * bw + px as int;
            proof {
                lemma_fundamental_div_mod_converse(k, bw, py as int, px as int);
                assert(0 <= py * bw <= k < bw * bh) by (nonlinear_arith)
                    requires k == py * bw + px, py < bh, px < bw, py >= 0, px >= 0;
            }
            let idx: usize = (py as usize) * (buf_w as usize) + px as usize;
            let (r, g, b, a) = rgba_at(thumb, ix, iy);
            let ghost prev = buf@;
            assert(buf@[k] == start[k]);
            let v = over_exec(buf[idx], r, g, b, a);
            buf[idx] = v;
            proof {
                assert forall|i: int| 0 <= i < len implies #[trigger] buf@[i] as int == if under_thumb(i, bw, bh, gox, goy, tw as int, th as int)
                    && (i / bw < py || (i / bw == py && i % bw < gox + ix + 1)) {
                    over_px(start[i] as int, *thumb, i % bw - gox, i / bw - goy)
                } else {
                    start[i] as int
                } by {
                    if i != k {
                        lemma_fundamental_div_mod(i, bw);
                        assert(buf@[i] == prev[i]);
                        if i / bw == py && i % bw == px {
                            assert(bw * (py as int) == (py as int) * bw) by (nonlinear_arith);
                            assert(i == k);
                        }
                    }
                }
            }
            ix = ix + 1;
        }
        proof {
            assert forall|i: int| 0 <= i < len implies #[trigger] buf@[i] as int == if under_thumb(i, bw, bh, gox, goy, tw as int, th as int)
                && i / bw < goy + iy + 1 {
                over_px(start[i] as int, *thumb, i % bw - gox, i / bw - goy)
            } else {
                start[i] as int
            } by {
                if under_thumb(i, bw, bh, gox, goy, tw as int, th as int) && i / bw == py {
                    assert(i % bw < gox + ix);
                }
            }
        }
        iy = iy + 1;
    }
    proof {
        assert forall|i: int| 0 <= i < len implies #[trigger] buf@[i] as int == if under_thumb(i, bw, bh, gox, goy, tw as int, th as int) {
            over_px(start[i] as int, *thumb, i % bw - gox, i / bw - goy)
        } else {
            start[i] as int
        } by {
            if under_thumb(i, bw, bh, gox, goy, tw as int, th as int) {
                assert(i / bw < goy + iy);
            }
        }
    }
}

} // verus!
