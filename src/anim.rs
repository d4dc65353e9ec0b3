use vstd::prelude::*;
use crate::image::{RgbaImage, LoadedImage, Frame, MIN_FRAME_DELAY_MS, px_index, byte_at, rgba_len};
use crate::orient::{lemma_before_index, lemma_row_end, before};

verus! {

/// One GIF frame as the decoder hands it over: where it lies on the logical
/// screen, its palette indices row by row, its color table as R, G, B triples,
/// and its transparent index, if any.
pub struct GifFrame {
    pub left: u32,
    pub top: u32,
    pub width: u32,
    pub height: u32,
    pub indices: Vec<u8>,
    pub colors: Vec<u8>,
    pub transparent: Option<u8>,
}

impl GifFrame {
    /// One index per pixel of the frame.
    pub open spec fn wf(&self) -> bool {
        self.indices@.len() == self.width as int * self.height as int
    }

    /// The frame covers canvas pixel `(x, y)`.
    pub open spec fn covers(&self, x: int, y: int) -> bool {
        self.left <= x < self.left + self.width && self.top <= y < self.top + self.height
    }

    /// Palette index the frame gives canvas pixel `(x, y)`, which it covers.
    pub open spec fn index_at(&self, x: int, y: int) -> int {
        self.indices@[(y - self.top) * self.width + (x - self.left)] as int
    }
}

/// Channel `c` of canvas pixel `(x, y)` once frame `f` is drawn over `prev`: a
/// covered pixel whose index is not the transparent one and lies in the color
/// table takes that color, fully opaque; every other pixel keeps what `prev` had.
pub open spec fn gif_px(prev: RgbaImage, f: GifFrame, x: int, y: int, c: int) -> u8 {
    if f.covers(x, y) && f.transparent != Some(f.index_at(x, y) as u8) && 3 * f.index_at(x, y) + 3
        <= f.colors@.len() {
        if c == 3 {
            255u8
        } else {
            f.colors@[3 * f.index_at(x, y) + c]
        }
    } else {
        prev.px(x, y, c)
    }
}

proof fn lemma_frame_index(f: GifFrame, x: int, y: int)
    requires
        f.wf(),
        f.covers(x, y),
    ensures
        0 <= (y - f.top) * f.width + (x - f.left) < f.indices@.len(),
{
    let (r, c, w, h) = (y - f.top, x - f.left, f.width as int, f.height as int);
    assert(0 <= r * w + c < w * h) by (nonlinear_arith) requires 0 <= r < h, 0 <= c < w;
}

fn gif_pixel(prev: &RgbaImage, f: &GifFrame, x: u32, y: u32) -> (r: (u8, u8, u8, u8))
    requires
        prev.wf(),
        f.wf(),
        x < prev.width,
        y < prev.height,
    ensures
        r.0 == gif_px(*prev, *f, x as int, y as int, 0),
        r.1 == gif_px(*prev, *f, x as int, y as int, 1),
        r.2 == gif_px(*prev, *f, x as int, y as int, 2),
        r.3 == gif_px(*prev, *f, x as int, y as int, 3),
{
    let ghost (gx, gy) = (x as int, y as int);
    proof {
        crate::orient::lemma_px_bound(prev.width as int, prev.height as int, gx, gy);
    }
    let n: usize = prev.data.len();
    let (w, yy, xx) = (prev.width as usize, y as usize, x as usize);
    proof {
        assert(0 <= yy * w <= yy * w + xx <= (yy * w + xx) * 4 <= n) by (nonlinear_arith)
            requires
                (yy * w + xx) * 4 + 4 <= prev.width as int * prev.height as int * 4,
                n == prev.width as int * prev.height as int * 4,
                w == prev.width;
    }
    let base: usize = (yy * w + xx) * 4;
    let keep = (prev.data[base], prev.data[base + 1], prev.data[base + 2], prev.data[base + 3]);
    if (x as u64) < f.left as u64 || (x as u64) >= f.left as u64 + f.width as u64 || (y as u64)
        < f.top as u64 || (y as u64) >= f.top as u64 + f.height as u64 {
        return keep;
    }
    proof {
        lemma_frame_index(*f, gx, gy);
    }
    let ni: usize = f.indices.len();
    let (r, c, fw) = ((y - f.top) as usize, (x - f.left) as usize, f.width as usize);
    proof {
        assert(0 <= r * fw <= r * fw + c) by (nonlinear_arith) requires r >= 0, fw >= 0, c >= 0;
    }
    let i: usize = r * fw + c;
    let idx = f.indices[i];
    if f.transparent == Some(idx) {
        return keep;
    }
    if (idx as usize) * 3 + 3 > f.colors.len() {
        return keep;
    }
    let k: usize = idx as usize * 3;
    (f.colors[k], f.colors[k + 1], f.colors[k + 2], 255)
}

/// `out` is the canvas `prev` with frame `f` drawn over it.
pub open spec fn composited(prev: RgbaImage, f: GifFrame, out: RgbaImage) -> bool {
    &&& out.wf()
    &&& out.width == prev.width
    &&& out.height == prev.height
    &&& forall|x: int, y: int, c: int|
        0 <= x < out.width && 0 <= y < out.height && 0 <= c < 4 ==> #[trigger] out.px(x, y, c)
            == gif_px(prev, f, x, y, c)
}

/// Draws frame `f` over the canvas `prev` (the previous frame's output), as
/// [`gif_px`] says: transparent pixels leave the canvas as it was.
pub fn composite_gif_frame(prev: &RgbaImage, f: &GifFrame) -> (r: RgbaImage)
    requires
        prev.wf(),
        f.wf(),
    ensures
        composited(*prev, *f, r),
{
    let w: usize = prev.width as usize;
    let h: usize = prev.height as usize;
    let mut data: Vec<u8> = Vec::new();
    let mut y: usize = 0;
    while y < h
        invariant
            prev.wf(),
            f.wf(),
            w == prev.width,
            h == prev.height,
            0 <= y <= h,
            data@.len() == px_index(w as int, 0, y as int),
            forall|xx: int, yy: int, c: int|
                0 <= xx < w && 0 <= yy && before(xx, yy, 0, y as int) && 0 <= c < 4
                    ==> #[trigger] byte_at(data@, w as int, xx, yy, c) == gif_px(*prev, *f, xx, yy, c),
        decreases h - y,
    {
        let mut x: usize = 0;
        while x < w
            invariant
                prev.wf(),
                f.wf(),
                w == prev.width,
                h == prev.height,
                0 <= y < h,
                0 <= x <= w,
                data@.len() == px_index(w as int, x as int, y as int),
                forall|xx: int, yy: int, c: int|
                    0 <= xx < w && 0 <= yy && before(xx, yy, x as int, y as int) && 0 <= c < 4
                        ==> #[trigger] byte_at(data@, w as int, xx, yy, c) == gif_px(*prev, *f, xx, yy, c),
            decreases w - x,
        {
            let (r, g, b, a) = gif_pixel(prev, f, x as u32, y as u32);
            let ghost before_push = data@;
            data.push(r);
            data.push(g);
            data.push(b);
            data.push(a);
            assert forall|xx: int, yy: int, c: int|
                0 <= xx < w && 0 <= yy && before(xx, yy, x as int + 1, y as int) && 0 <= c < 4
                    implies #[trigger] byte_at(data@, w as int, xx, yy, c) == gif_px(*prev, *f, xx, yy, c) by {
                if before(xx, yy, x as int, y as int) {
                    lemma_before_index(w as int, xx, yy, x as int, y as int);
                    assert(byte_at(before_push, w as int, xx, yy, c) == byte_at(data@, w as int, xx, yy, c));
                } else {
                    assert(xx == x && yy == y);
                }
            }
            x = x + 1;
        }
        proof {
            lemma_row_end(w as int, y as int);
        }
        y = y + 1;
    }
    proof {
        assert(px_index(w as int, 0, h as int) == rgba_len(prev.width, prev.height)) by (nonlinear_arith)
            requires w == prev.width, h == prev.height;
    }
    RgbaImage { data, width: prev.width, height: prev.height }
}

/// `ms`, raised to the shortest frame delay.
pub open spec fn floored_delay(ms: int) -> int {
    if ms < MIN_FRAME_DELAY_MS { MIN_FRAME_DELAY_MS as int } else { ms }
}

/// Display time of a GIF frame whose graphics control block gives `delay_cs`
/// hundredths of a second.
pub fn gif_frame_delay_ms(delay_cs: u16) -> (r: u64)
    ensures
        r as int == floored_delay(delay_cs as int * 10),
{
    let ms: u64 = delay_cs as u64 * 10;
    if ms < MIN_FRAME_DELAY_MS { MIN_FRAME_DELAY_MS } else { ms }
}

/// Display time of an animation frame shown from cumulative timestamp `prev_ms`
/// to `ts_ms`: their difference, floored (a timestamp that goes backwards gets
/// the floor too).
pub fn timestamp_delay_ms(prev_ms: i64, ts_ms: i64) -> (r: u64)
    requires
        -0x1_0000_0000 <= prev_ms <= 0x1_0000_0000,
        -0x1_0000_0000 <= ts_ms <= 0x1_0000_0000,
    ensures
        r as int == floored_delay(ts_ms - prev_ms),
{
    let d: i64 = ts_ms - prev_ms;
    if d < MIN_FRAME_DELAY_MS as i64 { MIN_FRAME_DELAY_MS } else { d as u64 }
}

/// `v`, at most `u64::MAX`.
pub open spec fn capped(v: int) -> int {
    if v > u64::MAX { u64::MAX as int } else { v }
}

/// Display time of a frame lasting `ticks` ticks at `tps_num / tps_den` ticks
/// per second, in whole milliseconds (rounded down), floored, and capped at
/// `u64::MAX`; 100 ms when the tick rate is zero.
pub fn tick_delay_ms(ticks: u32, tps_num: u32, tps_den: u32) -> (r: u64)
    ensures
        r as int == capped(floored_delay(if tps_num == 0 { 100 } else {
            ticks as int * tps_den as int * 1000 / tps_num as int
        })),
{
    if tps_num == 0 {
        return 100;
    }
    proof {
        assert(ticks as int * tps_den as int * 1000 <= 0xffff_ffff * 0xffff_ffff * 1000) by (nonlinear_arith)
            requires ticks <= 0xffff_ffffu32, tps_den <= 0xffff_ffffu32;
    }
    let p: u128 = ticks as u128 * tps_den as u128 * 1000;
    let ms: u128 = p / tps_num as u128;
    proof {
        assert(ms as int <= p as int) by (nonlinear_arith) requires ms as int == p as int / (tps_num as int), tps_num >= 1, p >= 0;
    }
    if ms < MIN_FRAME_DELAY_MS as u128 {
        MIN_FRAME_DELAY_MS
    } else if ms > u64::MAX as u128 {
        u64::MAX
    } else {
        ms as u64
    }
}

/// The decoded frames as an image: none for no frame, a still image for one,
/// an animation otherwise.
pub fn finish_frames(mut frames: Vec<Frame>) -> (r: Option<LoadedImage>)
    requires
        forall|i: int| 0 <= i < frames@.len() ==> (#[trigger] frames@[i]).image.wf(),
    ensures
        r is None <==> frames@.len() == 0,
        r matches Some(img) ==> img.wf() && img.first_spec() == frames@[0].image,
        frames@.len() == 1 ==> r matches Some(LoadedImage::Static(_)),
        frames@.len() >= 2 ==> (r matches Some(LoadedImage::Animated { frames: f }) && f@ == frames@),
{
    if frames.len() == 0 {
        return None;
    }
    if frames.len() == 1 {
        let only = frames.pop().unwrap();
        return Some(LoadedImage::Static(only.image));
    }
    Some(LoadedImage::Animated { frames })
}

/// A pixel that a frame marks transparent keeps the color the canvas had before
/// the frame, whatever earlier frame put it there; it is never erased to the
/// background.
pub proof fn law_transparent_pixel_keeps_canvas(prev: RgbaImage, f: GifFrame, out: RgbaImage, x: int, y: int, c: int)
    requires
        composited(prev, f, out),
        0 <= x < prev.width,
        0 <= y < prev.height,
        0 <= c < 4,
        f.covers(x, y),
        f.transparent == Some(f.index_at(x, y) as u8),
    ensures
        out.px(x, y, c) == prev.px(x, y, c),
{
    assert(out.px(x, y, c) == gif_px(prev, f, x, y, c));
}

/// Pixels outside a frame's rectangle keep the canvas color.
pub proof fn law_uncovered_pixel_keeps_canvas(prev: RgbaImage, f: GifFrame, out: RgbaImage, x: int, y: int, c: int)
    requires
        composited(prev, f, out),
        0 <= x < prev.width,
        0 <= y < prev.height,
        0 <= c < 4,
        !f.covers(x, y),
    ensures
        out.px(x, y, c) == prev.px(x, y, c),
{
    assert(out.px(x, y, c) == gif_px(prev, f, x, y, c));
}

} // verus!
