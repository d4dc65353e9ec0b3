use vstd::prelude::*;
use crate::image::RgbaImage;
use crate::render::{
    BG_COLOR, fill_rect, blit_thumbnail, in_rect, under_thumb, centered_in, over_px,
};

verus! {

/// Side of a thumbnail, in pixels.
pub const THUMB_SIZE: u32 = 200;

/// Gap between thumbnails.
pub const GAP: u32 = 10;

/// Padding from the window edges.
pub const PADDING: u32 = 10;

/// Width of a grid cell: a thumbnail and a gap.
pub open spec fn cell() -> int {
    THUMB_SIZE + GAP
}

/// Columns that fit in a window `win_w` pixels wide, at least one.
pub open spec fn cols_for(win_w: int) -> int {
    let usable = if win_w > PADDING * 2 + GAP { win_w - (PADDING * 2 + GAP) } else { 0 };
    if usable / cell() >= 1 { usable / cell() } else { 1 }
}

/// Selection and scroll position of the thumbnail grid.
pub struct Gallery {
    /// Selected index in the image list.
    pub selected: usize,
    /// Vertical scroll offset in pixels.
    pub scroll_y: u32,
    /// Number of columns in the current layout.
    pub cols: usize,
}

impl Gallery {
    /// There is always at least one column.
    pub open spec fn wf(&self) -> bool {
        self.cols >= 1
    }

    /// First image selected, one column, scrolled to the top.
    pub fn new() -> (r: Self)
        ensures
            r.wf(),
            r.selected == 0,
            r.cols == 1,
            r.scroll_y == 0,
    {
        Gallery { selected: 0, scroll_y: 0, cols: 1 }
    }

    /// Set the selected index (when switching from the single-image view).
    pub fn set_selected(&mut self, index: usize)
        ensures
            final(self).selected == index,
            final(self).cols == old(self).cols,
            final(self).scroll_y == old(self).scroll_y,
    {
        self.selected = index;
    }

    pub fn cell_size() -> (r: u32)
        ensures
            r as int == cell(),
    {
        THUMB_SIZE + GAP
    }

    /// Columns of the layout for a window `win_w` pixels wide.
    pub fn calc_cols(&self, win_w: u32) -> (r: usize)
        ensures
            r as int == cols_for(win_w as int),
    {
        let usable: u32 = win_w.saturating_sub(PADDING * 2 + GAP);
        let n: u32 = usable / Self::cell_size();
        if n >= 1 { n as usize } else { 1 }
    }

    /// Move the selection one to the left, stopping at the first image.
    pub fn move_left(&mut self, total: usize)
        ensures
            final(self).selected == (if total > 0 && old(self).selected > 0 {
                (old(self).selected - 1) as usize
            } else {
                old(self).selected
            }),
            final(self).cols == old(self).cols,
            final(self).scroll_y == old(self).scroll_y,
    {
        if total == 0 {
            return;
        }
        if self.selected > 0 {
            self.selected -= 1;
        }
    }

    /// Move the selection one to the right, stopping at the last of `total` images.
    pub fn move_right(&mut self, total: usize)
        ensures
            final(self).selected == (if old(self).selected + 1 < total {
                (old(self).selected + 1) as usize
            } else {
                old(self).selected
            }),
            final(self).cols == old(self).cols,
            final(self).scroll_y == old(self).scroll_y,
    {
        if total == 0 {
            return;
        }
        if self.selected < total - 1 {
            self.selected += 1;
        }
    }

    /// Move the selection up one row, if there is a row above.
    pub fn move_up(&mut self, total: usize)
        ensures
            final(self).selected == (if old(self).selected >= (old(self).cols as int) {
                (old(self).selected - (old(self).cols as int)) as usize
            } else {
                old(self).selected
            }),
            final(self).cols == old(self).cols,
            final(self).scroll_y == old(self).scroll_y,
    {
        if self.selected >= self.cols {
            self.selected -= self.cols;
        }
    }

    /// Move the selection down one row, if that row holds an image at this column.
    pub fn move_down(&mut self, total: usize)
        ensures
            final(self).selected == (if old(self).selected + (old(self).cols as int) < total {
                (old(self).selected + (old(self).cols as int)) as usize
            } else {
                old(self).selected
            }),
            final(self).cols == old(self).cols,
            final(self).scroll_y == old(self).scroll_y,
    {
        if total == 0 {
            return;
        }
        if self.cols < total && self.selected < total - self.cols {
            self.selected += self.cols;
        }
    }

    /// Jump to the first image, scrolled to the top.
    pub fn go_first(&mut self)
        ensures
            final(self).selected == 0,
            final(self).scroll_y == 0,
            final(self).cols == old(self).cols,
    {
        self.selected = 0;
        self.scroll_y = 0;
    }

    /// Jump to the last of `total` images.
    pub fn go_last(&mut self, total: usize)
        ensures
            final(self).selected == (if total > 0 { (total - 1) as usize } else { old(self).selected }),
            final(self).cols == old(self).cols,
            final(self).scroll_y == old(self).scroll_y,
    {
        if total > 0 {
            self.selected = total - 1;
        }
    }

    /// Lay the grid out for a window of `win_w` x `win_h` pixels: recompute the
    /// columns, then scroll so that the selected thumbnail's row is in view.
    pub fn layout(&mut self, win_w: u32, win_h: u32)
        requires
            old(self).selected < 0x100_0000,
        ensures
            final(self).wf(),
            final(self).selected == old(self).selected,
            (final(self).cols as int) == cols_for(win_w as int),
            (final(self).scroll_y as int) == visible_scroll(
                (old(self).scroll_y as int),
                old(self).selected as int / cols_for(win_w as int),
                win_h as int,
            ),
    {
        self.cols = self.calc_cols(win_w);
        self.ensure_visible(win_h);
    }

    /// Lays the grid out for a `win_w` x `win_h` window and draws it into a new
    /// XRGB buffer: one cell per image, `thumbs[i]` the thumbnail of image `i` once
    /// it is loaded. An empty window gives an empty buffer and changes nothing.
    pub fn render(&mut self, thumbs: &Vec<Option<RgbaImage>>, win_w: u32, win_h: u32) -> (r: Vec<u32>)
        requires
            old(self).wf(),
            old(self).selected < 0x100_0000,
            win_w < 0x10000,
            win_h < 0x10000,
            forall|i: int| 0 <= i < thumbs@.len() ==> (#[trigger] thumbs@[i] matches Some(t) ==> t.wf()),
        ensures
            win_w == 0 || win_h == 0 ==> r@.len() == 0 && final(self).selected == old(self).selected
                && final(self).cols == old(self).cols && final(self).scroll_y == old(self).scroll_y,
            win_w > 0 && win_h > 0 ==> {
                &&& final(self).wf()
                &&& final(self).selected == old(self).selected
                &&& final(self).cols as int == cols_for(win_w as int)
                &&& final(self).scroll_y as int == visible_scroll(
                    old(self).scroll_y as int,
                    old(self).selected as int / cols_for(win_w as int),
                    win_h as int,
                )
                &&& r@ == draw_cells(
                    Seq::new((win_w * win_h) as nat, |k: int| BG_COLOR),
                    win_w as int,
                    win_h as int,
                    final(self).cols as int,
                    final(self).scroll_y as int,
                    thumbs@,
                    final(self).selected as int,
                    first_visible(final(self).scroll_y as int, final(self).cols as int),
                    last_visible(final(self).scroll_y as int, win_h as int, final(self).cols as int, thumbs@.len() as int),
                )
            },
    {
        if win_w == 0 || win_h == 0 {
            return Vec::new();
        }
        self.layout(win_w, win_h);
        let total: usize = thumbs.len();
        let cols: usize = self.cols;
        proof {
            assert(cols_for(win_w as int) <= 312);
        }
        let grid_x: u32 = PADDING + win_w.saturating_sub(PADDING * 2 + (cols as u32) * 210 - GAP) / 2;
        proof {
            assert(win_w * win_h <= 0xffff * 0xffff) by (nonlinear_arith)
                requires win_w < 0x10000, win_h < 0x10000;
        }
        let n: usize = win_w as usize * win_h as usize;
        let mut buf: Vec<u32> = vec![BG_COLOR; n];
        let ghost bg = buf@;
        assert(bg =~= Seq::new((win_w * win_h) as nat, |k: int| BG_COLOR));
        let scroll: u64 = self.scroll_y as u64;
        proof {
            assert((scroll / 210) * cols <= 0xffff_ffff * 312) by (nonlinear_arith)
                requires scroll <= 0xffff_ffff, cols <= 312;
            assert(((scroll + win_h) / 210 + 2) * cols <= 0x2_0000_0000 * 312) by (nonlinear_arith)
                requires scroll <= 0xffff_ffff, win_h < 0x10000, cols <= 312;
        }
        let first: u64 = (scroll / 210) * cols as u64;
        let end0: u64 = ((scroll + win_h as u64) / 210 + 2) * cols as u64;
        let last: u64 = if end0 < total as u64 { end0 } else { total as u64 };
        let ghost (gw, gh, gc, gs, sel) = (win_w as int, win_h as int, cols as int, scroll as int, self.selected as int);
        let mut i: u64 = first;
        if i < last {
            while i < last
                invariant
                    first <= i <= last,
                    last <= total,
                    last <= end0,
                    total == thumbs@.len(),
                    end0 == ((scroll + win_h) / 210 + 2) * cols,
                    scroll <= u32::MAX,
                    1 <= cols <= 312,
                    grid_x as int == grid_left(gw, gc),
                    gw == win_w,
                    gh == win_h,
                    gc == cols,
                    gs == scroll,
                    0 < win_w < 0x10000,
                    0 < win_h < 0x10000,
                    buf@.len() == win_w * win_h,
                    win_w * win_h <= 0xffff * 0xffff,
                    self.selected as int == sel,
                    forall|j: int| 0 <= j < thumbs@.len() ==> (#[trigger] thumbs@[j] matches Some(t) ==> t.wf()),
                    buf@ == draw_cells(bg, gw, gh, gc, gs, thumbs@, sel, first as int, i as int),
                decreases last - i,
            {
                let iu: usize = i as usize;
                let col: u64 = i % cols as u64;
                let row: u64 = i / cols as u64;
                proof {
                    let (ri, ii, ci, ei, si, hi) = (row as int, i as int, cols as int, end0 as int, scroll as int, win_h as int);
                    assert(ri * 210 <= (si + hi) * 210 + 420 * 210) by (nonlinear_arith)
                        requires ri == ii / ci, ii < ei, ei == ((si + hi) / 210 + 2) * ci, ci >= 1, si >= 0, hi >= 0, ii >= 0;
                }
                let x: u64 = grid_x as u64 + col * 210;
                let y: i64 = 10 + (row * 210) as i64 - scroll as i64;
                let ghost before = buf@;
                proof {
                    assert(x as int == grid_left(gw, gc) + (i as int % gc) * cell());
                    assert(y as int == PADDING + (i as int / gc) * cell() - gs);
                }
                if !(y + 210 <= 0 || y >= win_h as i64) {
                    let dy: u32 = if y > 0 { y as u32 } else { 0 };
                    if iu == self.selected {
                        let bx: u32 = (x as u32).saturating_sub(BORDER_W);
                        let by: u32 = dy.saturating_sub(if y >= 0 { BORDER_W } else { 0 });
                        fill_rect(buf.as_mut_slice(), win_w, bx, by, THUMB_SIZE + BORDER_W * 2, THUMB_SIZE + BORDER_W * 2, SELECTION_COLOR);
                    }
                    let ghost framed = buf@;
                    match &thumbs[iu] {
                        Some(t) => {
                            blit_thumbnail(buf.as_mut_slice(), win_w, win_h, t, x as u32, dy, THUMB_SIZE, THUMB_SIZE);
                        },
                        None => {
                            fill_rect(buf.as_mut_slice(), win_w, x as u32, dy, THUMB_SIZE, THUMB_SIZE, PLACEHOLDER_COLOR);
                        },
                    }
                    proof {
                        let fr = if i as int == sel {
                            filled(
                                before,
                                gw,
                                sat_sub(x as int, BORDER_W as int),
                                sat_sub(dy as int, if y >= 0 { BORDER_W as int } else { 0 }),
                                THUMB_SIZE + BORDER_W * 2,
                                THUMB_SIZE + BORDER_W * 2,
                                SELECTION_COLOR,
                            )
                        } else {
                            before
                        };
                        assert(framed =~= fr);
                        match thumbs@[i as int] {
                            Some(t) => {
                                assert(buf@ =~= blitted(fr, gw, gh, t, x as int, dy as int));
                            },
                            None => {
                                assert(buf@ =~= filled(fr, gw, x as int, dy as int, THUMB_SIZE as int, THUMB_SIZE as int, PLACEHOLDER_COLOR));
                            },
                        }
                        assert(buf@ =~= draw_cell(before, gw, gh, gc, gs, thumbs@, sel, i as int));
                    }
                }
                i = i + 1;
            }
        }
        buf
    }

    /// Images whose thumbnails the current view wants loaded, as a range
    /// `(start, end)`: the visible rows and one more row above and below.
    pub fn wanted_range(&self, total: usize, win_h: u32) -> (r: (u64, u64))
        requires
            self.wf(),
            self.cols <= 312,
        ensures
            r.0 as int == sat_sub(first_visible(self.scroll_y as int, self.cols as int), self.cols as int),
            r.1 as int == (if last_visible(self.scroll_y as int, win_h as int, self.cols as int, total as int)
                + self.cols < total {
                last_visible(self.scroll_y as int, win_h as int, self.cols as int, total as int) + self.cols
            } else {
                total as int
            }),
    {
        let cols: u64 = self.cols as u64;
        let scroll: u64 = self.scroll_y as u64;
        proof {
            assert((scroll / 210) * cols <= 0xffff_ffff * 312) by (nonlinear_arith)
                requires scroll <= 0xffff_ffff, cols <= 312;
            assert(((scroll + win_h) / 210 + 2) * cols <= 0x2_0000_0000 * 312) by (nonlinear_arith)
                requires scroll <= 0xffff_ffff, win_h <= 0xffff_ffff, cols <= 312;
        }
        let first: u64 = (scroll / 210) * cols;
        let end0: u64 = ((scroll + win_h as u64) / 210 + 2) * cols;
        let last: u64 = if end0 < total as u64 { end0 } else { total as u64 };
        let start: u64 = if first > cols { first - cols } else { 0 };
        let end: u64 = if last + cols < total as u64 { last + cols } else { total as u64 };
        (start, end)
    }

    /// Scroll so that the selected thumbnail's row is in view.
    fn ensure_visible(&mut self, win_h: u32)
        requires
            old(self).wf(),
            old(self).selected < 0x100_0000,
        ensures
            final(self).wf(),
            final(self).selected == old(self).selected,
            final(self).cols == old(self).cols,
            (final(self).scroll_y as int) == visible_scroll(
                (old(self).scroll_y as int),
                old(self).selected as int / (old(self).cols as int),
                win_h as int,
            ),
    {
        let row: u32 = (self.selected / self.cols) as u32;
        let y_top: u32 = PADDING + row * Self::cell_size();
        let y_bottom: u32 = y_top + Self::cell_size();
        if y_top < self.scroll_y {
            self.scroll_y = y_top.saturating_sub(PADDING);
        }
        if y_bottom as u64 > self.scroll_y as u64 + win_h as u64 {
            self.scroll_y = y_bottom.saturating_sub(win_h) + PADDING;
        }
    }
}

/// The scroll offset after bringing grid row `row` into a window `win_h` tall:
/// scrolled up to just above the row when the row starts above the view, then
/// down to just below it when it ends below the view.
pub open spec fn visible_scroll(scroll: int, row: int, win_h: int) -> int {
    let top = PADDING + row * cell();
    let bottom = top + cell();
    let s1 = if top < scroll { if top > PADDING { top - PADDING } else { 0 } } else { scroll };
    if bottom > s1 + win_h {
        (if bottom > win_h { bottom - win_h } else { 0 }) + PADDING
    } else {
        s1
    }
}

/// Selection border color.
pub const SELECTION_COLOR: u32 = 0x00CCCCCC;

/// Color of a cell whose thumbnail is not loaded yet.
pub const PLACEHOLDER_COLOR: u32 = 0x00333333;

/// Width of the selection border.
pub const BORDER_W: u32 = 3;

/// `a - b`, at least zero.
pub open spec fn sat_sub(a: int, b: int) -> int {
    if a > b { a - b } else { 0 }
}

/// `buf` with the rectangle at `(x, y)`, `w` x `h`, filled with `color`, as
/// `fill_rect` paints it.
pub open spec fn filled(buf: Seq<u32>, bw: int, x: int, y: int, w: int, h: int, color: u32) -> Seq<u32> {
    Seq::new(buf.len(), |k: int| if in_rect(k, buf.len() as int, bw, x, y, w, h) { color } else { buf[k] })
}

/// `buf` with `t` drawn centered in the thumbnail cell at `(x, y)`, as
/// `blit_thumbnail` draws it.
pub open spec fn blitted(buf: Seq<u32>, bw: int, bh: int, t: RgbaImage, x: int, y: int) -> Seq<u32> {
    let ox = centered_in(x, THUMB_SIZE as int, t.width as int);
    let oy = centered_in(y, THUMB_SIZE as int, t.height as int);
    Seq::new(
        buf.len(),
        |k: int|
            if under_thumb(k, bw, bh, ox, oy, t.width as int, t.height as int) {
                over_px(buf[k] as int, t, k % bw - ox, k / bw - oy) as u32
            } else {
                buf[k]
            },
    )
}

/// Left edge of the grid: centered in the window, at least the padding in.
pub open spec fn grid_left(win_w: int, cols: int) -> int {
    PADDING + sat_sub(win_w, PADDING * 2 + cols * cell() - GAP) / 2
}

/// `buf` with cell `i` of the grid drawn, when any of it is on screen: the
/// selection border first when `i` is selected, then the thumbnail when it is
/// loaded, else a placeholder.
pub open spec fn draw_cell(
    buf: Seq<u32>,
    win_w: int,
    win_h: int,
    cols: int,
    scroll: int,
    thumbs: Seq<Option<RgbaImage>>,
    sel: int,
    i: int,
) -> Seq<u32> {
    let x = grid_left(win_w, cols) + (i % cols) * cell();
    let y = PADDING + (i / cols) * cell() - scroll;
    if y + cell() <= 0 || y >= win_h {
        buf
    } else {
        let dy = if y > 0 { y } else { 0 };
        let framed = if i == sel {
            filled(
                buf,
                win_w,
                sat_sub(x, BORDER_W as int),
                sat_sub(dy, if y >= 0 { BORDER_W as int } else { 0 }),
                THUMB_SIZE + BORDER_W * 2,
                THUMB_SIZE + BORDER_W * 2,
                SELECTION_COLOR,
            )
        } else {
            buf
        };
        match thumbs[i] {
            Some(t) => blitted(framed, win_w, win_h, t, x, dy),
            None => filled(framed, win_w, x, dy, THUMB_SIZE as int, THUMB_SIZE as int, PLACEHOLDER_COLOR),
        }
    }
}

/// `bg` with cells `from` up to (not including) `to` drawn in order.
pub open spec fn draw_cells(
    bg: Seq<u32>,
    win_w: int,
    win_h: int,
    cols: int,
    scroll: int,
    thumbs: Seq<Option<RgbaImage>>,
    sel: int,
    from: int,
    to: int,
) -> Seq<u32>
    decreases to - from,
{
    if to <= from {
        bg
    } else {
        draw_cell(draw_cells(bg, win_w, win_h, cols, scroll, thumbs, sel, from, to - 1), win_w, win_h, cols, scroll, thumbs, sel, to - 1)
    }
}

/// First image of the first row in view.
pub open spec fn first_visible(scroll: int, cols: int) -> int {
    (scroll / cell()) * cols
}

/// End of the images in view: the rows down to one past the window's bottom.
pub open spec fn last_visible(scroll: int, win_h: int, cols: int, total: int) -> int {
    let end = ((scroll + win_h) / cell() + 2) * cols;
    if end < total { end } else { total }
}

} // verus!
