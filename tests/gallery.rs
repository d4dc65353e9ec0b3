use rimg::gallery::{Gallery, PLACEHOLDER_COLOR, SELECTION_COLOR};
use rimg::image::RgbaImage;
use rimg::render::BG_COLOR;

#[test]
fn moves_stop_at_the_edges() {
    let mut g = Gallery::new();
    g.move_left(5);
    assert_eq!(g.selected, 0);
    g.move_right(5);
    g.move_right(5);
    assert_eq!(g.selected, 2);
    g.go_last(5);
    assert_eq!(g.selected, 4);
    g.move_right(5);
    assert_eq!(g.selected, 4);
    g.move_right(0);
    assert_eq!(g.selected, 4);
    g.go_first();
    assert_eq!(g.selected, 0);
    assert_eq!(g.scroll_y, 0);
    g.go_last(0);
    assert_eq!(g.selected, 0);
}

#[test]
fn rows_follow_the_layout() {
    let mut g = Gallery::new();
    // 10 + 10 + 10 padding and gap leave 640 pixels: three cells of 210
    g.layout(670, 800);
    assert_eq!(g.cols, 3);
    g.move_down(7);
    assert_eq!(g.selected, 3);
    g.move_down(7);
    assert_eq!(g.selected, 6);
    g.move_down(7);
    assert_eq!(g.selected, 6);
    g.move_up(7);
    assert_eq!(g.selected, 3);
    g.set_selected(1);
    g.move_up(7);
    assert_eq!(g.selected, 1);
    assert_eq!(g.calc_cols(5), 1);
    assert_eq!(Gallery::cell_size(), 210);
}

#[test]
fn layout_scrolls_selection_into_view() {
    let mut g = Gallery::new();
    g.set_selected(9);
    // one column, 300 pixels tall: row 9 spans 10 + 9 * 210 .. + 210
    g.layout(100, 300);
    assert_eq!(g.cols, 1);
    assert_eq!(g.scroll_y, 10 + 10 * 210 - 300 + 10);
    g.set_selected(0);
    g.layout(100, 300);
    assert_eq!(g.scroll_y, 0);
}

#[test]
fn render_draws_placeholders_selection_and_thumbnails() {
    let mut g = Gallery::new();
    let red = RgbaImage::from_raw(1, 1, vec![255, 0, 0, 255]).unwrap();
    let thumbs = vec![None, Some(red)];
    // window 450 x 240: two columns, grid starts at x = 10 + (450 - 430) / 2 = 20
    let buf = g.render(&thumbs, 450, 240);
    assert_eq!(g.cols, 2);
    assert_eq!(buf.len(), 450 * 240);
    let at = |x: usize, y: usize| buf[y * 450 + x];
    assert_eq!(at(0, 0), BG_COLOR);
    // selected cell 0: border from (17, 7), placeholder from (20, 10)
    assert_eq!(at(16, 7), BG_COLOR);
    assert_eq!(at(17, 7), SELECTION_COLOR);
    assert_eq!(at(20, 10), PLACEHOLDER_COLOR);
    assert_eq!(at(219, 209), PLACEHOLDER_COLOR);
    assert_eq!(at(222, 212), SELECTION_COLOR);
    assert_eq!(at(223, 212), BG_COLOR);
    // cell 1 at x = 230: the 1x1 thumbnail sits at its center (230 + 99, 10 + 99)
    assert_eq!(at(329, 109), 0x00FF0000);
    assert_eq!(at(330, 109), BG_COLOR);
    assert!(g.render(&thumbs, 0, 240).is_empty());
    assert_eq!(g.wanted_range(2, 240), (0, 2));
}
