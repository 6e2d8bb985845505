//! What a frame shows: colors, cells, links, selections, blocks, glyphs.

use purrtty::atlas::{GlyphTable, Lookup, Packer, ATLAS_SIZE};
use purrtty::cell::{Attrs, Cell, Color};
use purrtty::config::ColorsSection;
use purrtty::grid::{Grid, WIDE_CONT};
use purrtty::links::url_hit_in_row;
use purrtty::paint::{
    cursor_cell, frame_cells, link_underline, selection_spans, tab_has_close_button,
    tab_has_separator, LinkSpan,
};
use purrtty::selection::{
    after_release, selection_to_text, view_row_to_absolute, GridPoint, Selection,
};
use purrtty::theme::{Rgb, Theme};
use purrtty::urls::find_urls;
use purrtty::view::{render_blocks, RenderBlock};
use purrtty::Terminal;

fn rgb(r: u8, g: u8, b: u8) -> Rgb {
    Rgb { r, g, b }
}

#[test]
fn palette_cube_and_gray_ramp() {
    let t = Theme::dark();
    assert_eq!(t.indexed_color(1), rgb(205, 49, 49));
    assert_eq!(t.indexed_color(15), rgb(229, 229, 229));
    assert_eq!(t.indexed_color(16), rgb(0, 0, 0));
    assert_eq!(t.indexed_color(17), rgb(0, 0, 95));
    assert_eq!(t.indexed_color(196), rgb(255, 0, 0));
    assert_eq!(t.indexed_color(231), rgb(255, 255, 255));
    assert_eq!(t.indexed_color(232), rgb(8, 8, 8));
    assert_eq!(t.indexed_color(255), rgb(238, 238, 238));
    assert_eq!(Theme::light().indexed_color(0), rgb(7, 54, 66));
    assert_eq!(Theme::default().background, rgb(30, 30, 30));
}

#[test]
fn cell_colors_and_reverse() {
    let t = Theme::dark();
    let mut cell = Cell::blank();
    assert_eq!(t.cell_colors(&cell), (rgb(204, 204, 204), None));
    cell.attrs.insert(Attrs::REVERSE);
    assert_eq!(t.cell_colors(&cell), (rgb(30, 30, 30), Some(rgb(204, 204, 204))));
    cell.fg = Color::Rgb(1, 2, 3);
    cell.bg = Color::Indexed(1);
    assert_eq!(t.cell_colors(&cell), (rgb(205, 49, 49), Some(rgb(1, 2, 3))));
    cell.attrs.remove(Attrs::REVERSE);
    assert_eq!(t.cell_colors(&cell), (rgb(1, 2, 3), Some(rgb(205, 49, 49))));
}

#[test]
fn schemes_by_name() {
    let colors = ColorsSection::default();
    assert_eq!(colors.scheme, "dark");
    assert_eq!(colors.theme().background, rgb(30, 30, 30));
    let light = ColorsSection { scheme: "light".to_string() };
    assert_eq!(light.theme().background, rgb(253, 246, 227));
    assert!(light.is_known());
    let odd = ColorsSection { scheme: "neon".to_string() };
    assert_eq!(odd.theme().foreground, rgb(204, 204, 204));
    assert!(!odd.is_known());
}

#[test]
fn frame_shows_each_glyph_once() {
    let mut t = Terminal::new(2, 5);
    t.advance_str("a\x1b[41m한\x1b[0mb");
    let cells = frame_cells(&Theme::dark(), t.grid(), 0, None);
    assert_eq!(cells.len(), 9);
    assert_eq!((cells[0].ch, cells[0].row, cells[0].col, cells[0].wide), ('a', 0, 0, false));
    assert_eq!((cells[1].ch, cells[1].col, cells[1].wide), ('한', 1, true));
    assert_eq!(cells[1].bg, Some(rgb(205, 49, 49)));
    assert_eq!((cells[2].ch, cells[2].col), ('b', 3));
    assert!(cells.iter().all(|c| c.ch != WIDE_CONT));
    assert_eq!((cells[8].row, cells[8].col), (1, 4));
}

#[test]
fn frame_marks_the_link() {
    let mut t = Terminal::new(1, 6);
    t.advance_str("abcdef");
    let link = LinkSpan { row: 0, start: 2, end: 4 };
    let cells = frame_cells(&Theme::dark(), t.grid(), 0, Some(link));
    let linked: Vec<usize> = cells.iter().filter(|c| c.linked).map(|c| c.col).collect();
    assert_eq!(linked, vec![2, 3]);
    assert_eq!(link_underline(Some(link), 1, 6), Some(link));
    assert_eq!(link_underline(Some(link), 0, 6), None);
    assert_eq!(link_underline(Some(link), 1, 3), None);
    assert_eq!(link_underline(Some(LinkSpan { row: 0, start: 2, end: 2 }), 1, 6), None);
    assert_eq!(link_underline(None, 1, 6), None);
}

#[test]
fn frame_of_a_scrolled_view_cuts_long_rows() {
    let mut t = Terminal::new(2, 4);
    t.advance_str("1\r\n2\r\n3");
    let cells = frame_cells(&Theme::dark(), t.grid(), 1, None);
    assert_eq!(cells[0].ch, '1');
    assert_eq!(cells[4].ch, '2');
    // Rows kept from a wider screen are cut off.
    t.advance_str("\x1b[?1049h");
    t.grid_mut().resize(2, 3);
    let cells = frame_cells(&Theme::dark(), t.grid(), 1, None);
    assert_eq!(cells.len(), 6);
}

#[test]
fn cursor_is_drawn_on_the_live_screen_only() {
    let mut t = Terminal::new(2, 3);
    t.advance_str("abc");
    assert_eq!(cursor_cell(t.grid(), 0), Some((0, 2)));
    assert_eq!(cursor_cell(t.grid(), 1), None);
    t.advance_str("\x1b[?25l");
    assert_eq!(cursor_cell(t.grid(), 0), None);
}

#[test]
fn selection_is_highlighted_row_by_row() {
    let mut t = Terminal::new(3, 5);
    t.advance_str("abcde\r\nfghij\r\nklmno\r\npqrst");
    assert_eq!(t.grid().scrollback_len(), 1);
    let mut sel = Selection::new(GridPoint::new(1, 3));
    assert!(selection_spans(t.grid(), 0, Some(sel)).is_empty());
    sel.update(GridPoint::new(3, 2));
    assert_eq!(selection_spans(t.grid(), 0, Some(sel)), vec![(0, 3, 5), (1, 0, 5), (2, 0, 2)]);
    assert_eq!(selection_spans(t.grid(), 1, Some(sel)), vec![(1, 3, 5), (2, 0, 5)]);
    assert!(selection_spans(t.grid(), 0, None).is_empty());
    assert_eq!(selection_to_text(&sel, t.grid()), "ij\nklmno\npq");
    // Dragging upwards selects the same.
    let mut up = Selection::new(GridPoint::new(3, 2));
    up.update(GridPoint::new(1, 3));
    assert_eq!(selection_to_text(&up, t.grid()), "ij\nklmno\npq");
    assert_eq!(up.normalized(), (GridPoint::new(1, 3), GridPoint::new(3, 2)));
}

#[test]
fn selected_text_trims_line_ends_and_wide_halves() {
    let mut t = Terminal::new(2, 6);
    t.advance_str("한 x\r\nab");
    let mut sel = Selection::new(GridPoint::new(0, 0));
    sel.update(GridPoint::new(9, 9));
    assert_eq!(selection_to_text(&sel, t.grid()), "한 x\nab");
    let far = Selection { anchor: GridPoint::new(7, 0), head: GridPoint::new(9, 0) };
    assert_eq!(selection_to_text(&far, t.grid()), "");
    let point = Selection::new(GridPoint::new(0, 0));
    assert!(point.is_empty());
    assert_eq!(after_release(Some(point)), None);
    assert_eq!(after_release(Some(sel)), Some(sel));
    assert_eq!(after_release(None), None);
}

#[test]
fn view_rows_are_absolute_rows() {
    assert_eq!(view_row_to_absolute(2, 0, 10), 12);
    assert_eq!(view_row_to_absolute(2, 4, 10), 8);
    assert_eq!(view_row_to_absolute(2, 99, 10), 2);
}

#[test]
fn blocks_in_view() {
    let mut t = Terminal::new(4, 8);
    for i in 0..3 {
        t.advance_str("\x1b]133;A\x07$ c\x1b]133;B\x07\r\nout\r\n");
        t.advance_str(&format!("\x1b]133;D;{}\x07", i % 2));
    }
    t.advance_str("\x1b]133;A\x07$ ");
    assert_eq!(t.grid().scrollback_len(), 3);
    let block = |a: usize, b: usize, s: u8| RenderBlock {
        start_view_row: a,
        end_view_row: b,
        state: s,
    };
    assert_eq!(
        render_blocks(t.grid(), 0),
        vec![block(0, 1, 2), block(1, 3, 1), block(3, 4, 3)]
    );
    assert_eq!(
        render_blocks(t.grid(), 3),
        vec![block(0, 2, 1), block(2, 4, 2)]
    );
}

#[test]
fn tab_bar_details() {
    assert!(!tab_has_close_button(1));
    assert!(tab_has_close_button(2));
    assert!(tab_has_separator(0, 3, 4));
    assert!(!tab_has_separator(3, 0, 4));
    assert!(!tab_has_separator(1, 1, 4));
    assert!(!tab_has_separator(1, 2, 4));
}

fn row_of(text: &str, cols: usize) -> Vec<Cell> {
    let mut g = Grid::new(1, cols);
    for c in text.chars() {
        g.put_char(c);
    }
    g.row_at(0, 0).unwrap().to_vec()
}

#[test]
fn links_are_found_by_column() {
    let row = row_of("see http://a.b, ok", 24);
    let hit = url_hit_in_row(&row, 5, 4).unwrap();
    assert_eq!((hit.view_row, hit.start_col, hit.end_col), (5, 4, 14));
    assert_eq!(hit.url, "http://a.b");
    assert!(url_hit_in_row(&row, 5, 13).is_some());
    assert!(url_hit_in_row(&row, 5, 14).is_none());
    assert!(url_hit_in_row(&row, 5, 3).is_none());
    assert!(url_hit_in_row(&[], 0, 0).is_none());
}

#[test]
fn links_behind_wide_glyphs_keep_their_columns() {
    let row = row_of("한 file:///é/한 x https://q.r", 40);
    let hit = url_hit_in_row(&row, 0, 5).unwrap();
    assert_eq!((hit.start_col, hit.end_col), (3, 14));
    assert_eq!(hit.url, "file:///é/한");
    let hit = url_hit_in_row(&row, 0, 20).unwrap();
    assert_eq!(hit.url, "https://q.r");
}

#[test]
fn urls_stop_at_control_characters_and_unopened_parens() {
    let t = "http://a\u{7f}b http://c)d http://e\u{7}f";
    let found: Vec<&str> = find_urls(t).into_iter().map(|r| &t[r]).collect();
    assert_eq!(found, vec!["http://a", "http://c", "http://e"]);
    let t = "(http://x/(y).) http://z/é.";
    let found: Vec<&str> = find_urls(t).into_iter().map(|r| &t[r]).collect();
    assert_eq!(found, vec!["http://x/(y)", "http://z/é"]);
    assert!(find_urls("").is_empty());
    let t = "http://https://x";
    let found: Vec<&str> = find_urls(t).into_iter().map(|r| &t[r]).collect();
    assert_eq!(found, vec!["http://https://x"]);
}

#[test]
fn glyphs_are_packed_row_by_row() {
    let mut p = Packer::new();
    assert_eq!(p.reserve(1000, 10), Some((0, 0)));
    p.commit(1000, 10);
    assert_eq!(p.reserve(1000, 20), Some((1001, 0)));
    p.commit(1000, 20);
    assert_eq!(p.reserve(100, 5), Some((0, 21)));
    p.commit(100, 5);
    assert_eq!(p.reserve(ATLAS_SIZE, 2021), Some((0, 27)));
    p.commit(ATLAS_SIZE, 2021);
    assert_eq!(p.reserve(1, 1), None);
}

#[test]
fn glyph_wider_than_the_texture_has_no_place() {
    let mut p = Packer::new();
    assert_eq!(p.reserve(10, 7), Some((0, 0)));
    p.commit(10, 7);
    // The row is left all the same.
    assert_eq!(p.reserve(ATLAS_SIZE + 1, 1), None);
    assert_eq!(p, Packer { pack_x: 0, pack_y: 8, row_h: 0 });
    assert_eq!(p.reserve(u32::MAX, u32::MAX), None);
    assert_eq!(p.reserve(ATLAS_SIZE, ATLAS_SIZE - 8), Some((0, 8)));
    let mut t = GlyphTable::new();
    assert_eq!(t.reserve(ATLAS_SIZE + 1, 1), None);
    assert_eq!(t.reserve(1, ATLAS_SIZE), Some((0, 0)));
}

#[test]
fn glyph_table_looks_up_what_it_holds() {
    let mut t = GlyphTable::new();
    assert_eq!(t.lookup(' '), Lookup::Blank);
    assert_eq!(t.lookup('\0'), Lookup::Blank);
    assert_eq!(t.lookup('a'), Lookup::Missing);
    assert_eq!(t.reserve(0, 5), None);
    assert_eq!(t.reserve(5, 0), None);
    assert_eq!(t.reserve(9, 12), Some((0, 0)));
    let a = t.insert('a', 9, 12, 1, -10);
    assert_eq!(t.lookup('a'), Lookup::Found(a));
    assert_eq!((a.atlas_x, a.atlas_y, a.width, a.height), (0, 0, 9, 12));
    assert_eq!((a.bearing_x, a.bearing_y), (1, -10));
    assert_eq!(t.reserve(3, 3), Some((10, 0)));
    assert_eq!(t.reserve(3, ATLAS_SIZE + 1), None);
    t.clear();
    assert_eq!(t.lookup('a'), Lookup::Missing);
    assert_eq!(t.reserve(3, 3), Some((0, 0)));
}
