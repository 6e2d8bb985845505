//! Resizing: nothing is lost, lines keep their ends, the cursor keeps its place.

use purrtty::grid::WIDE_CONT;
use purrtty::{Cursor, Grid, Terminal, DEFAULT_SCROLLBACK};

fn row_text(grid: &Grid, row: usize) -> String {
    (0..grid.cols()).map(|c| grid.cell(row, c).ch).collect::<String>()
}

fn all_text(grid: &Grid) -> Vec<String> {
    let sb = grid.scrollback_len();
    let mut out = Vec::new();
    for i in 0..sb {
        let row = grid.row_at(0, sb - i).unwrap();
        out.push(row.iter().map(|c| c.ch).collect::<String>());
    }
    for r in 0..grid.rows() {
        out.push(row_text(grid, r));
    }
    out
}

#[test]
fn shrink_then_grow_preserves_content() {
    let mut t = Terminal::new(4, 10);
    t.advance_str("0123456789\r\nab cd");
    t.grid_mut().resize(4, 4);
    t.grid_mut().resize(4, 10);
    assert_eq!(
        all_text(t.grid()),
        vec!["          ", "          ", "0123456789", "ab cd     "]
    );
}

#[test]
fn shrink_wrapped_content_reflows() {
    let mut t = Terminal::new(4, 10);
    t.advance_str("0123456789");
    t.grid_mut().resize(4, 4);
    // The missing row at the top is blank.
    assert_eq!(all_text(t.grid()), vec!["    ", "0123", "4567", "89  "]);
}

#[test]
fn grow_unwraps_when_cols_increase() {
    let mut t = Terminal::new(4, 4);
    t.advance_str("012345");
    assert_eq!(row_text(t.grid(), 1), "45  ");
    t.grid_mut().resize(4, 8);
    assert_eq!(row_text(t.grid(), 3), "012345  ");
    assert_eq!(row_text(t.grid(), 2), "        ");
}

#[test]
fn explicit_newlines_not_merged() {
    let mut t = Terminal::new(4, 6);
    t.advance_str("abcdef\r\ngh\r\nij");
    t.grid_mut().resize(6, 3);
    t.grid_mut().resize(4, 12);
    assert_eq!(row_text(t.grid(), 1).trim_end(), "abcdef");
    assert_eq!(row_text(t.grid(), 2).trim_end(), "gh");
    assert_eq!(row_text(t.grid(), 3).trim_end(), "ij");
}

#[test]
fn scrollback_reflows_with_screen() {
    let mut t = Terminal::new(2, 4);
    t.advance_str("abcdefgh\r\n12\r\n34");
    assert_eq!(t.grid().scrollback_len(), 2);
    t.grid_mut().resize(2, 8);
    assert_eq!(t.grid().scrollback_len(), 1);
    assert_eq!(all_text(t.grid()), vec!["abcdefgh", "12      ", "34      "]);
    // Growing pulls rows back from the scrollback.
    t.grid_mut().resize(3, 8);
    assert_eq!(t.grid().scrollback_len(), 0);
    assert_eq!(row_text(t.grid(), 0), "abcdefgh");
}

#[test]
fn cursor_survives_reflow() {
    let mut t = Terminal::new(4, 10);
    t.advance_str("0123456");
    t.grid_mut().resize(4, 4);
    assert_eq!(t.grid().cursor(), Cursor { row: 3, col: 3 });
    t.advance_str("X");
    assert_eq!(row_text(t.grid(), 3), "456X");
    t.grid_mut().resize(4, 10);
    assert_eq!(row_text(t.grid(), 3), "0123456X  ");
    assert_eq!(t.grid().cursor(), Cursor { row: 3, col: 8 });
}

#[test]
fn wide_glyph_at_the_end_of_a_line_stays_whole() {
    let mut t = Terminal::new(3, 6);
    t.advance_str("a한");
    t.grid_mut().resize(3, 10);
    assert_eq!(t.grid().cell(2, 1).ch, '한');
    assert_eq!(t.grid().cell(2, 2).ch, WIDE_CONT);
    t.grid_mut().resize(3, 2);
    assert_eq!(row_text(t.grid(), 1), "a ");
    assert_eq!(t.grid().cell(2, 0).ch, '한');
    assert_eq!(t.grid().cell(2, 1).ch, WIDE_CONT);
}

#[test]
fn alt_screen_resize_is_not_reflowed() {
    let mut t = Terminal::new(3, 6);
    t.advance_str("abcdef");
    t.advance_str("\x1b[?1049hvwxyz");
    t.grid_mut().resize(3, 3);
    // The alternate screen is cut.
    assert_eq!(row_text(t.grid(), 0), "vwx");
    assert_eq!(row_text(t.grid(), 1), "   ");
    t.advance_str("\x1b[?1049l");
    // The primary screen was reflowed.
    assert_eq!(row_text(t.grid(), 1), "abc");
    assert_eq!(row_text(t.grid(), 2), "def");
}

#[test]
fn alt_screen_resize_keeps_rows_that_no_longer_fit() {
    let mut t = Terminal::new(3, 4);
    t.advance_str("aaaa\r\nbbbb\r\ncccc");
    t.advance_str("\x1b[?1049h");
    t.grid_mut().resize(3, 2);
    assert_eq!(t.grid().scrollback_len(), 3);
    t.advance_str("\x1b[?1049l");
    assert_eq!(all_text(t.grid()), vec!["aa", "aa", "bb", "bb", "cc", "cc"]);
    t.grid_mut().resize(3, 4);
    assert_eq!(all_text(t.grid()), vec!["aaaa", "bbbb", "cccc"]);
}

#[test]
fn wide_glyph_is_not_split_by_reflow() {
    let mut t = Terminal::new(3, 6);
    t.advance_str("a한글");
    t.grid_mut().resize(3, 4);
    assert_eq!(t.grid().cell(1, 0).ch, 'a');
    assert_eq!(t.grid().cell(1, 1).ch, '한');
    assert_eq!(t.grid().cell(1, 2).ch, WIDE_CONT);
    assert_eq!(t.grid().cell(1, 3).ch, ' ');
    assert_eq!(t.grid().cell(2, 0).ch, '글');
    assert_eq!(t.grid().cell(2, 1).ch, WIDE_CONT);
}

#[test]
fn lines_beside_a_wide_glyph_keep_their_text() {
    let mut t = Terminal::new(4, 8);
    t.advance_str("a  b한\r\nc  def\r\n g");
    t.grid_mut().resize(8, 5);
    t.grid_mut().resize(4, 8);
    // Only the space before the wide glyph is new.
    assert_eq!(row_text(t.grid(), 1), format!("a  b 한{} ", WIDE_CONT));
    assert_eq!(row_text(t.grid(), 2), "c  def  ");
    assert_eq!(row_text(t.grid(), 3), " g      ");
}

#[test]
fn cursor_is_found_behind_wide_glyphs() {
    let mut t = Terminal::new(4, 8);
    t.advance_str("a한b글c");
    assert_eq!(t.grid().cursor(), Cursor { row: 0, col: 7 });
    t.grid_mut().resize(4, 2);
    // "a", "한", "b", "글", "c": the last row holds the cursor.
    assert_eq!(t.grid().scrollback_len(), 1);
    assert_eq!(t.grid().cell(3, 0).ch, 'c');
    assert_eq!(t.grid().cursor(), Cursor { row: 3, col: 1 });
}

#[test]
fn wide_glyph_in_a_single_column_loses_no_text() {
    let mut t = Terminal::new(6, 6);
    t.advance_str("a한b");
    t.grid_mut().resize(6, 1);
    assert_eq!(row_text(t.grid(), 2), "a");
    assert_eq!(row_text(t.grid(), 3), "한");
    assert_eq!(t.grid().cell(4, 0).ch, WIDE_CONT);
    assert_eq!(row_text(t.grid(), 5), "b");
}

#[test]
fn shrinking_rows_moves_the_oldest_to_scrollback() {
    let mut t = Terminal::new(4, 3);
    t.advance_str("1\r\n2\r\n3\r\n4");
    t.grid_mut().resize(2, 3);
    assert_eq!(t.grid().scrollback_len(), 2);
    assert_eq!(all_text(t.grid()), vec!["1  ", "2  ", "3  ", "4  "]);
    assert_eq!(t.grid().cursor(), Cursor { row: 1, col: 1 });
}

#[test]
fn blank_rows_below_the_cursor_are_not_pushed_out() {
    let mut t = Terminal::new(10, 4);
    t.advance_str("ab");
    t.grid_mut().resize(2, 4);
    assert_eq!(t.grid().scrollback_len(), 0);
    assert_eq!(row_text(t.grid(), 1), "ab  ");
    assert_eq!(t.grid().cursor(), Cursor { row: 1, col: 2 });
}

#[test]
fn resize_to_zero_counts_as_one() {
    let mut g = Grid::new(2, 2);
    g.resize(0, 0);
    assert_eq!((g.rows(), g.cols()), (1, 1));
    let g = Grid::new(0, 0);
    assert_eq!((g.rows(), g.cols()), (1, 1));
}

#[test]
fn resize_resets_the_scroll_region() {
    let mut g = Grid::new(6, 4);
    g.set_scroll_region(1, 4);
    assert_eq!(g.scroll_region(), (1, 4));
    g.resize(5, 4);
    assert_eq!(g.scroll_region(), (0, 5));
}

#[test]
fn scrollback_is_bounded_and_drops_the_oldest() {
    let mut t = Terminal::new(1, 6);
    for i in 0..(DEFAULT_SCROLLBACK + 5) {
        t.advance_str(&format!("{i}\r\n"));
    }
    assert_eq!(t.grid().scrollback_len(), DEFAULT_SCROLLBACK);
    let oldest = t.grid().row_at(0, DEFAULT_SCROLLBACK).unwrap();
    assert_eq!(oldest[0].ch, '5');
    assert_eq!(oldest[1].ch, ' ');
    // A view cannot be scrolled back further than that.
    let beyond = t.grid().row_at(0, usize::MAX).unwrap();
    assert_eq!(beyond[0].ch, '5');
    assert!(t.grid().row_at(1, 0).is_none());
}

#[test]
fn erased_rows_are_not_merged() {
    let mut t = Terminal::new(4, 4);
    // "012345" wraps; the screen is then cleared and written anew.
    t.advance_str("012345\x1b[2J\x1b[Hab\r\ncd");
    t.grid_mut().resize(4, 8);
    assert_eq!(row_text(t.grid(), 2), "ab      ");
    assert_eq!(row_text(t.grid(), 3), "cd      ");
}

#[test]
fn erasing_to_the_end_of_a_row_ends_its_line() {
    let mut t = Terminal::new(4, 4);
    t.advance_str("012345\x1b[1;3H\x1b[K");
    t.grid_mut().resize(4, 8);
    assert_eq!(row_text(t.grid(), 2), "01      ");
    assert_eq!(row_text(t.grid(), 3), "45      ");

    let mut t = Terminal::new(4, 4);
    t.advance_str("012345\x1b[1;2H\x1b[2X");
    t.grid_mut().resize(4, 8);
    assert_eq!(row_text(t.grid(), 3), "0  345  ");
}

#[test]
fn overwritten_text_keeps_its_line() {
    let mut t = Terminal::new(4, 4);
    t.advance_str("012345\x1b[1;1Hab\r");
    t.grid_mut().resize(4, 8);
    assert_eq!(row_text(t.grid(), 3), "ab2345  ");
}

#[test]
fn overwriting_to_the_end_of_a_row_ends_its_line() {
    let mut t = Terminal::new(2, 3);
    t.advance_str("abcd\x1b[Hxyz\r\nq");
    t.grid_mut().resize(2, 6);
    assert_eq!(all_text(t.grid()), vec!["xyz   ", "q     "]);
    // Text that wraps again runs on again.
    let mut t = Terminal::new(2, 3);
    t.advance_str("abcd\x1b[Hxyzw");
    t.grid_mut().resize(2, 6);
    assert_eq!(all_text(t.grid()), vec!["      ", "xyzw  "]);
}

#[test]
fn content_shorter_than_the_screen_sits_at_the_bottom() {
    let mut g = Grid::new(1, 1);
    g.put_char('a');
    g.resize(3, 1);
    assert_eq!(all_text(&g), vec![" ", " ", "a"]);
    assert_eq!(g.scrollback_len(), 0);
    assert_eq!(g.cursor().row, 2);
}

#[test]
fn resize_under_the_alternate_screen_resets_both_scroll_regions() {
    let mut g = Grid::new(2, 3);
    g.enter_alt_screen();
    g.resize(4, 3);
    assert_eq!(g.scroll_region(), (0, 4));
    g.leave_alt_screen();
    assert_eq!(g.scroll_region(), (0, 4));
}

/// The text of a row counted from the oldest scrollback row.
fn history_row(grid: &Grid, at: usize) -> String {
    let sb = grid.scrollback_len();
    if at < sb {
        let row = grid.row_at(0, sb - at).unwrap();
        row.iter().map(|c| c.ch).collect::<String>()
    } else {
        row_text(grid, at - sb)
    }
}

#[test]
fn blocks_follow_their_prompts_through_a_full_scrollback() {
    let mut t = Terminal::new(3, 8);
    let n = DEFAULT_SCROLLBACK + 20;
    for i in 0..n {
        t.advance_str(&format!("\x1b]133;A\x07p{i}\r\n"));
    }
    let grid = t.grid();
    assert_eq!(grid.scrollback_len(), DEFAULT_SCROLLBACK);
    assert_eq!(grid.blocks().len(), n);
    for i in [n - 1, n - 2, n - 10, n / 2, 18] {
        let row = history_row(grid, grid.blocks()[i].start_row);
        assert_eq!(row.trim_end(), format!("p{i}"));
    }
    // A prompt that was dropped counts as the oldest row.
    assert_eq!(grid.blocks()[0].start_row, 0);
}

#[test]
fn blocks_follow_their_prompts_through_a_reflow() {
    let mut t = Terminal::new(4, 4);
    t.advance_str("\x1b]133;A\x07abcdef\r\n\x1b]133;A\x07gh");
    let starts = |t: &Terminal| {
        t.grid().blocks().iter().map(|b| b.start_row).collect::<Vec<usize>>()
    };
    assert_eq!(starts(&t), vec![0, 2]);
    t.grid_mut().resize(4, 8);
    assert_eq!(starts(&t), vec![2, 3]);
    assert_eq!(history_row(t.grid(), 2), "abcdef  ");
    t.grid_mut().resize(4, 2);
    assert_eq!(starts(&t), vec![2, 5]);
    assert_eq!(history_row(t.grid(), 2), "ab");
    assert_eq!(history_row(t.grid(), 5), "gh");
}

#[test]
fn blocks_follow_their_prompts_behind_the_alternate_screen() {
    let mut t = Terminal::new(3, 4);
    t.advance_str("1\r\n2\r\n3\r\n\x1b]133;A\x07abcd");
    assert_eq!(t.grid().blocks()[0].start_row, 3);
    t.advance_str("\x1b[?1049ha\r\nb\r\nc\r\nd\x1b[2S");
    assert_eq!(t.grid().blocks()[0].start_row, 3);
    t.grid_mut().resize(3, 2);
    t.advance_str("\x1b[?1049l");
    assert_eq!(history_row(t.grid(), t.grid().blocks()[0].start_row), "ab");
}

#[test]
fn blocks_follow_inserted_and_deleted_lines() {
    let mut t = Terminal::new(4, 4);
    t.advance_str("x\r\n\x1b]133;A\x07p\x1b[1;1H\x1b[L");
    assert_eq!(t.grid().blocks()[0].start_row, 2);
    assert_eq!(row_text(t.grid(), 2), "p   ");
    t.advance_str("\x1b[2M");
    assert_eq!(t.grid().blocks()[0].start_row, 0);
    assert_eq!(row_text(t.grid(), 0), "p   ");
    t.advance_str("\x1b[T");
    assert_eq!(t.grid().blocks()[0].start_row, 1);
    assert_eq!(row_text(t.grid(), 1), "p   ");
}

#[test]
fn the_cursor_stops_just_behind_the_margin() {
    let mut t = Terminal::new(2, 3);
    t.advance_str("abc");
    assert_eq!(t.grid().cursor(), Cursor { row: 0, col: 3 });
    t.advance_str("한");
    assert_eq!(t.grid().cursor(), Cursor { row: 1, col: 2 });
    t.advance_str("글");
    assert_eq!(t.grid().cursor(), Cursor { row: 1, col: 2 });
    t.grid_mut().resize(2, 5);
    assert!(t.grid().cursor().col < 5);
}
