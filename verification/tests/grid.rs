//! The grid's own operations, and replies to queries.

use purrtty::blocks::{TermBlock, TermBlockState};
use purrtty::cell::{Attrs, Cell, Color, Pen};
use purrtty::grid::{Cursor, Grid, SavedCursor, Size, WIDE_CONT};
use purrtty::parser::{csi_dispatch, esc_dispatch, execute, first_nonzero, first_or, perform};
use purrtty::vt::VtEvent;
use purrtty::width::cell_width;
use purrtty::Terminal;

fn row_text(grid: &Grid, row: usize) -> String {
    (0..grid.cols()).map(|c| grid.cell(row, c).ch).collect::<String>()
}

fn write(grid: &mut Grid, text: &str) {
    for c in text.chars() {
        grid.put_char(c);
    }
}

#[test]
fn widths_of_characters() {
    assert_eq!(cell_width('a'), 1);
    assert_eq!(cell_width('한'), 2);
    assert_eq!(cell_width('\u{301}'), 0);
    assert_eq!(cell_width('\u{17d8}'), 3);
    assert_eq!(cell_width('\u{7}'), 1);
    assert_eq!(cell_width('\u{9f}'), 1);
    assert_eq!(cell_width('~'), 1);
}

#[test]
fn no_character_is_wider_than_three_cells() {
    for n in 0..=0x10ffff_u32 {
        if let Some(c) = char::from_u32(n) {
            assert!(cell_width(c) <= 3);
        }
    }
}

#[test]
fn new_grid_is_blank() {
    let g = Grid::new(2, 3);
    assert_eq!(g.size(), Size { rows: 2, cols: 3 });
    assert_eq!(g.cursor(), Cursor { row: 0, col: 0 });
    assert_eq!(g.pen(), Pen::default());
    assert_eq!(g.scroll_region(), (0, 2));
    assert!(g.cursor_visible());
    assert!(!g.is_alt_screen());
    assert!(g.cwd().is_none());
    assert!(g.blocks().is_empty());
    for row in g.rows_iter() {
        for cell in row {
            assert_eq!(*cell, Cell::default());
        }
    }
    assert_eq!(g.rows_iter().len(), 2);
    assert_eq!(SavedCursor::default().pen, Pen::default());
}

#[test]
fn zero_width_characters_leave_no_trace() {
    let mut g = Grid::new(1, 4);
    g.put_char('a');
    g.put_char('\u{301}');
    g.put_char('b');
    assert_eq!(row_text(&g, 0), "ab  ");
}

#[test]
fn three_cells_wide_character_takes_one_cell_and_moves_three() {
    let mut g = Grid::new(2, 4);
    g.put_char('\u{17d8}');
    assert_eq!(g.cursor(), Cursor { row: 0, col: 3 });
    g.put_char('\u{17d8}');
    assert_eq!(g.cursor(), Cursor { row: 0, col: 6 });
    g.put_char('x');
    assert_eq!(g.cursor(), Cursor { row: 1, col: 1 });
    assert_eq!(g.cell(1, 0).ch, 'x');
}

#[test]
fn wide_character_in_one_column_takes_two_rows() {
    let mut g = Grid::new(3, 1);
    assert!(g.takes(2));
    g.put_char('한');
    assert_eq!(g.cell(0, 0).ch, ' ');
    assert_eq!(g.cell(1, 0).ch, '한');
    assert_eq!(g.cell(2, 0).ch, WIDE_CONT);
    assert_eq!(g.cursor(), Cursor { row: 1, col: 2 });
    // The next character wraps, onto the second half.
    g.put_char('b');
    assert_eq!(g.cell(2, 0).ch, 'b');
    assert_eq!(g.cursor(), Cursor { row: 2, col: 1 });
    // At the bottom there is no row for the second half.
    assert!(!g.takes(2));
    assert!(!g.try_put_char('한'));
    assert_eq!(g.cell(2, 0).ch, 'b');
    let mut t = Terminal::new(3, 1);
    t.advance_str("한b");
    assert_eq!(t.grid().cell(1, 0).ch, '한');
    assert_eq!(t.grid().cell(2, 0).ch, 'b');
}

#[test]
fn wide_character_has_no_place_at_the_bottom_of_one_column() {
    let mut g = Grid::new(2, 1);
    assert!(!g.try_put_char('한'));
    assert_eq!(g.cursor(), Cursor { row: 0, col: 0 });
    assert!(g.try_put_char('a'));
    assert_eq!(row_text(&g, 0), "a");
    let mut t = Terminal::new(2, 1);
    t.advance_str("한b");
    assert_eq!(row_text(t.grid(), 0), "b");
}

#[test]
fn explicit_width_decides_the_layout() {
    let mut g = Grid::new(1, 4);
    g.put_char_of_width('x', 2);
    assert_eq!(g.cell(0, 1).ch, WIDE_CONT);
    g.put_char_of_width('y', 0);
    assert_eq!(g.cursor(), Cursor { row: 0, col: 2 });
}

#[test]
fn clear_visible_homes_the_cursor() {
    let mut g = Grid::new(2, 3);
    write(&mut g, "abcd");
    g.clear_visible();
    assert_eq!(row_text(&g, 0), "   ");
    assert_eq!(row_text(&g, 1), "   ");
    assert_eq!(g.cursor(), Cursor { row: 0, col: 0 });
}

#[test]
fn erase_in_display_below_and_above() {
    let mut g = Grid::new(3, 3);
    write(&mut g, "abcdefghi");
    g.move_cursor(1, 1);
    g.erase_in_display(0);
    assert_eq!(row_text(&g, 0), "abc");
    assert_eq!(row_text(&g, 1), "d  ");
    assert_eq!(row_text(&g, 2), "   ");
    let mut g = Grid::new(3, 3);
    write(&mut g, "abcdefghi");
    g.move_cursor(1, 1);
    g.erase_in_display(1);
    assert_eq!(row_text(&g, 0), "   ");
    assert_eq!(row_text(&g, 1), "  f");
    assert_eq!(row_text(&g, 2), "ghi");
    g.erase_in_display(9);
    assert_eq!(row_text(&g, 2), "ghi");
    g.erase_in_display(3);
    assert_eq!(row_text(&g, 2), "   ");
}

#[test]
fn erase_in_line_to_the_left_and_all() {
    let mut g = Grid::new(1, 4);
    write(&mut g, "abcd");
    g.move_cursor(0, 1);
    g.erase_in_line(1);
    assert_eq!(row_text(&g, 0), "  cd");
    g.erase_in_line(7);
    assert_eq!(row_text(&g, 0), "  cd");
    g.erase_in_line(2);
    assert_eq!(row_text(&g, 0), "    ");
}

#[test]
fn cursor_moves_are_clamped() {
    let mut g = Grid::new(3, 4);
    g.move_cursor(usize::MAX, usize::MAX);
    assert_eq!(g.cursor(), Cursor { row: 2, col: 3 });
    g.cursor_up(usize::MAX);
    g.cursor_back(usize::MAX);
    assert_eq!(g.cursor(), Cursor { row: 0, col: 0 });
    g.cursor_down(usize::MAX);
    g.cursor_forward(usize::MAX);
    assert_eq!(g.cursor(), Cursor { row: 2, col: 3 });
    // A count of 0 is a count of 1.
    g.cursor_up(0);
    g.cursor_back(0);
    assert_eq!(g.cursor(), Cursor { row: 1, col: 2 });
    g.tab();
    assert_eq!(g.cursor().col, 3);
    g.backspace();
    assert_eq!(g.cursor().col, 2);
    g.carriage_return();
    g.backspace();
    assert_eq!(g.cursor().col, 0);
    g.cursor_horizontal_absolute(9);
    g.cursor_vertical_absolute(9);
    assert_eq!(g.cursor(), Cursor { row: 2, col: 3 });
}

#[test]
fn cursor_stays_in_the_scroll_region() {
    let mut g = Grid::new(6, 4);
    g.set_scroll_region(2, 4);
    assert_eq!(g.cursor(), Cursor { row: 0, col: 0 });
    g.cursor_down(9);
    assert_eq!(g.cursor().row, 3);
    g.cursor_up(9);
    assert_eq!(g.cursor().row, 2);
    g.move_cursor(5, 0);
    g.cursor_down(9);
    assert_eq!(g.cursor().row, 5);
    g.reset_scroll_region();
    assert_eq!(g.scroll_region(), (0, 6));
    // Less than two rows is no region.
    g.set_scroll_region(3, 4);
    assert_eq!(g.scroll_region(), (0, 6));
    g.set_scroll_region(5, 99);
    assert_eq!(g.scroll_region(), (0, 6));
    g.set_scroll_region(4, 99);
    assert_eq!(g.scroll_region(), (4, 6));
}

#[test]
fn lines_are_inserted_only_in_the_region() {
    let mut g = Grid::new(4, 1);
    write(&mut g, "abcd");
    g.set_scroll_region(0, 2);
    g.move_cursor(3, 0);
    g.insert_lines(1);
    g.delete_lines(1);
    assert_eq!(row_text(&g, 3), "d");
    g.move_cursor(0, 0);
    g.insert_lines(99);
    assert_eq!(row_text(&g, 0), " ");
    assert_eq!(row_text(&g, 1), " ");
    assert_eq!(row_text(&g, 2), "c");
}

#[test]
fn deleting_undoes_inserting_characters() {
    let mut g = Grid::new(1, 6);
    write(&mut g, "abcdef");
    g.move_cursor(0, 2);
    g.insert_chars(2);
    assert_eq!(row_text(&g, 0), "ab  cd");
    g.delete_chars(2);
    assert_eq!(row_text(&g, 0), "abcd  ");
}

#[test]
fn scrolling_outside_the_top_keeps_no_history() {
    let mut g = Grid::new(3, 1);
    write(&mut g, "abc");
    g.set_scroll_region(1, 3);
    g.scroll_up(1);
    assert_eq!(g.scrollback_len(), 0);
    assert_eq!(row_text(&g, 0), "a");
    assert_eq!(row_text(&g, 1), "c");
    assert_eq!(row_text(&g, 2), " ");
    g.scroll_down(1);
    assert_eq!(row_text(&g, 1), " ");
    assert_eq!(row_text(&g, 2), "c");
    g.reset_scroll_region();
    g.scroll_up(9);
    assert_eq!(g.scrollback_len(), 3);
}

#[test]
fn restore_without_save_changes_nothing() {
    let mut g = Grid::new(2, 4);
    g.move_cursor(1, 2);
    g.restore_cursor();
    assert_eq!(g.cursor(), Cursor { row: 1, col: 2 });
    g.save_cursor();
    g.move_cursor(0, 0);
    g.apply_sgr(&[1]);
    g.restore_cursor();
    assert_eq!(g.cursor(), Cursor { row: 1, col: 2 });
    assert!(!g.pen().attrs.contains(Attrs::BOLD));
}

#[test]
fn alt_screen_leaves_no_trace() {
    let mut t = Terminal::new(3, 4);
    t.advance_str("\x1b[31mab\x1b7cd\x1b[2;3r\x1b[2;2H");
    let before = t.grid().cursor();
    t.advance_str("\x1b[?1049h\x1b[0mxxxxxxxxxxxxxxxx\x1b[1;2r\x1b[J\x1b7\x1b[?1049h");
    assert!(t.grid().is_alt_screen());
    t.advance_str("\x1b[?1049l\x1b[?1049l");
    assert_eq!(t.grid().cursor(), before);
    assert_eq!(t.grid().pen().fg, Color::Indexed(1));
    assert_eq!(t.grid().scroll_region(), (1, 3));
    assert_eq!(row_text(t.grid(), 0), "abcd");
    t.advance_str("\x1b8");
    assert_eq!(t.grid().cursor(), Cursor { row: 0, col: 2 });
}

#[test]
fn pieces_of_a_stream_do_not_matter() {
    let stream = "a\x1b[1;31m한\x1b[2;3Hz\x1b]7;file:///x\x07\r\nq".as_bytes();
    let mut whole = Terminal::new(4, 6);
    whole.advance(stream);
    let mut pieces = Terminal::new(4, 6);
    for b in stream {
        pieces.advance(&[*b]);
    }
    for r in 0..4 {
        for c in 0..6 {
            assert_eq!(whole.grid().cell(r, c), pieces.grid().cell(r, c));
        }
    }
    assert_eq!(whole.grid().cursor(), pieces.grid().cursor());
    assert_eq!(pieces.grid().cwd(), Some(&b"/x"[..]));
}

#[test]
fn plain_text_is_what_printing_it_is() {
    let text = "ab\tc\r\n한글 é\u{7f}\u{9b}x";
    let mut t = Terminal::new(4, 12);
    t.advance_str(text);
    let mut g = Grid::new(4, 12);
    for c in text.chars() {
        if c < ' ' {
            execute(&mut g, c as u8);
        } else {
            g.try_put_char(c);
        }
    }
    for r in 0..4 {
        for c in 0..12 {
            assert_eq!(t.grid().cell(r, c), g.cell(r, c));
        }
    }
    assert_eq!(t.grid().cursor(), g.cursor());
}

#[test]
fn invalid_utf8_prints_a_replacement() {
    let mut t = Terminal::new(1, 4);
    t.advance(&[0xe2, 0x28, 0x61]);
    assert_eq!(t.grid().cell(0, 0).ch, '\u{fffd}');
}

#[test]
fn sgr_bright_colors_and_resets() {
    let mut g = Grid::new(1, 4);
    g.apply_sgr(&[97, 107, 1, 2, 3, 4, 7, 8, 9]);
    let pen = g.pen();
    assert_eq!(pen.fg, Color::Indexed(15));
    assert_eq!(pen.bg, Color::Indexed(15));
    let all = Attrs::BOLD
        | Attrs::DIM
        | Attrs::ITALIC
        | Attrs::UNDERLINE
        | Attrs::REVERSE
        | Attrs::HIDDEN
        | Attrs::STRIKE;
    assert!(pen.attrs.contains(all));
    g.apply_sgr(&[22]);
    assert!(!g.pen().attrs.contains(Attrs::BOLD));
    assert!(!g.pen().attrs.contains(Attrs::DIM));
    assert!(g.pen().attrs.contains(Attrs::ITALIC));
    g.apply_sgr(&[23, 24, 27, 28, 29, 39, 49]);
    assert_eq!(g.pen(), Pen::default());
}

#[test]
fn sgr_incomplete_extended_color_is_skipped() {
    let mut g = Grid::new(1, 4);
    // 38 without a color: the codes behind it count on their own.
    g.apply_sgr(&[38, 1, 31]);
    assert_eq!(g.pen().fg, Color::Indexed(1));
    assert!(g.pen().attrs.contains(Attrs::BOLD));
    g.apply_sgr(&[0, 38, 5]);
    assert_eq!(g.pen(), Pen::default());
    // Components are taken modulo 256.
    g.apply_sgr(&[48, 5, 300]);
    assert_eq!(g.pen().bg, Color::Indexed(44));
}

#[test]
fn responses_are_drained_in_order() {
    let mut t = Terminal::new(3, 200);
    t.advance_str("\x1b[c\x1b[3;123H\x1b[6n\x1b[5n");
    let responses = t.grid_mut().drain_responses();
    assert_eq!(responses, vec![b"\x1b[?62;22c".to_vec(), b"\x1b[3;123R".to_vec()]);
    assert!(t.grid_mut().drain_responses().is_empty());
}

#[test]
fn position_report_is_clamped_to_the_last_column() {
    let mut t = Terminal::new(1, 3);
    t.advance_str("abc\x1b[6n");
    assert_eq!(t.grid_mut().drain_responses(), vec![b"\x1b[1;3R".to_vec()]);
}

#[test]
fn unknown_sequences_change_nothing() {
    let mut t = Terminal::new(2, 4);
    t.advance_str("ab\x1b[>c\x1b[?7h\x1b[?99l\x1b[z\x1bZ\x1b]0;title\x07\x1bP1$qx\x1b\\");
    assert_eq!(row_text(t.grid(), 0), "ab  ");
    assert!(t.grid_mut().drain_responses().is_empty());
    assert!(t.grid().cwd().is_none());
}

#[test]
fn next_line_index_and_reverse_index() {
    let mut g = Grid::new(3, 3);
    g.move_cursor(0, 2);
    esc_dispatch(&mut g, b'E');
    assert_eq!(g.cursor(), Cursor { row: 1, col: 0 });
    esc_dispatch(&mut g, b'D');
    assert_eq!(g.cursor(), Cursor { row: 2, col: 0 });
    esc_dispatch(&mut g, b'M');
    assert_eq!(g.cursor(), Cursor { row: 1, col: 0 });
}

#[test]
fn parameters_default_where_missing_or_zero() {
    let none: Vec<Vec<u16>> = vec![];
    assert_eq!(first_nonzero(&none, 7), 7);
    assert_eq!(first_nonzero(&vec![vec![0]], 7), 7);
    assert_eq!(first_nonzero(&vec![vec![3, 9]], 7), 3);
    assert_eq!(first_or(&vec![vec![3], vec![4]], 1, 7), 4);
    assert_eq!(first_or(&vec![vec![3]], 1, 7), 7);
}

#[test]
fn events_are_performed_one_by_one() {
    let mut g = Grid::new(2, 6);
    perform(&mut g, &VtEvent::Print('x'));
    perform(&mut g, &VtEvent::Execute(b'\r'));
    perform(
        &mut g,
        &VtEvent::Csi { params: vec![vec![1], vec![4]], intermediates: vec![], action: 'H' },
    );
    perform(&mut g, &VtEvent::Print('y'));
    perform(&mut g, &VtEvent::Osc(vec![b"7".to_vec(), b"file:///a%2Fb".to_vec()]));
    perform(&mut g, &VtEvent::Esc(b'7'));
    assert_eq!(row_text(&g, 0), "x  y  ");
    assert_eq!(g.cwd(), Some(&b"/a/b"[..]));
    csi_dispatch(&mut g, &vec![vec![2, 25], vec![25]], &vec![b'?'], 'l');
    assert!(!g.cursor_visible());
}

#[test]
fn osc7_that_is_no_file_url_is_ignored() {
    let mut t = Terminal::new(1, 4);
    t.advance_str("\x1b]7;http://host/path\x07");
    t.advance_str("\x1b]7;file://hostonly\x07");
    t.advance_str("\x1b]7\x07");
    t.advance(b"\x1b]7;file:///\xff\x07");
    assert!(t.grid().cwd().is_none());
    // An escape that is not two hexadecimal digits leaves nothing.
    t.advance_str("\x1b]7;file:///a%zzb%4\x07");
    assert_eq!(t.grid().cwd(), Some(&b"/ab"[..]));
}

#[test]
fn osc133_marks_drive_blocks() {
    let mut t = Terminal::new(4, 10);
    t.advance_str("\x1b]133;B\x07");
    assert!(t.grid().blocks().is_empty());
    t.advance_str("\r\n\x1b]133;A\x07$ ls\x1b]133;B\x07");
    assert_eq!(t.grid().blocks(), &[TermBlock { start_row: 1, state: TermBlockState::Running }]);
    t.advance_str("\x1b]133;C\x07out\r\n\x1b]133;D;-3\x07\x1b]133;A\x07");
    assert_eq!(
        t.grid().blocks(),
        &[
            TermBlock { start_row: 1, state: TermBlockState::Done { exit_code: -3 } },
            TermBlock { start_row: 2, state: TermBlockState::Input },
        ]
    );
    t.advance_str("\x1b]133;D\x07");
    assert_eq!(t.grid().blocks()[1].state, TermBlockState::Done { exit_code: 0 });
    t.advance_str("\x1b]133;D;99999999999\x07\x1b]133;X\x07\x1b]133\x07");
    assert_eq!(t.grid().blocks()[1].state, TermBlockState::Done { exit_code: 0 });
    t.advance_str("\x1b]133;D;+12\x07");
    assert_eq!(t.grid().blocks()[1].state, TermBlockState::Done { exit_code: 12 });
}

#[test]
fn pen_stamps_its_colors() {
    let mut pen = Pen::default();
    pen.fg = Color::Rgb(1, 2, 3);
    let cell = pen.stamp('q');
    assert_eq!((cell.ch, cell.fg, cell.bg), ('q', Color::Rgb(1, 2, 3), Color::Default));
    pen.reset();
    assert_eq!(pen, Pen::default());
}
