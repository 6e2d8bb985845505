//! What the control characters and control sequences do, to the cursor and cell by
//! cell.

use vstd::math;
use vstd::prelude::*;

use crate::cell::{Attrs, Cell, Color};
use crate::grid::{Cursor, DEFAULT_SCROLLBACK, WIDE_CONT};
use crate::osc;
use crate::parser;
use crate::screen;
use crate::screen::{Line, Screen};
use crate::sgr;
use crate::text;
use crate::vt::Event;
use crate::width;

verus! {

/// The screen after `CSI params action`.
#[verifier::opaque]
pub open spec fn ctl(s: Screen, params: Seq<u16>, action: char) -> Screen {
    parser::csi(s, sgr::alone(params), Seq::empty(), action)
}

/// The screen after `CSI ? mode action`.
#[verifier::opaque]
pub open spec fn private(s: Screen, mode: u16, action: char) -> Screen {
    parser::csi(s, seq![seq![mode]], seq![0x3fu8], action)
}

/// A count: 0 counts as 1.
pub open spec fn counted(n: u16) -> int {
    if n == 0 {
        1
    } else {
        n as int
    }
}

/// That nothing but the cursor has changed, and where it is now.
pub open spec fn cursor_goes(s: Screen, after: Screen, row: int, col: int) -> bool {
    &&& after == (Screen { cursor: after.cursor, ..s })
    &&& after.cursor.row == row
    &&& after.cursor.col == col
}

/// An empty cell: a space in default colors without attributes.
pub open spec fn is_empty_cell(c: Cell) -> bool {
    &&& c.ch == ' '
    &&& c.fg == Color::Default
    &&& c.bg == Color::Default
    &&& c.attrs == (Attrs { bits: 0 })
}

/// That only cells of the screen have changed, and how each row is told on.
pub open spec fn only_rows_change(s: Screen, after: Screen) -> bool {
    &&& after == (Screen { lines: after.lines, ..s })
    &&& after.lines.len() == s.lines.len()
    &&& forall|r: int| 0 <= r < s.rows() ==> (#[trigger] after.lines[r]).cells.len() == s.cols()
}

/// CUP and HVP put the cursor in the row and the column that they name, counted
/// from 1, or in the last ones where these do not exist.
pub proof fn cursor_is_put_where_named(s: Screen, row: u16, col: u16)
    requires
        s.wf(),
    ensures
        ({
            let r = math::min(counted(row) - 1, s.rows() - 1);
            let c = math::min(counted(col) - 1, s.cols() - 1);
            &&& cursor_goes(s, ctl(s, seq![row, col], 'H'), r, c)
            &&& cursor_goes(s, ctl(s, seq![row, col], 'f'), r, c)
            &&& cursor_goes(s, ctl(s, seq![col], 'G'), s.cursor.row as int, c)
            &&& cursor_goes(s, ctl(s, seq![col], '`'), s.cursor.row as int, c)
            &&& cursor_goes(s, ctl(s, seq![row], 'd'), r, s.cursor.col as int)
        }),
{
    reveal(ctl);
}

/// Naming row and column at once is naming one after the other.
pub proof fn row_and_column_are_apart(s: Screen, row: u16, col: u16)
    requires
        s.wf(),
    ensures
        ctl(s, seq![row, col], 'H') == ctl(ctl(s, seq![row], 'd'), seq![col], 'G'),
{
    reveal(ctl);
}

/// CUF and CUB move the cursor along its row, as far as the row goes.
pub proof fn cursor_moves_along_its_row(s: Screen, n: u16)
    requires
        s.wf(),
    ensures
        ({
            let row = s.cursor.row as int;
            let right = math::min(s.cursor.col + counted(n), s.cols() - 1);
            let left = math::max(s.cursor.col - counted(n), 0);
            &&& cursor_goes(s, ctl(s, seq![n], 'C'), row, right)
            &&& cursor_goes(s, ctl(s, seq![n], 'a'), row, right)
            &&& cursor_goes(s, ctl(s, seq![n], 'D'), row, left)
        }),
{
    reveal(ctl);
}

/// CUU and CUD move the cursor along its column. They do not take it out of the
/// scroll region, nor off the screen.
pub proof fn cursor_moves_along_its_column(s: Screen, n: u16)
    requires
        s.wf(),
    ensures
        ({
            let row = s.cursor.row as int;
            let col = s.cursor.col as int;
            let up = ctl(s, seq![n], 'A');
            let down = ctl(s, seq![n], 'B');
            &&& cursor_goes(s, up, up.cursor.row as int, col)
            &&& cursor_goes(s, down, down.cursor.row as int, col)
            &&& ctl(s, seq![n], 'e') == down
            &&& up.cursor.row <= row <= down.cursor.row < s.rows()
            &&& row - up.cursor.row <= counted(n)
            &&& down.cursor.row - row <= counted(n)
            &&& row - up.cursor.row < counted(n) ==> up.cursor.row == 0 || up.cursor.row
                == s.scroll_top
            &&& down.cursor.row - row < counted(n) ==> down.cursor.row == s.rows() - 1
                || down.cursor.row == s.scroll_bot - 1
            &&& s.scroll_top <= row ==> s.scroll_top <= up.cursor.row
            &&& row < s.scroll_bot ==> down.cursor.row < s.scroll_bot
            &&& row < s.scroll_top && row >= counted(n) ==> up.cursor.row == row - counted(n)
            &&& row >= s.scroll_bot && row + counted(n) < s.rows() ==> down.cursor.row == row
                + counted(n)
            &&& s.scroll_top <= row - counted(n) ==> up.cursor.row == row - counted(n)
            &&& row + counted(n) < s.scroll_bot ==> down.cursor.row == row + counted(n)
        }),
{
    reveal(ctl);
}

/// Moving there and back brings the cursor back, where nothing stops it.
pub proof fn moving_back_undoes_moving(s: Screen, n: u16)
    requires
        s.wf(),
    ensures
        s.cursor.col + counted(n) < s.cols() ==> ctl(ctl(s, seq![n], 'C'), seq![n], 'D') == s,
        counted(n) <= s.cursor.col < s.cols() ==> ctl(ctl(s, seq![n], 'D'), seq![n], 'C') == s,
        s.scroll_top <= s.cursor.row && s.cursor.row + counted(n) < s.scroll_bot ==> ctl(
            ctl(s, seq![n], 'B'),
            seq![n],
            'A',
        ) == s,
{
    reveal(ctl);
}

/// A count that is missing, or 0, is 1; a mode that is missing is 0.
pub proof fn missing_parameters(s: Screen, action: char, n: u16)
    requires
        action != 'm',
    ensures
        action != 'J' && action != 'K' && action != 'n' ==> ctl(s, Seq::empty(), action) == ctl(
            s,
            seq![1u16],
            action,
        ),
        ctl(s, Seq::empty(), action) == ctl(s, seq![0u16], action),
        ctl(s, seq![n], 'H') == ctl(s, seq![n, 1u16], 'H'),
        ctl(s, seq![n, 0u16], 'H') == ctl(s, seq![n, 1u16], 'H'),
        ctl(s, seq![n, 0u16], 'r') == ctl(s, seq![n], 'r'),
{
    reveal(ctl);
}

/// CR goes to the first column and BS one column back. Control characters other than
/// those from BS to CR do nothing.
pub proof fn control_characters_in_a_row(s: Screen)
    requires
        s.wf(),
    ensures
        cursor_goes(s, parser::executed(s, 0x0d), s.cursor.row as int, 0),
        cursor_goes(
            s,
            parser::executed(s, 0x08),
            s.cursor.row as int,
            if s.cursor.col == 0 {
                0
            } else {
                s.cursor.col - 1
            },
        ),
        forall|b: u8|
            !(0x08 <= b <= 0x0d) ==> #[trigger] parser::executed(s, b) == s,
{
}

/// HT goes to the next column whose number, counted from 0, is a multiple of 8, or
/// to the last column where there is none.
pub proof fn tab_goes_to_the_next_stop(s: Screen)
    requires
        s.wf(),
    ensures
        ({
            let after = parser::executed(s, 0x09);
            let to = after.cursor.col as int;
            &&& cursor_goes(s, after, s.cursor.row as int, to)
            &&& to < s.cols()
            &&& to == s.cols() - 1 || to % 8 == 0
            &&& s.cursor.col < s.cols() - 1 ==> s.cursor.col < to <= s.cursor.col + 8
            &&& forall|m: int| s.cursor.col < m < to ==> #[trigger] (m % 8) != 0
        }),
{
    let col = s.cursor.col as int;
    let to = parser::executed(s, 0x09).cursor.col as int;
    let stop = (col / 8 + 1) * 8;
    assert(stop % 8 == 0 && col < stop <= col + 8);
    assert forall|m: int| col < m < to implies #[trigger] (m % 8) != 0 by {
        assert(m < stop);
    }
}

/// LF, VT, FF and IND go one row down in the same column; NEL goes to the first
/// column too. At the bottom of the scroll region the region moves up instead, as
/// SU does, and at the bottom of the screen outside of it nothing moves.
pub proof fn line_feed_goes_down(s: Screen)
    requires
        s.wf(),
    ensures
        ({
            let row = s.cursor.row as int;
            let col = s.cursor.col as int;
            let after = parser::executed(s, 0x0a);
            &&& row + 1 < s.rows() && row + 1 != s.scroll_bot ==> cursor_goes(
                s,
                after,
                row + 1,
                col,
            )
            &&& row + 1 == s.scroll_bot ==> after == ctl(s, seq![1u16], 'S')
            &&& row + 1 == s.rows() && row + 1 != s.scroll_bot ==> after == s
            &&& parser::executed(s, 0x0b) == after
            &&& parser::executed(s, 0x0c) == after
            &&& parser::esc(s, 0x44) == after
            &&& parser::esc(s, 0x45) == parser::executed(parser::executed(s, 0x0d), 0x0a)
        }),
{
    reveal(ctl);
}

/// RI goes one row up in the same column. At the top of the scroll region the region
/// moves down instead, as SD does, and at the top of the screen outside of it
/// nothing moves.
pub proof fn reverse_line_feed_goes_up(s: Screen)
    requires
        s.wf(),
    ensures
        ({
            let row = s.cursor.row as int;
            let after = parser::esc(s, 0x4d);
            &&& row > 0 && row != s.scroll_top ==> cursor_goes(
                s,
                after,
                row - 1,
                s.cursor.col as int,
            )
            &&& row == s.scroll_top ==> after == ctl(s, seq![1u16], 'T')
            &&& row == 0 && row != s.scroll_top ==> after == s
        }),
{
    reveal(ctl);
}

/// How a cell of the screen stands to the cursor in reading order: before it, at it,
/// or behind it. A cursor past the margin stands in the last column.
pub open spec fn cell_before_cursor(s: Screen, r: int, c: int) -> bool {
    r < s.cursor.row || r == s.cursor.row && c < s.cursor.col && c < s.cols() - 1
}

/// Whether the cursor stands on a cell.
pub open spec fn cell_at_cursor(s: Screen, r: int, c: int) -> bool {
    r == s.cursor.row && (c == s.cursor.col || s.cursor.col >= s.cols() && c == s.cols() - 1)
}

/// ED empties the cells from the cursor on (0), up to and with it (1), or all (2 and
/// 3), in reading order; EL does the same within the cursor's row. No other cell
/// changes, and neither does the cursor, the pen or the scrollback. A row runs on as
/// before, unless its last cell was emptied.
pub proof fn erasing_empties_cells(s: Screen, mode: u16, r: int, c: int)
    requires
        s.wf(),
        0 <= r < s.rows(),
        0 <= c < s.cols(),
    ensures
        ({
            let display = ctl(s, seq![mode], 'J');
            let line = ctl(s, seq![mode], 'K');
            let before = cell_before_cursor(s, r, c);
            let at = cell_at_cursor(s, r, c);
            let gone = mode == 0 && !before || mode == 1 && (before || at) || mode == 2;
            &&& only_rows_change(s, display)
            &&& only_rows_change(s, line)
            &&& if gone || mode == 3 {
                is_empty_cell(display.cell(r, c))
            } else {
                display.cell(r, c) == s.cell(r, c)
            }
            &&& if gone && r == s.cursor.row {
                is_empty_cell(line.cell(r, c))
            } else {
                line.cell(r, c) == s.cell(r, c)
            }
            &&& mode > 3 ==> display == s
            &&& mode > 2 ==> line == s
            &&& c == s.cols() - 1 ==> {
                &&& display.lines[r].wrapped == (s.lines[r].wrapped && !(gone || mode == 3))
                &&& line.lines[r].wrapped == (s.lines[r].wrapped && !(gone && r == s.cursor.row))
            }
        }),
{
    reveal(ctl);
    assert(s.lines[s.cursor.row as int].cells.len() == s.cols());
    assert(s.lines[r].cells.len() == s.cols());
    erasing_keeps_the_rectangle(s, mode);
}

proof fn erasing_keeps_the_rectangle(s: Screen, mode: u16)
    requires
        s.wf(),
    ensures
        only_rows_change(s, s.erased_display(mode)),
        only_rows_change(s, s.erased_line(mode)),
{
    assert(s.lines[s.cursor.row as int].cells.len() == s.cols());
    assert(only_rows_change(s, s.erased_line(0)));
    assert(only_rows_change(s, s.erased_line(1)));
    assert(only_rows_change(s, s.erased_line(mode)));
}

/// The cursor's column, or the last one where it stands past the margin.
pub open spec fn column_of(s: Screen) -> int {
    if s.cursor.col < s.cols() {
        s.cursor.col as int
    } else {
        s.cols() - 1
    }
}

/// ICH puts empty cells in at the cursor and moves the rest of the row right, DCH
/// takes cells out and moves the rest left, ECH empties cells in place. All three
/// keep the other rows, the cells left of the cursor, and the cursor.
pub proof fn cells_are_put_in_and_taken_out(s: Screen, n: u16, r: int, c: int)
    requires
        s.wf(),
        0 <= r < s.rows(),
        0 <= c < s.cols(),
    ensures
        ({
            let put = ctl(s, seq![n], '@');
            let out = ctl(s, seq![n], 'P');
            let gone = ctl(s, seq![n], 'X');
            let at = column_of(s);
            let k = counted(n);
            &&& only_rows_change(s, put)
            &&& only_rows_change(s, out)
            &&& only_rows_change(s, gone)
            &&& r != s.cursor.row || c < at ==> put.cell(r, c) == s.cell(r, c) && out.cell(r, c)
                == s.cell(r, c) && gone.cell(r, c) == s.cell(r, c)
            &&& r == s.cursor.row && at <= c < at + k ==> is_empty_cell(put.cell(r, c))
                && is_empty_cell(gone.cell(r, c))
            &&& r == s.cursor.row && at + k <= c ==> put.cell(r, c) == s.cell(r, c - k)
                && gone.cell(r, c) == s.cell(r, c)
            &&& r == s.cursor.row && at <= c && c + k < s.cols() ==> out.cell(r, c) == s.cell(
                r,
                c + k,
            )
            &&& r == s.cursor.row && at <= c && c + k >= s.cols() ==> is_empty_cell(out.cell(r, c))
            &&& put.lines[r].wrapped == s.lines[r].wrapped
            &&& out.lines[r].wrapped == s.lines[r].wrapped
            &&& gone.lines[r].wrapped == (s.lines[r].wrapped && !(r == s.cursor.row && at + k
                >= s.cols()))
        }),
{
    reveal(ctl);
    assert(s.lines[s.cursor.row as int].cells.len() == s.cols());
    assert(s.lines[r].cells.len() == s.cols());
}

/// Whether a row is empty throughout.
pub open spec fn is_empty_row(line: Line, cols: int) -> bool {
    &&& line.cells.len() == cols
    &&& forall|c: int| 0 <= c < cols ==> is_empty_cell(#[trigger] line.cells[c])
    &&& !line.wrapped
}

/// SU moves the rows of the scroll region up and SD down; what comes in is empty,
/// and the rows outside the region stay. The cursor stays where it is.
pub proof fn scrolling_moves_rows(s: Screen, n: u16, r: int)
    requires
        s.wf(),
        0 <= r < s.rows(),
    ensures
        ({
            let up = ctl(s, seq![n], 'S');
            let down = ctl(s, seq![n], 'T');
            let top = s.scroll_top as int;
            let bot = s.scroll_bot as int;
            let k = counted(n);
            &&& !(top <= r < bot) ==> up.lines[r] == s.lines[r] && down.lines[r] == s.lines[r]
            &&& top <= r < bot && r + k < bot ==> up.lines[r] == s.lines[r + k]
            &&& top <= r < bot && r + k >= bot ==> is_empty_row(up.lines[r], s.cols())
            &&& top <= r < bot && r - k >= top ==> down.lines[r] == s.lines[r - k]
            &&& top <= r < bot && r - k < top ==> is_empty_row(down.lines[r], s.cols())
            &&& up == (Screen {
                lines: up.lines,
                scrollback: up.scrollback,
                blocks: up.blocks,
                ..s
            })
            &&& down == (Screen { lines: down.lines, blocks: down.blocks, ..s })
        }),
{
    reveal(ctl);
}

/// Scrolling the whole primary screen up loses nothing: the rows that leave at the
/// top enter the scrollback in order, and only the oldest rows are given up where it
/// is full. A region that does not reach the top, and the alternate screen, leave
/// the scrollback alone.
pub proof fn scrolling_fills_the_scrollback(s: Screen, n: u16)
    requires
        s.wf(),
    ensures
        ({
            let up = ctl(s, seq![n], 'S');
            let k = math::min(counted(n), s.scroll_bot - s.scroll_top);
            let both = s.scrollback + s.lines.take(k);
            let lost = math::max(both.len() - 10000, 0);
            &&& s.scroll_top == 0 && !s.alt() ==> up.scrollback == both.skip(lost)
            &&& s.scroll_top > 0 || s.alt() ==> up.scrollback == s.scrollback
        }),
{
    reveal(ctl);
    let k = math::min(counted(n), s.scroll_bot - s.scroll_top);
    let both = s.scrollback + s.lines.take(k);
    assert(DEFAULT_SCROLLBACK == 10000);
    assert(both.skip(0) =~= both);
}

/// IL moves the rows from the cursor on down within the scroll region and puts empty
/// ones in; DL takes rows out there and moves the rest up. The rows outside stay, and
/// the cursor goes to the first column. Outside the scroll region nothing happens.
pub proof fn lines_are_put_in_and_taken_out(s: Screen, n: u16, r: int)
    requires
        s.wf(),
        0 <= r < s.rows(),
    ensures
        ({
            let put = ctl(s, seq![n], 'L');
            let out = ctl(s, seq![n], 'M');
            let at = s.cursor.row as int;
            let bot = s.scroll_bot as int;
            let k = counted(n);
            let inside = s.scroll_top <= at < bot;
            &&& !inside ==> put == s && out == s
            &&& inside ==> {
                &&& put.cursor == (Cursor { row: s.cursor.row, col: 0 })
                &&& out.cursor == put.cursor
                &&& !(at <= r < bot) ==> put.lines[r].cells == s.lines[r].cells
                    && out.lines[r].cells == s.lines[r].cells
                &&& at <= r < bot && r - k >= at ==> put.lines[r].cells == s.lines[r - k].cells
                &&& at <= r < bot && r - k < at ==> is_empty_row(put.lines[r], s.cols())
                &&& at <= r < bot && r + k < bot ==> out.lines[r].cells == s.lines[r + k].cells
                &&& at <= r < bot && r + k >= bot ==> is_empty_row(out.lines[r], s.cols())
                &&& !(at <= r < bot) ==> put.lines[r].wrapped == (s.lines[r].wrapped && r != at - 1)
                    && out.lines[r].wrapped == put.lines[r].wrapped
                &&& at <= r < bot && r - k >= at ==> put.lines[r].wrapped == s.lines[r - k].wrapped
                &&& at <= r < bot && r + k < bot ==> out.lines[r].wrapped == s.lines[r + k].wrapped
                &&& put == (Screen {
                    lines: put.lines,
                    blocks: put.blocks,
                    cursor: put.cursor,
                    ..s
                })
                &&& out == (Screen {
                    lines: out.lines,
                    blocks: out.blocks,
                    cursor: out.cursor,
                    ..s
                })
            }
        }),
{
    reveal(ctl);
}

/// DECSTBM makes the rows from the first to the last that it names, counted from 1,
/// the scroll region, and puts the cursor in the corner. A last row beyond the screen
/// counts as the last one. Fewer than two rows make the whole screen the region.
pub proof fn region_is_what_is_named(s: Screen, top: u16, bot: u16)
    requires
        s.wf(),
        bot > 0,
    ensures
        ({
            let after = ctl(s, seq![top, bot], 'r');
            let first = counted(top) - 1;
            let behind = math::min(bot as int, s.rows());
            &&& after == (Screen {
                scroll_top: after.scroll_top,
                scroll_bot: after.scroll_bot,
                cursor: Cursor { row: 0, col: 0 },
                ..s
            })
            &&& first + 2 <= behind ==> after.scroll_top == first && after.scroll_bot == behind
            &&& first + 2 > behind ==> after.scroll_top == 0 && after.scroll_bot == s.rows()
            &&& s.rows() < 65536 ==> {
                let whole = ctl(s, Seq::empty(), 'r');
                whole.scroll_top == 0 && whole.scroll_bot == s.rows()
            }
        }),
{
    reveal(ctl);
}

/// Saving records the cursor and the pen, with either sequence; restoring brings
/// them back, as far as the screen still has that place, and nothing else. Where
/// nothing was saved, nothing is restored.
pub proof fn cursor_is_saved_and_restored(s: Screen, later: Screen)
    requires
        s.wf(),
        later.wf(),
        later.saved_cursor == ctl(s, Seq::empty(), 's').saved_cursor,
    ensures
        ctl(s, Seq::empty(), 's') == (Screen {
            saved_cursor: ctl(s, Seq::empty(), 's').saved_cursor,
            ..s
        }),
        parser::esc(s, 0x37) == ctl(s, Seq::empty(), 's'),
        parser::esc(s, 0x38) == ctl(s, Seq::empty(), 'u'),
        ({
            let back = ctl(later, Seq::empty(), 'u');
            &&& back == (Screen { cursor: back.cursor, pen: s.pen, ..later })
            &&& back.cursor.row == math::min(s.cursor.row as int, later.rows() - 1)
            &&& back.cursor.col == math::min(s.cursor.col as int, later.cols() - 1)
        }),
        s.saved_cursor is None ==> ctl(s, Seq::empty(), 'u') == s,
{
    reveal(ctl);
}

/// Mode 25 shows and hides the cursor, mode 2004 asks for brackets around pasted
/// text; neither changes anything else. Modes 1049, 1047 and 47 enter and leave the
/// alternate screen. Other modes do nothing.
pub proof fn modes_switch_one_thing(s: Screen, mode: u16, action: char)
    requires
        action == 'h' || action == 'l',
    ensures
        mode == 25 ==> private(s, mode, action) == (Screen { cursor_visible: action == 'h', ..s }),
        mode == 2004 ==> private(s, mode, action) == (Screen {
            bracketed_paste: action == 'h',
            ..s
        }),
        (mode == 1049 || mode == 1047 || mode == 47) && action == 'h' ==> private(s, mode, action).alt(),
        (mode == 1049 || mode == 1047 || mode == 47) && action == 'l' ==> !private(
            s,
            mode,
            action,
        ).alt(),
        mode != 25 && mode != 2004 && mode != 1049 && mode != 1047 && mode != 47 ==> private(
            s,
            mode,
            action,
        ) == s,
{
    reveal(private);
    let params = seq![seq![mode]];
    let one = seq![mode];
    assert(params.drop_last() =~= Seq::<Seq<u16>>::empty());
    assert(parser::flat(params.drop_last()) =~= Seq::<u16>::empty());
    assert(parser::flat(params) =~= one);
    assert(one.drop_last() =~= Seq::<u16>::empty());
    assert(parser::dec_modes(s, one.drop_last(), true) == s);
    assert(parser::dec_modes(s, one.drop_last(), false) == s);
}

/// Entering the alternate screen shows empty rows, with the cursor in the corner, a
/// plain pen and the whole screen as the scroll region.
pub proof fn alternate_screen_starts_empty(s: Screen, r: int)
    requires
        s.wf(),
        !s.alt(),
        0 <= r < s.rows(),
    ensures
        ({
            let after = private(s, 1049, 'h');
            &&& is_empty_row(after.lines[r], s.cols())
            &&& after.cursor == (Cursor { row: 0, col: 0 })
            &&& after.pen.fg == Color::Default
            &&& after.pen.bg == Color::Default
            &&& after.pen.attrs.bits == 0
            &&& after.scroll_top == 0
            &&& after.scroll_bot == s.rows()
            &&& after.scrollback == s.scrollback
            &&& private(after, 1049, 'l').lines == s.lines
            &&& private(after, 1049, 'l').cursor == s.cursor
            &&& private(after, 1049, 'h') == after
            &&& private(s, 1049, 'l') == s
        }),
{
    modes_enter_and_leave(s);
    modes_enter_and_leave(s.entered_alt());
}

proof fn modes_enter_and_leave(s: Screen)
    ensures
        private(s, 1049, 'h') == s.entered_alt(),
        private(s, 1049, 'l') == s.left_alt(),
{
    reveal(private);
    let params = seq![seq![1049u16]];
    let one = seq![1049u16];
    assert(params.drop_last() =~= Seq::<Seq<u16>>::empty());
    assert(parser::flat(params.drop_last()) =~= Seq::<u16>::empty());
    assert(parser::flat(params) =~= one);
    assert(one.drop_last() =~= Seq::<u16>::empty());
    assert(parser::dec_modes(s, one.drop_last(), true) == s);
    assert(parser::dec_modes(s, one.drop_last(), false) == s);
}

/// A request for the cursor's position is answered with the very numbers that put
/// the cursor there: `CSI row ; col R` for `CSI row ; col H`. Nothing else changes,
/// and replies wait in the order of the requests.
pub proof fn position_is_reported_as_named(s: Screen, row: u16, col: u16)
    requires
        s.wf(),
        1 <= row <= s.rows(),
        1 <= col <= s.cols(),
    ensures
        ({
            let there = ctl(s, seq![row, col], 'H');
            let after = ctl(there, seq![6u16], 'n');
            after == (Screen {
                responses: s.responses.push(
                    seq![0x1bu8, 0x5bu8] + text::decimal(row as nat) + seq![0x3bu8] + text::decimal(
                        col as nat,
                    ) + seq![0x52u8],
                ),
                ..there
            })
        }),
{
    reveal(ctl);
}

/// A request for the terminal's attributes is answered with `CSI ? 62 ; 22 c`. Other
/// status requests are not answered.
pub proof fn attributes_are_reported(s: Screen, n: u16)
    ensures
        ({
            let after = ctl(s, seq![n], 'c');
            &&& after == (Screen { responses: after.responses, ..s })
            &&& after.responses.len() == s.responses.len() + 1
            &&& after.responses.drop_last() == s.responses
            &&& after.responses.last() == seq![0x1bu8, 0x5bu8, 0x3fu8] + text::decimal(62) + seq![
                0x3bu8,
            ] + text::decimal(22) + seq![0x63u8]
        }),
        n != 6 ==> ctl(s, seq![n], 'n') == s,
{
    reveal(ctl);
    reveal_with_fuel(text::decimal, 3);
    let after = ctl(s, seq![n], 'c');
    assert(after.responses.drop_last() =~= s.responses);
    assert(after.responses.last() =~= seq![0x1bu8, 0x5bu8, 0x3fu8] + text::decimal(62) + seq![
        0x3bu8,
    ] + text::decimal(22) + seq![0x63u8]);
}

/// The final characters of the control sequences that are known.
pub open spec fn is_known_action(c: char) -> bool {
    ||| 'A' <= c <= 'D'
    ||| c == 'G'
    ||| c == 'H'
    ||| 'J' <= c <= 'M'
    ||| c == 'P'
    ||| c == 'S'
    ||| c == 'T'
    ||| c == 'X'
    ||| c == '@'
    ||| c == '`'
    ||| c == 'a'
    ||| 'c' <= c <= 'f'
    ||| c == 'm'
    ||| c == 'n'
    ||| c == 'r'
    ||| c == 's'
    ||| c == 'u'
}

/// Control sequences that are not known do nothing, nor do those with an
/// intermediate byte other than `?`, nor short escape sequences that are not known.
pub proof fn unknown_sequences_do_nothing(
    s: Screen,
    params: Seq<Seq<u16>>,
    intermediates: Seq<u8>,
    action: char,
    byte: u8,
)
    ensures
        intermediates.len() == 0 && !is_known_action(action) ==> parser::csi(
            s,
            params,
            intermediates,
            action,
        ) == s,
        intermediates.len() > 0 && intermediates[0] != 0x3f ==> parser::csi(
            s,
            params,
            intermediates,
            action,
        ) == s,
        intermediates.len() > 0 && action != 'h' && action != 'l' ==> parser::csi(
            s,
            params,
            intermediates,
            action,
        ) == s,
        byte != 0x37 && byte != 0x38 && byte != 0x44 && byte != 0x45 && byte != 0x4d
            ==> parser::esc(s, byte) == s,
{
}

/// That a cell holds a character in the colors and with the attributes of the pen.
pub open spec fn drawn_with_pen(cell: Cell, ch: char, s: Screen) -> bool {
    &&& cell.ch == ch
    &&& cell.fg == s.pen.fg
    &&& cell.bg == s.pen.bg
    &&& cell.attrs == s.pen.attrs
}

/// A character that fits in the cursor's row is drawn at the cursor with the pen, and
/// the cursor moves behind it; the second cell of a wide one becomes its right half.
/// No other cell changes, and nothing else.
pub proof fn printing_draws_at_the_cursor(s: Screen, ch: char, width: int, r: int, c: int)
    requires
        s.wf(),
        1 <= width <= 3,
        s.cursor.col < s.cols(),
        width == 2 ==> s.cursor.col + 1 < s.cols(),
        0 <= r < s.rows(),
        0 <= c < s.cols(),
    ensures
        ({
            let after = s.printed(ch, width);
            let here = r == s.cursor.row;
            let col = s.cursor.col as int;
            &&& after == (Screen { lines: after.lines, cursor: after.cursor, ..s })
            &&& after.cursor.row == s.cursor.row
            &&& after.cursor.col == col + width
            &&& here && c == col ==> drawn_with_pen(after.cell(r, c), ch, s)
            &&& here && c == col + 1 && width == 2 ==> drawn_with_pen(
                after.cell(r, c),
                WIDE_CONT,
                s,
            )
            &&& !(here && (c == col || c == col + 1 && width == 2)) ==> after.cell(r, c) == s.cell(
                r,
                c,
            )
            &&& after.lines[r].wrapped == (s.lines[r].wrapped && !(here && col + width >= s.cols()))
        }),
{
    assert(s.lines[r].cells.len() == s.cols());
    assert(s.lines[s.cursor.row as int].cells.len() == s.cols());
}

/// A character that does not fit any more goes to the start of the next row, and the
/// row it did not fit in runs on there: it is printed as after CR and LF, but for
/// that.
pub proof fn printing_wraps_at_the_margin(s: Screen, ch: char, width: int)
    requires
        s.wf(),
        1 <= width <= 3,
        s.cols() >= 2,
        s.cursor.col >= s.cols() || width == 2 && s.cursor.col + 1 == s.cols(),
    ensures
        ({
            let row = s.cursor.row as int;
            let marked = Screen {
                lines: s.lines.update(row, Line { cells: s.lines[row].cells, wrapped: true }),
                ..s
            };
            s.printed(ch, width) == parser::executed(
                parser::executed(marked, 0x0d),
                0x0a,
            ).printed(ch, width)
        }),
{
}

/// A character without width leaves no trace.
pub proof fn printing_nothing(s: Screen, ch: char)
    ensures
        s.printed(ch, 0) == s,
{
}

/// OSC 7 records the path of the URL behind it, and OSC 133 the marks of a shell: A
/// begins a block in the cursor's row, B and C say that the newest one runs, D that it
/// is done. No other command changes anything.
pub proof fn commands_record(s: Screen, parts: Seq<Seq<u8>>)
    requires
        s.wf(),
        parts.len() >= 2,
    ensures
        ({
            let after = parser::osc_command(s, parts);
            let mark = parts[1];
            let is_mark = parts[0] == seq![0x31u8, 0x33u8, 0x33u8];
            let n = s.blocks.len() as int;
            &&& after == (Screen { cwd: after.cwd, blocks: after.blocks, ..s })
            &&& parts[0] != seq![0x37u8] ==> after.cwd == s.cwd
            &&& parts[0] == seq![0x37u8] ==> after.blocks == s.blocks && after.cwd == match osc::osc7_path(
                mark,
            ) {
                Some(path) => Some(path),
                None => s.cwd,
            }
            &&& !is_mark ==> after.blocks == s.blocks
            &&& is_mark && mark == seq![0x41u8] ==> {
                &&& after.blocks.len() == n + 1
                &&& after.blocks.take(n) == s.blocks
                &&& after.blocks[n].start_row == s.scrollback.len() + s.cursor.row
                &&& after.blocks[n].state is Input
            }
            &&& is_mark && mark != seq![0x41u8] ==> {
                &&& after.blocks.len() == n
                &&& forall|i: int| 0 <= i < n - 1 ==> #[trigger] after.blocks[i] == s.blocks[i]
                &&& n > 0 ==> after.blocks[n - 1].start_row == s.blocks[n - 1].start_row
            }
            &&& is_mark && n > 0 && (mark == seq![0x42u8] || mark == seq![0x43u8])
                ==> after.blocks[n - 1].state is Running
            &&& is_mark && n > 0 && mark == seq![0x44u8] ==> after.blocks[n - 1].state is Done
            &&& is_mark && mark != seq![0x41u8] && mark != seq![0x42u8] && mark != seq![0x43u8]
                && mark != seq![0x44u8] ==> after == s
        }),
{
    let after = parser::osc_command(s, parts);
    let n = s.blocks.len() as int;
    assert(seq![0x37u8].len() == 1 && seq![0x31u8, 0x33u8, 0x33u8].len() == 3);
    assert(seq![0x41u8][0] == 0x41 && seq![0x42u8][0] == 0x42 && seq![0x43u8][0] == 0x43
        && seq![0x44u8][0] == 0x44);
    if parts[0] == seq![0x31u8, 0x33u8, 0x33u8] && parts[1] == seq![0x41u8] {
        assert(after.blocks.take(n) =~= s.blocks);
    }
}

/// A command that is done reports its exit code: the number behind it, and 0 where
/// there is none or where it is no number.
pub proof fn exit_code_is_reported(s: Screen, code: nat)
    requires
        s.blocks.len() > 0,
        code <= 0x7fff_ffff,
    ensures
        ({
            let osc133 = seq![0x31u8, 0x33u8, 0x33u8];
            let done = seq![0x44u8];
            let with = parser::osc_command(s, seq![osc133, done, text::decimal(code)]);
            let less = parser::osc_command(
                s,
                seq![osc133, done, seq![0x2du8] + text::decimal(code)],
            );
            let without = parser::osc_command(s, seq![osc133, done]);
            let wrong = parser::osc_command(s, seq![osc133, done, seq![0x78u8] + text::decimal(code)]);
            &&& with.blocks.last().state == (crate::blocks::TermBlockState::Done {
                exit_code: code as i32,
            })
            &&& less.blocks.last().state == (crate::blocks::TermBlockState::Done {
                exit_code: (-(code as int)) as i32,
            })
            &&& without.blocks.last().state == (crate::blocks::TermBlockState::Done {
                exit_code: 0,
            })
            &&& wrong.blocks.last().state == (crate::blocks::TermBlockState::Done { exit_code: 0 })
        }),
{
    text::reading_undoes_writing(code);
    text::only_digits_spell_a_number(seq![0x78u8] + text::decimal(code), 0);
    assert(seq![0x37u8].len() == 1 && seq![0x31u8, 0x33u8, 0x33u8].len() == 3);
    assert(seq![0x41u8][0] == 0x41 && seq![0x42u8][0] == 0x42 && seq![0x43u8][0] == 0x43
        && seq![0x44u8][0] == 0x44);
}

/// Each event does what its kind does: a character is printed as wide as it is, and a
/// control character, a control sequence, an escape sequence and a command are
/// performed. Events are performed in order.
pub proof fn events_are_performed_in_turn(
    s: Screen,
    events: Seq<Event>,
    event: Event,
    width: usize,
)
    ensures
        parser::performed_all(s, Seq::empty()) == s,
        parser::performed_all(s, events.push(event)) == parser::performed(
            parser::performed_all(s, events),
            event,
        ),
        match event {
            Event::Print(c) => width::char_width(c) == Some(width) && s.takes(width as int)
                ==> parser::performed(s, event) == s.printed(c, width as int),
            Event::Execute(b) => parser::performed(s, event) == parser::executed(s, b),
            Event::Csi { params, intermediates, action } => parser::performed(s, event)
                == parser::csi(s, params, intermediates, action),
            Event::Esc(b) => parser::performed(s, event) == parser::esc(s, b),
            Event::Osc(parts) => parser::performed(s, event) == parser::osc_command(s, parts),
        },
        event matches Event::Print(c) && width::char_width(c) is None ==> parser::performed(
            s,
            event,
        ) == s.printed(event->Print_0, 1),
{
    assert(events.push(event).drop_last() =~= events);
}

/// Plain text that fits in the cursor's row appears in it, one cell for each
/// character, from the cursor on and with the pen; the cursor moves behind it, and no
/// other cell changes.
pub proof fn text_appears_in_the_row(s: Screen, chars: Seq<char>, r: int, c: int)
    requires
        s.wf(),
        s.cursor.col + chars.len() <= s.cols(),
        forall|i: int|
            0 <= i < chars.len() ==> #[trigger] width::cells_taken(chars[i]) == 1 && chars[i] as u32
                > 0x1f,
        0 <= r < s.rows(),
        0 <= c < s.cols(),
    ensures
        ({
            let after = parser::shown(s, chars);
            let i = c - s.cursor.col;
            &&& after == (Screen { lines: after.lines, cursor: after.cursor, ..s })
            &&& after.wf()
            &&& after.cursor.row == s.cursor.row
            &&& after.cursor.col == s.cursor.col + chars.len()
            &&& r == s.cursor.row && 0 <= i < chars.len() ==> drawn_with_pen(
                after.cell(r, c),
                chars[i],
                s,
            )
            &&& !(r == s.cursor.row && 0 <= i < chars.len()) ==> after.cell(r, c) == s.cell(r, c)
        }),
    decreases chars.len(),
{
    if chars.len() > 0 {
        let front = chars.drop_last();
        let last = chars.last();
        assert forall|i: int| 0 <= i < front.len() implies #[trigger] width::cells_taken(front[i])
            == 1 && front[i] as u32 > 0x1f by {
            assert(front[i] == chars[i]);
            assert(width::cells_taken(chars[i]) == 1);
        }
        text_appears_in_the_row(s, front, r, c);
        let mid = parser::shown(s, front);
        assert(width::cells_taken(chars[chars.len() - 1]) == 1);
        printing_draws_at_the_cursor(mid, last, 1, r, c);
        let after = parser::shown(s, chars);
        assert(after == mid.printed(last, 1));
        assert(mid.lines[mid.cursor.row as int].cells.len() == s.cols());
        assert(screen::rectangle(after.lines, s.rows(), s.cols()));
    }
}

/// Every character has a place on a screen of two columns or more, and every one that
/// is not wide on any screen. On one column a wide one needs a row below the one that
/// it wraps to.
pub proof fn characters_have_a_place(s: Screen, width: int)
    requires
        s.wf(),
    ensures
        s.cols() >= 2 || width != 2 ==> s.takes(width),
        s.cols() == 1 && s.cursor.col == 0 ==> s.takes(2) == (parser::executed(
            s,
            0x0a,
        ).cursor.row + 1 < s.rows()),
        s.cols() == 1 && s.cursor.col > 0 ==> s.takes(2) == (parser::executed(
            parser::executed(s, 0x0a),
            0x0a,
        ).cursor.row + 1 < s.rows()),
{
}

/// Several modes in one sequence are switched one after the other.
pub proof fn modes_are_switched_in_turn(s: Screen, modes: Seq<u16>, mode: u16, action: char)
    requires
        action == 'h' || action == 'l',
    ensures
        parser::csi(s, sgr::alone(modes.push(mode)), seq![0x3fu8], action) == private(
            parser::csi(s, sgr::alone(modes), seq![0x3fu8], action),
            mode,
            action,
        ),
{
    reveal(private);
    sgr::flat_alone(modes);
    sgr::flat_alone(modes.push(mode));
    sgr::flat_alone(seq![mode]);
    assert(sgr::alone(seq![mode]) =~= seq![seq![mode]]);
    assert(modes.push(mode).drop_last() =~= modes);
    let mid = parser::csi(s, sgr::alone(modes), seq![0x3fu8], action);
    let one = seq![mode];
    assert(one.drop_last() =~= Seq::<u16>::empty());
    assert(parser::dec_modes(mid, one.drop_last(), true) == mid);
    assert(parser::dec_modes(mid, one.drop_last(), false) == mid);
}

/// Of a parameter with subparameters only the first value counts, but for SGR and for
/// modes; parameters behind those that a sequence has do not count at all.
pub proof fn only_first_values_count(s: Screen, params: Seq<Seq<u16>>, more: Seq<u16>, action: char)
    requires
        forall|i: int| 0 <= i < params.len() ==> (#[trigger] params[i]).len() > 0,
        action != 'm',
    ensures
        parser::csi(s, params, Seq::empty(), action) == parser::csi(
            s,
            Seq::new(params.len(), |i: int| seq![params[i][0]]),
            Seq::empty(),
            action,
        ),
        params.len() >= 2 ==> parser::csi(s, params.push(more), Seq::empty(), action)
            == parser::csi(s, params, Seq::empty(), action),
{
    let firsts = Seq::new(params.len(), |i: int| seq![params[i][0]]);
    assert(parser::value_at(params, 0, 0) == parser::value_at(firsts, 0, 0));
    assert(parser::value_at(params, 0, 1) == parser::value_at(firsts, 0, 1));
    assert(parser::value_at(params, 1, 1) == parser::value_at(firsts, 1, 1));
    let rows = (s.size.rows % 65536) as u16;
    assert(parser::value_at(params, 1, rows) == parser::value_at(firsts, 1, rows));
}

/// A count of 0 moves the cursor by one, puts in and takes out one line or one cell, and
/// empties one cell; but it scrolls by none.
pub proof fn a_count_of_zero(s: Screen)
    requires
        s.wf(),
    ensures
        s.moved_up(0) == s.moved_up(1),
        s.moved_down(0) == s.moved_down(1),
        s.moved_forward(0) == s.moved_forward(1),
        s.moved_back(0) == s.moved_back(1),
        s.inserted_lines(0) == s.inserted_lines(1),
        s.deleted_lines(0) == s.deleted_lines(1),
        s.inserted_chars(0) == s.inserted_chars(1),
        s.deleted_chars(0) == s.deleted_chars(1),
        s.erased_chars(0) == s.erased_chars(1),
        s.scrolled_up(0).lines == s.lines,
        s.scrolled_up(0).scrollback == s.scrollback,
        s.scrolled_down(0).lines == s.lines,
{
    assert(s.scrolled_up(0).lines =~= s.lines);
    assert(s.scrolled_down(0).lines =~= s.lines);
    assert(s.lines.take(0) =~= Seq::<Line>::empty());
    assert(s.scrollback + s.lines.take(0) =~= s.scrollback);
}

/// The position that is reported is the cursor's, counted from 1; a cursor past the
/// margin is reported in the last column.
pub proof fn position_is_reported(s: Screen)
    requires
        s.wf(),
    ensures
        ctl(s, seq![6u16], 'n') == (Screen {
            responses: s.responses.push(
                seq![0x1bu8, 0x5bu8] + text::decimal((s.cursor.row + 1) as nat) + seq![0x3bu8]
                    + text::decimal((column_of(s) + 1) as nat) + seq![0x52u8],
            ),
            ..s
        }),
{
    reveal(ctl);
}

} // verus!
