//! What holds of a terminal as a whole.

use vstd::math;
use vstd::prelude::*;

use crate::cell::Cell;
use crate::cell::Color;
use crate::editing;
use crate::grid::{DEFAULT_SCROLLBACK, MAX_SIDE, WIDE_CONT};
use crate::parser;
use crate::reflow;
use crate::screen;
use crate::screen::{Line, Primary, Screen};
use crate::vt;
use crate::vt::Event;
use crate::width;

verus! {

/// Whether a list of DEC modes holds one that switches screens.
pub open spec fn switches(modes: Seq<u16>) -> bool {
    exists|i: int|
        0 <= i < modes.len() && (#[trigger] modes[i] == 1049 || modes[i] == 1047 || modes[i] == 47)
}

/// An event that stays on the screen that is shown.
pub open spec fn stays(event: Event) -> bool {
    match event {
        Event::Csi { params, intermediates, action } => !(intermediates.len() > 0
            && intermediates[0] == 0x3f && switches(parser::flat(params))),
        _ => true,
    }
}

/// What the alternate screen must not touch.
pub open spec fn behind(s: Screen) -> (Option<Primary>, Seq<Line>, crate::grid::Size) {
    (s.primary, s.scrollback, s.size)
}

proof fn modes_stay_behind(s: Screen, modes: Seq<u16>, enable: bool)
    requires
        !switches(modes),
    ensures
        behind(parser::dec_modes(s, modes, enable)) == behind(s),
    decreases modes.len(),
{
    if modes.len() > 0 {
        let front = modes.drop_last();
        assert(!switches(front)) by {
            assert forall|i: int| 0 <= i < front.len() implies !(#[trigger] front[i] == 1049
                || front[i] == 1047 || front[i] == 47) by {
                assert(front[i] == modes[i]);
            }
        }
        modes_stay_behind(s, front, enable);
        assert(!(modes[modes.len() - 1] == 1049 || modes[modes.len() - 1] == 1047
            || modes[modes.len() - 1] == 47));
    }
}

proof fn print_stays_behind(s: Screen, c: char)
    requires
        s.alt(),
    ensures
        behind(s.typed(c)) == behind(s),
{
    let width = width::cells_taken(c);
    assert(behind(s.wrapped_for(width)) == behind(s));
}

proof fn csi_stays_behind(s: Screen, params: Seq<Seq<u16>>, intermediates: Seq<u8>, action: char)
    requires
        s.alt(),
        stays(Event::Csi { params, intermediates, action }),
    ensures
        behind(parser::csi(s, params, intermediates, action)) == behind(s),
{
    if intermediates.len() > 0 && intermediates[0] == 0x3f {
        modes_stay_behind(s, parser::flat(params), true);
        modes_stay_behind(s, parser::flat(params), false);
    }
}

proof fn event_stays_behind(s: Screen, event: Event)
    requires
        s.alt(),
        stays(event),
    ensures
        behind(parser::performed(s, event)) == behind(s),
{
    match event {
        Event::Print(c) => print_stays_behind(s, c),
        Event::Csi { params, intermediates, action } => csi_stays_behind(
            s,
            params,
            intermediates,
            action,
        ),
        _ => {},
    }
}

proof fn events_stay_behind(s: Screen, events: Seq<Event>)
    requires
        s.alt(),
        forall|i: int| 0 <= i < events.len() ==> stays(#[trigger] events[i]),
    ensures
        behind(parser::performed_all(s, events)) == behind(s),
    decreases events.len(),
{
    if events.len() > 0 {
        let front = events.drop_last();
        assert forall|i: int| 0 <= i < front.len() implies stays(#[trigger] front[i]) by {
            assert(front[i] == events[i]);
        }
        events_stay_behind(s, front);
        assert(stays(events[events.len() - 1]));
        event_stays_behind(parser::performed_all(s, front), events.last());
    }
}

/// The alternate screen leaves no trace: whatever a program does between
/// entering and leaving it, the primary screen comes back with its rows, its
/// cursor, its pen, its saved cursor, its scroll region and its scrollback.
pub proof fn alt_screen_leaves_no_trace(s: Screen, events: Seq<Event>)
    requires
        !s.alt(),
        forall|i: int| 0 <= i < events.len() ==> stays(#[trigger] events[i]),
    ensures
        ({
            let after = parser::performed_all(s.entered_alt(), events).left_alt();
            &&& !after.alt()
            &&& after.size == s.size
            &&& after.lines == s.lines
            &&& after.cursor == s.cursor
            &&& after.pen == s.pen
            &&& after.saved_cursor == s.saved_cursor
            &&& after.scroll_top == s.scroll_top
            &&& after.scroll_bot == s.scroll_bot
            &&& after.scrollback == s.scrollback
        }),
{
    events_stay_behind(s.entered_alt(), events);
}

/// Entering the alternate screen twice is entering it once.
pub proof fn entering_alt_is_idempotent(s: Screen)
    ensures
        s.entered_alt().entered_alt() == s.entered_alt(),
        s.left_alt().left_alt() == s.left_alt(),
{
}

/// A restored cursor stands where it was saved, clamped to the last column, with
/// the pen it was saved with, wherever cursor and pen went in between.
pub proof fn restore_undoes(s: Screen, later: Screen)
    requires
        s.wf(),
        later.size == s.size,
        later.saved_cursor == s.saved().saved_cursor,
    ensures
        later.restored().cursor.row == s.cursor.row,
        later.restored().cursor.col == s.clamped_col(),
        later.restored().pen == s.pen,
{
}

/// Scrolling and inserting or deleting lines touch no row outside the scroll
/// region, but for the wrap flag of the row above the cursor.
pub proof fn scrolling_stays_in_region(s: Screen, n: int, r: int)
    requires
        s.wf(),
        n >= 0,
        0 <= r < s.rows(),
        !(s.scroll_top <= r < s.scroll_bot),
    ensures
        s.scrolled_up(n).lines[r] == s.lines[r],
        s.scrolled_down(n).lines[r] == s.lines[r],
        s.advanced_row().lines[r] == s.lines[r],
        s.reversed_row().lines[r] == s.lines[r],
        s.inserted_lines(n).lines[r].cells == s.lines[r].cells,
        s.deleted_lines(n).lines[r].cells == s.lines[r].cells,
{
}

/// A row that scrolls off the top of the primary screen is the newest row of
/// the scrollback.
pub proof fn scrolled_row_is_kept(s: Screen)
    requires
        s.wf(),
        !s.alt(),
        s.scroll_top == 0,
    ensures
        s.scrolled_up(1).scrollback.len() > 0,
        s.scrolled_up(1).scrollback.last() == s.lines[0],
        s.scrolled_up(1).scrollback.len() <= DEFAULT_SCROLLBACK,
{
    let all = s.scrollback + s.lines.take(1);
    assert(all.last() == s.lines[0]);
    assert(screen::keep_last(all, DEFAULT_SCROLLBACK as int).last() == all.last());
}

/// A printed character stands in the cells just left of the cursor, in the
/// pen's colors. A wide one is never split: its two cells are neighbors in one
/// row, or one below the other where a row is one cell.
pub proof fn printed_character_is_there(s: Screen, ch: char, width: int)
    requires
        s.wf(),
        1 <= width <= 3,
        s.takes(width),
    ensures
        ({
            let after = s.printed(ch, width);
            let row = after.cursor.row as int;
            let col = after.cursor.col - width;
            &&& 0 <= row < s.rows()
            &&& 0 <= col < s.cols()
            &&& after.cell(row, col) == s.pen.draws(ch)
            &&& width == 2 && s.cols() > 1 ==> col + 1 < s.cols() && after.cell(row, col + 1)
                == s.pen.draws(WIDE_CONT)
            &&& width == 2 && s.cols() == 1 ==> row + 1 < s.rows() && after.cell(row + 1, 0)
                == s.pen.draws(WIDE_CONT)
        }),
{
    let a = if s.cursor.col >= s.cols() {
        s.wrapped()
    } else {
        s
    };
    wrapped_is_at_start(s);
    wrapped_is_at_start(a);
    let b = s.wrapped_for(width);
    assert(b.lines[b.cursor.row as int].cells.len() == s.cols());
}

proof fn wrapped_is_at_start(s: Screen)
    requires
        s.wf(),
    ensures
        s.wrapped().wf(),
        s.wrapped().cursor.col == 0,
        s.wrapped().size == s.size,
        s.wrapped().pen == s.pen,
{
    let row = s.cursor.row as int;
    let marked = Screen {
        lines: s.lines.update(row, Line { wrapped: true, ..s.lines[row] }),
        ..s
    }.at_col(0);
    assert(marked.wf());
    assert(screen::rectangle(marked.scrolled_up(1).lines, s.rows(), s.cols()));
}

/// Deleting as many characters as were inserted brings the row back, but for
/// what the insertion pushed past the right edge.
pub proof fn deleting_undoes_inserting(s: Screen, n: int, c: int)
    requires
        s.wf(),
        n >= 1,
        0 <= c < s.cols(),
    ensures
        ({
            let row = s.cursor.row as int;
            let col = s.clamped_col();
            let taken = screen::count_between(n, s.cols() - col);
            s.inserted_chars(n).deleted_chars(n).cell(row, c) == if c < s.cols() - taken {
                s.cell(row, c)
            } else {
                Cell::space()
            }
        }),
{
    let row = s.cursor.row as int;
    assert(s.lines[row].cells.len() == s.cols());
}

/// Everything a screen holds of its past and present, oldest row first.
pub open spec fn history(s: Screen) -> Seq<Line> {
    s.scrollback + s.lines
}

/// A view is a window on the history: scrolling back moves the window, and an
/// offset beyond the oldest row stops there.
pub proof fn view_is_a_window(s: Screen, view_row: int, offset: int)
    requires
        s.wf(),
        offset >= 0,
        0 <= view_row < s.rows(),
    ensures
        s.view_row(view_row, offset) == history(s)[crate::view::first_row(s, offset) + view_row],
        s.view_row(view_row, 0) == s.lines[view_row],
{
}

/// Whether the content of a screen fits the screen of another size together
/// with a full scrollback.
pub open spec fn fits(s: Screen, rows: int, cols: int) -> bool {
    reflow::laid_out(reflow::kept_lines(s.scrollback, s.lines, s.cursor), cols).len() <= rows
        + DEFAULT_SCROLLBACK
}

/// How many blank rows a resize puts above the content.
pub open spec fn raised(s: Screen, rows: usize, cols: usize) -> int {
    if rows == s.size.rows && cols == s.size.cols {
        0
    } else {
        reflow::blanks_above(s.scrollback, s.lines, s.cursor, rows as int, cols as int)
    }
}

/// Resizing loses nothing: every logical line keeps its glyphs in order, and no
/// two lines are joined or swapped. They move down by the blank rows that come
/// above them. Only empty lines at the end may come or go.
pub proof fn resize_keeps_content(s: Screen, rows: usize, cols: usize)
    requires
        s.wf(),
        !s.alt(),
        1 <= rows <= MAX_SIDE,
        1 <= cols <= MAX_SIDE,
        fits(s, rows as int, cols as int),
    ensures
        forall|i: int|
            #[trigger] reflow::ink_at(
                reflow::logical_lines(history(s.resized(rows, cols))),
                i,
            ) == reflow::ink_at(reflow::logical_lines(history(s)), i - raised(s, rows, cols)),
{
    if !(rows == s.size.rows && cols == s.size.cols) {
        reflow::reflow_keeps_content(
            s.scrollback,
            s.lines,
            s.cursor,
            s.cols(),
            rows as int,
            cols as int,
        );
    }
}

/// Resizing keeps the text of every logical line without wide glyphs cell for
/// cell up to its last glyph, whatever the other lines hold.
pub proof fn resize_keeps_text(s: Screen, rows: usize, cols: usize)
    requires
        s.wf(),
        !s.alt(),
        1 <= rows <= MAX_SIDE,
        1 <= cols <= MAX_SIDE,
        fits(s, rows as int, cols as int),
    ensures
        forall|i: int|
            reflow::narrow_at(
                reflow::logical_lines(history(s)),
                i - raised(s, rows, cols),
            ) ==> #[trigger] reflow::text_at(
                reflow::logical_lines(history(s.resized(rows, cols))),
                i,
            ) == reflow::text_at(reflow::logical_lines(history(s)), i - raised(s, rows, cols)),
{
    if !(rows == s.size.rows && cols == s.size.cols) {
        reflow::reflow_keeps_text(
            s.scrollback,
            s.lines,
            s.cursor,
            s.cols(),
            rows as int,
            cols as int,
        );
    }
}

/// Resizing to two columns or more keeps the text of every logical line cell for
/// cell up to its last glyph, but for spaces right before a wide glyph.
pub proof fn resize_keeps_closed_text(s: Screen, rows: usize, cols: usize)
    requires
        s.wf(),
        !s.alt(),
        1 <= rows <= MAX_SIDE,
        2 <= cols <= MAX_SIDE,
        fits(s, rows as int, cols as int),
    ensures
        forall|i: int|
            #[trigger] reflow::closed_text_at(
                reflow::logical_lines(history(s.resized(rows, cols))),
                i,
            ) == reflow::closed_text_at(
                reflow::logical_lines(history(s)),
                i - raised(s, rows, cols),
            ),
{
    if !(rows == s.size.rows && cols == s.size.cols) {
        reflow::reflow_keeps_closed_text(
            s.scrollback,
            s.lines,
            s.cursor,
            s.cols(),
            rows as int,
            cols as int,
        );
    }
}

/// Resizing to another size and on to a third keeps the content as well.
pub proof fn resizing_twice_keeps_content(
    s: Screen,
    rows: usize,
    cols: usize,
    rows2: usize,
    cols2: usize,
)
    requires
        s.wf(),
        s.resized(rows, cols).wf(),
        !s.alt(),
        1 <= rows <= MAX_SIDE,
        1 <= cols <= MAX_SIDE,
        1 <= rows2 <= MAX_SIDE,
        1 <= cols2 <= MAX_SIDE,
        fits(s, rows as int, cols as int),
        fits(s.resized(rows, cols), rows2 as int, cols2 as int),
    ensures
        forall|i: int|
            #[trigger] reflow::ink_at(
                reflow::logical_lines(history(s.resized(rows, cols).resized(rows2, cols2))),
                i,
            ) == reflow::ink_at(
                reflow::logical_lines(history(s)),
                i - raised(s.resized(rows, cols), rows2, cols2) - raised(s, rows, cols),
            ),
{
    let mid = s.resized(rows, cols);
    resize_keeps_content(s, rows, cols);
    resize_keeps_content(mid, rows2, cols2);
    assert forall|i: int|
        #[trigger] reflow::ink_at(
            reflow::logical_lines(history(mid.resized(rows2, cols2))),
            i,
        ) == reflow::ink_at(
            reflow::logical_lines(history(s)),
            i - raised(mid, rows2, cols2) - raised(s, rows, cols),
        ) by {
        let j = i - raised(mid, rows2, cols2);
        assert(reflow::ink_at(reflow::logical_lines(history(mid)), j) == reflow::ink_at(
            reflow::logical_lines(history(s)),
            j - raised(s, rows, cols),
        ));
    }
}

/// Resizing keeps the cursor in its logical line, unless the cursor's row no
/// longer fits on the screen.
pub proof fn resize_keeps_cursor_line(s: Screen, rows: usize, cols: usize)
    requires
        s.wf(),
        !s.alt(),
        1 <= rows <= MAX_SIDE,
        1 <= cols <= MAX_SIDE,
        fits(s, rows as int, cols as int),
        reflow::cursor_row_laid_out(s.scrollback, s.lines, s.cursor, s.cols(), cols as int)
            >= reflow::laid_out(
            reflow::kept_lines(s.scrollback, s.lines, s.cursor),
            cols as int,
        ).len() - rows,
    ensures
        ({
            let after = s.resized(rows, cols);
            reflow::cursor_line(after.scrollback, after.lines, after.cursor)
                == reflow::cursor_line(s.scrollback, s.lines, s.cursor) + raised(s, rows, cols)
        }),
{
    if !(rows == s.size.rows && cols == s.size.cols) {
        reflow::reflow_keeps_cursor_line(
            s.scrollback,
            s.lines,
            s.cursor,
            s.cols(),
            rows as int,
            cols as int,
        );
    }
}

/// The logical line that begins or goes on in a row, counted from the oldest
/// scrollback row.
pub open spec fn line_of(rows: Seq<Line>, at: int) -> int {
    reflow::gather(reflow::Gathered::nothing(), rows.take(at)).lines.len() as int
}

/// Whether a logical line begins in a row.
pub open spec fn begins_line(rows: Seq<Line>, at: int) -> bool {
    reflow::gather(reflow::Gathered::nothing(), rows.take(at)).open.len() == 0
}

/// Resizing keeps a block on its prompt: the row in which the block starts belongs
/// to the same logical line as before, and begins it where it did. A block that
/// starts in one of the empty rows at the end has no line to follow.
pub proof fn resize_keeps_block_on_prompt(s: Screen, rows: usize, cols: usize, i: int)
    requires
        s.wf(),
        !s.alt(),
        1 <= rows <= MAX_SIDE,
        1 <= cols <= MAX_SIDE,
        fits(s, rows as int, cols as int),
        0 <= i < s.blocks.len(),
        line_of(history(s), s.blocks[i].start_row as int) < reflow::kept_lines(
            s.scrollback,
            s.lines,
            s.cursor,
        ).len(),
    ensures
        ({
            let after = s.resized(rows, cols);
            let from = s.blocks[i].start_row as int;
            let to = after.blocks[i].start_row as int;
            &&& after.blocks[i].state == s.blocks[i].state
            &&& line_of(history(after), to) == line_of(history(s), from) + raised(s, rows, cols)
            &&& begins_line(history(s), from) ==> begins_line(history(after), to)
        }),
{
    if !(rows == s.size.rows && cols == s.size.cols) {
        let at = s.blocks[i].start_row as int;
        reflow::reflow_keeps_line_of_row(
            s.scrollback,
            s.lines,
            s.cursor,
            s.cols(),
            rows as int,
            cols as int,
            at,
        );
        reflow::moved_row_bounds(s.scrollback, s.lines, s.cursor, rows as int, cols as int, at);
    }
}

/// A block starts in the row of its prompt.
pub proof fn block_starts_in_prompt_row(s: Screen)
    requires
        s.wf(),
    ensures
        ({
            let block = s.with_block().blocks.last();
            history(s.with_block())[block.start_row as int] == s.lines[s.cursor.row as int]
        }),
{
}

/// Blocks follow their prompts when rows move: the row in which a block starts is
/// the one it was, be it on the screen or in the scrollback, also when the full
/// scrollback drops its oldest rows. Only a row that is lost cannot be followed.
pub proof fn blocks_follow_their_prompts(s: Screen, n: int, i: int)
    requires
        s.wf(),
        !s.alt(),
        n >= 0,
        0 <= i < s.blocks.len(),
    ensures
        ({
            let sb = s.scrollback.len();
            let top = s.scroll_top as int;
            let bot = s.scroll_bot as int;
            let m = math::min(n, bot - top);
            let from = s.blocks[i].start_row as int;
            let up = s.scrolled_up(n);
            let down = s.scrolled_down(n);
            let to_up = up.blocks[i].start_row as int;
            let to_down = down.blocks[i].start_row as int;
            let lost_up = if top == 0 {
                from < s.dropped_by(m)
            } else {
                sb + top <= from < sb + top + m
            };
            let lost_down = sb + bot - m <= from < sb + bot;
            &&& !lost_up ==> history(up)[to_up] == history(s)[from]
            &&& !lost_down ==> history(down)[to_down] == history(s)[from]
        }),
{
    assert(s.blocks[i].start_row < s.scrollback.len() + s.rows());
    screen::scrolling_keeps_wf(s, n);
    let m = math::min(n, s.scroll_bot - s.scroll_top);
    if s.scroll_top == 0 {
        let all = s.scrollback + s.lines.take(m);
        let from = s.blocks[i].start_row as int;
        let to = s.row_kept(from, s.scroll_bot as int, m);
        let up = s.scrolled_up(n);
        assert(up.blocks[i].start_row == to);
        assert(up.scrollback == screen::keep_last(all, DEFAULT_SCROLLBACK as int));
        assert(all.len() == s.scrollback.len() + m);
    }
}

/// The same of inserted and deleted lines, but for the wrap flag of the row above
/// the cursor.
pub proof fn blocks_follow_inserted_lines(s: Screen, n: int, i: int)
    requires
        s.wf(),
        !s.alt(),
        s.cursor_in_region(),
        n >= 0,
        0 <= i < s.blocks.len(),
    ensures
        ({
            let sb = s.scrollback.len();
            let top = s.cursor.row as int;
            let bot = s.scroll_bot as int;
            let m = screen::count_between(n, bot - top);
            let from = s.blocks[i].start_row as int;
            let inserted = s.inserted_lines(n);
            let deleted = s.deleted_lines(n);
            let to_in = inserted.blocks[i].start_row as int;
            let to_del = deleted.blocks[i].start_row as int;
            &&& !(sb + bot - m <= from < sb + bot) ==> history(inserted)[to_in].cells == history(
                s,
            )[from].cells
            &&& !(sb + top <= from < sb + top + m) ==> history(deleted)[to_del].cells == history(
                s,
            )[from].cells
        }),
{
    assert(s.blocks[i].start_row < s.scrollback.len() + s.rows());
}

/// Whether a printed character leaves the cursor's row first: where the cursor
/// lies past the right margin, or the two cells of a wide glyph would not fit.
pub open spec fn leaves_row(s: Screen, c: char) -> bool {
    let width = width::cells_taken(c);
    &&& width > 0
    &&& s.takes(width)
    &&& s.cursor.col >= s.cols() || width == 2 && s.cursor.col + 1 >= s.cols()
}

/// Whether a printed character leaves two rows: a wide one, on a screen of one
/// column, where the cursor lies past the margin.
pub open spec fn leaves_two_rows(s: Screen, c: char) -> bool {
    s.cols() == 1 && width::cells_taken(c) == 2 && s.cursor.col >= 1
}

/// Where the row at `r` stood before rows `top..bot` moved up by `n`.
pub open spec fn before_up(r: int, top: int, bot: int, n: int) -> int {
    if top <= r < bot {
        r + n
    } else {
        r
    }
}

/// Where the row at `r` stood before rows `top..bot` moved down by `n`.
pub open spec fn before_down(r: int, top: int, bot: int, n: int) -> int {
    if top <= r < bot {
        r - n
    } else {
        r
    }
}

/// Where the row at `r` stood before a line feed.
pub open spec fn before_line_feed(s: Screen, r: int) -> int {
    if s.cursor.row + 1 == s.scroll_bot {
        before_up(r, s.scroll_top as int, s.scroll_bot as int, 1)
    } else {
        r
    }
}

/// Where the row that stands at `r` after an event stood before it.
pub open spec fn row_before(s: Screen, event: Event, r: int) -> int {
    let top = s.scroll_top as int;
    let bot = s.scroll_bot as int;
    let at = s.cursor.row as int;
    match event {
        Event::Print(c) => if leaves_row(s, c) {
            before_line_feed(s, r)
        } else {
            r
        },
        Event::Execute(b) => if b == 0x0a || b == 0x0b || b == 0x0c {
            before_line_feed(s, r)
        } else {
            r
        },
        Event::Esc(b) => if b == 0x44 || b == 0x45 {
            before_line_feed(s, r)
        } else if b == 0x4d && at == top {
            before_down(r, top, bot, 1)
        } else {
            r
        },
        Event::Csi { params, intermediates, action } => {
            let n = parser::value_at(params, 0, 1) as int;
            if intermediates.len() > 0 {
                r
            } else if action == 'S' {
                before_up(r, top, bot, math::min(n, bot - top))
            } else if action == 'T' {
                before_down(r, top, bot, math::min(n, bot - top))
            } else if action == 'L' && s.cursor_in_region() {
                before_down(r, at, bot, screen::count_between(n, bot - at))
            } else if action == 'M' && s.cursor_in_region() {
                before_up(r, at, bot, screen::count_between(n, bot - at))
            } else {
                r
            }
        },
        Event::Osc(_) => r,
    }
}

/// That the wrap flags after a change come from those before: a row that stands
/// at `r` and runs on stood at `from` and ran on.
pub open spec fn flag_from(before: Screen, after: Screen, r: int, from: int) -> bool {
    after.lines[r].wrapped ==> 0 <= from < before.rows() && before.lines[from].wrapped
}

proof fn modes_keep_lines(s: Screen, modes: Seq<u16>, enable: bool)
    requires
        !switches(modes),
    ensures
        parser::dec_modes(s, modes, enable).lines == s.lines,
    decreases modes.len(),
{
    if modes.len() > 0 {
        let front = modes.drop_last();
        assert(!switches(front)) by {
            assert forall|i: int| 0 <= i < front.len() implies !(#[trigger] front[i] == 1049
                || front[i] == 1047 || front[i] == 47) by {
                assert(front[i] == modes[i]);
            }
        }
        modes_keep_lines(s, front, enable);
        assert(!(modes[modes.len() - 1] == 1049 || modes[modes.len() - 1] == 1047
            || modes[modes.len() - 1] == 47));
    }
}

proof fn flags_of_moved_rows(s: Screen, n: int, r: int)
    requires
        s.wf(),
        n >= 0,
        0 <= r < s.rows(),
    ensures
        ({
            let top = s.scroll_top as int;
            let bot = s.scroll_bot as int;
            let at = s.cursor.row as int;
            let m = math::min(n, bot - top);
            let k = screen::count_between(n, bot - at);
            &&& flag_from(s, s.scrolled_up(n), r, before_up(r, top, bot, m))
            &&& flag_from(s, s.scrolled_down(n), r, before_down(r, top, bot, m))
            &&& s.cursor_in_region() ==> flag_from(
                s,
                s.inserted_lines(n),
                r,
                before_down(r, at, bot, k),
            )
            &&& s.cursor_in_region() ==> flag_from(
                s,
                s.deleted_lines(n),
                r,
                before_up(r, at, bot, k),
            )
        }),
{
}

proof fn flags_of_line_feed(s: Screen, r: int)
    requires
        s.wf(),
        0 <= r < s.rows(),
    ensures
        flag_from(s, s.advanced_row(), r, before_line_feed(s, r)),
        flag_from(s, s.at_col(0).advanced_row(), r, before_line_feed(s, r)),
{
    flags_of_moved_rows(s, 1, r);
    flags_of_moved_rows(s.at_col(0), 1, r);
}

proof fn flags_of_print(s: Screen, c: char, r: int)
    requires
        s.wf(),
        0 <= r < s.rows(),
        !leaves_two_rows(s, c),
        s.typed(c).lines[r].wrapped,
    ensures
        ({
            let from = row_before(s, Event::Print(c), r);
            &&& 0 <= from < s.rows()
            &&& s.lines[from].wrapped || leaves_row(s, c) && from == s.cursor.row
        }),
{
    if leaves_row(s, c) {
        let row = s.cursor.row as int;
        let marked = Screen {
            lines: s.lines.update(row, Line { wrapped: true, ..s.lines[row] }),
            ..s
        };
        assert(marked.wf());
        flags_of_line_feed(marked, r);
        wrapped_is_at_start(s);
    }
}

proof fn flags_of_csi(s: Screen, params: Seq<Seq<u16>>, intermediates: Seq<u8>, action: char, r: int)
    requires
        s.wf(),
        0 <= r < s.rows(),
        stays(Event::Csi { params, intermediates, action }),
    ensures
        flag_from(
            s,
            parser::csi(s, params, intermediates, action),
            r,
            row_before(s, Event::Csi { params, intermediates, action }, r),
        ),
{
    let n = parser::value_at(params, 0, 1) as int;
    if intermediates.len() > 0 {
        if intermediates[0] == 0x3f {
            modes_keep_lines(s, parser::flat(params), true);
            modes_keep_lines(s, parser::flat(params), false);
        }
    } else if action == 'S' || action == 'T' || action == 'L' || action == 'M' {
        flags_of_moved_rows(s, n, r);
    }
}

/// Only text printed past the right margin makes a row run on. Row by row: a row
/// that runs on after an event did so before, wherever it stood, or is the row
/// that a printed character just left at the margin. So a newline, a carriage
/// return or any other event never joins two rows. Where a character leaves two
/// rows, the second of them may not have been there before.
pub proof fn rows_join_only_at_the_margin(s: Screen, event: Event, r: int)
    requires
        s.wf(),
        stays(event),
        0 <= r < s.rows(),
        event matches Event::Print(c) ==> !leaves_two_rows(s, c),
        parser::performed(s, event).lines[r].wrapped,
    ensures
        ({
            let from = row_before(s, event, r);
            &&& 0 <= from < s.rows()
            &&& s.lines[from].wrapped || {
                &&& event matches Event::Print(c)
                &&& leaves_row(s, c)
                &&& from == s.cursor.row
            }
        }),
{
    match event {
        Event::Print(c) => flags_of_print(s, c, r),
        Event::Csi { params, intermediates, action } => flags_of_csi(
            s,
            params,
            intermediates,
            action,
            r,
        ),
        Event::Execute(_) => flags_of_line_feed(s, r),
        Event::Esc(_) => {
            flags_of_line_feed(s, r);
            flags_of_moved_rows(s, 1, r);
        },
        Event::Osc(_) => {},
    }
}

/// A row that ends with a newline, behind one that does, stays a line of its own
/// however the screen is resized: the line holds the glyphs of that row and no
/// others.
pub proof fn newlines_are_not_merged(s: Screen, rows: usize, cols: usize, i: int)
    requires
        s.wf(),
        !s.alt(),
        1 <= rows <= MAX_SIDE,
        1 <= cols <= MAX_SIDE,
        fits(s, rows as int, cols as int),
        0 <= i < history(s).len(),
        !history(s)[i].wrapped,
        i > 0 ==> !history(s)[i - 1].wrapped,
    ensures
        reflow::ink_at(
            reflow::logical_lines(history(s.resized(rows, cols))),
            line_of(history(s), i) + raised(s, rows, cols),
        ) == reflow::ink(reflow::trimmed(history(s)[i].cells)),
        line_of(history(s), i + 1) == line_of(history(s), i) + 1,
{
    let line = line_of(history(s), i);
    reflow::line_of_unjoined_row(history(s), i);
    resize_keeps_content(s, rows, cols);
    assert(reflow::ink_at(
        reflow::logical_lines(history(s.resized(rows, cols))),
        line + raised(s, rows, cols),
    ) == reflow::ink_at(reflow::logical_lines(history(s)), line));
}

/// A row whose end was erased ends its line.
pub proof fn erased_rows_end_their_lines(s: Screen, r: int)
    requires
        s.wf(),
        0 <= r < s.rows(),
    ensures
        !s.erased_display(2).lines[r].wrapped,
        !s.cleared().lines[r].wrapped,
        r >= s.cursor.row ==> !s.erased_display(0).lines[r].wrapped,
        r < s.cursor.row ==> !s.erased_display(1).lines[r].wrapped,
        r == s.cursor.row ==> !s.erased_line(0).lines[r].wrapped && !s.erased_line(
            2,
        ).lines[r].wrapped,
{
    assert(s.lines[s.cursor.row as int].cells.len() == s.cols());
}

/// A row whose last cell was just overwritten ends its line.
pub proof fn overwritten_rows_end_their_lines(s: Screen, ch: char, width: int)
    requires
        s.wf(),
        1 <= width <= 3,
        s.takes(width),
        s.printed(ch, width).cursor.col >= s.cols(),
    ensures
        ({
            let after = s.printed(ch, width);
            !after.lines[after.cursor.row as int].wrapped
        }),
{
    let a = if s.cursor.col >= s.cols() {
        s.wrapped()
    } else {
        s
    };
    wrapped_is_at_start(s);
    wrapped_is_at_start(a);
}

/// That the cursor, and that of a primary screen behind, stands in a column or
/// just behind the last one.
pub open spec fn within_margin(s: Screen) -> bool {
    &&& s.cursor.col <= s.cols()
    &&& s.primary matches Some(p) ==> p.cursor.col <= s.cols()
}

/// An event that prints no character of three cells, nor a wide one on a screen
/// of one column.
pub open spec fn at_most_wide(event: Event, cols: int) -> bool {
    event matches Event::Print(c) ==> width::cells_taken(c) <= 2 && width::cells_taken(c) <= cols
}

proof fn modes_stay_within_margin(s: Screen, modes: Seq<u16>, enable: bool)
    requires
        within_margin(s),
    ensures
        within_margin(parser::dec_modes(s, modes, enable)),
        parser::dec_modes(s, modes, enable).size == s.size,
    decreases modes.len(),
{
    if modes.len() > 0 {
        modes_stay_within_margin(s, modes.drop_last(), enable);
    }
}

proof fn print_stays_within_margin(s: Screen, c: char)
    requires
        s.cols() >= 1,
        within_margin(s),
        at_most_wide(Event::Print(c), s.cols()),
    ensures
        within_margin(s.typed(c)),
        s.typed(c).size == s.size,
{
    let width = width::cells_taken(c);
    let ready = s.wrapped_for(width);
    assert(within_margin(ready) && ready.size == s.size);
    assert(ready.cursor.col + 1 <= s.cols());
    assert(width == 2 ==> ready.cursor.col + 2 <= s.cols());
}

proof fn csi_stays_within_margin(
    s: Screen,
    params: Seq<Seq<u16>>,
    intermediates: Seq<u8>,
    action: char,
)
    requires
        s.cols() >= 1,
        within_margin(s),
    ensures
        within_margin(parser::csi(s, params, intermediates, action)),
        parser::csi(s, params, intermediates, action).size == s.size,
{
    if intermediates.len() > 0 && intermediates[0] == 0x3f {
        modes_stay_within_margin(s, parser::flat(params), true);
        modes_stay_within_margin(s, parser::flat(params), false);
    }
}

/// The cursor never passes the right margin by more than the column behind the
/// last one, in which the next character wraps. Only a character of three cells
/// can take it further, or a wide one on a screen of one column.
pub proof fn event_stays_within_margin(s: Screen, event: Event)
    requires
        s.cols() >= 1,
        within_margin(s),
        at_most_wide(event, s.cols()),
    ensures
        within_margin(parser::performed(s, event)),
        parser::performed(s, event).size == s.size,
{
    match event {
        Event::Print(c) => print_stays_within_margin(s, c),
        Event::Csi { params, intermediates, action } => csi_stays_within_margin(
            s,
            params,
            intermediates,
            action,
        ),
        _ => {},
    }
}

proof fn events_stay_within_margin(s: Screen, events: Seq<Event>)
    requires
        s.cols() >= 1,
        within_margin(s),
        forall|i: int| 0 <= i < events.len() ==> at_most_wide(#[trigger] events[i], s.cols()),
    ensures
        within_margin(parser::performed_all(s, events)),
        parser::performed_all(s, events).size == s.size,
    decreases events.len(),
{
    if events.len() > 0 {
        let front = events.drop_last();
        assert forall|i: int| 0 <= i < front.len() implies at_most_wide(
            #[trigger] front[i],
            s.cols(),
        ) by {
            assert(front[i] == events[i]);
        }
        events_stay_within_margin(s, front);
        assert(at_most_wide(events[events.len() - 1], s.cols()));
        event_stays_within_margin(parser::performed_all(s, front), events.last());
    }
}

/// That a stream of bytes, read after `history`, prints no character of three
/// cells, nor a wide one on a screen of one column.
pub open spec fn stream_at_most_wide(history: Seq<u8>, bytes: Seq<u8>, cols: int) -> bool {
    forall|i: int, k: int|
        0 <= i < bytes.len() && 0 <= k < vt::vt_events(history + bytes.take(i), bytes[i]).len()
            ==> at_most_wide(#[trigger] vt::vt_events(history + bytes.take(i), bytes[i])[k], cols)
}

/// The same of a whole stream of bytes, as `Terminal::advance` reads it: together
/// with what holds of every screen, the cursor lies inside the grid or just behind
/// the last column, whatever a program sends.
pub proof fn stream_stays_within_margin(s: Screen, history: Seq<u8>, bytes: Seq<u8>)
    requires
        s.cols() >= 1,
        within_margin(s),
        stream_at_most_wide(history, bytes, s.cols()),
    ensures
        within_margin(parser::run(s, history, bytes)),
        parser::run(s, history, bytes).size == s.size,
    decreases bytes.len(),
{
    if bytes.len() > 0 {
        let front = bytes.drop_last();
        let n = front.len() as int;
        assert forall|i: int, k: int|
            0 <= i < front.len() && 0 <= k < vt::vt_events(
                history + front.take(i),
                front[i],
            ).len() implies at_most_wide(
            #[trigger] vt::vt_events(history + front.take(i), front[i])[k],
            s.cols(),
        ) by {
            assert(front.take(i) =~= bytes.take(i));
            assert(at_most_wide(vt::vt_events(history + bytes.take(i), bytes[i])[k], s.cols()));
        }
        stream_stays_within_margin(s, history, front);
        let events = vt::vt_events(history + front, bytes.last());
        assert(bytes.take(n) =~= front);
        assert forall|k: int| 0 <= k < events.len() implies at_most_wide(
            #[trigger] events[k],
            s.cols(),
        ) by {
            assert(at_most_wide(vt::vt_events(history + bytes.take(n), bytes[n])[k], s.cols()));
        }
        events_stay_within_margin(parser::run(s, history, front), events);
    }
}

/// A fresh screen, and one that was resized, has its cursor inside.
pub proof fn resize_stays_within_margin(s: Screen, rows: usize, cols: usize)
    requires
        s.wf(),
        within_margin(s),
    ensures
        within_margin(s.resized(rows, cols)),
        within_margin(Screen::fresh(rows, cols)),
{
    let r = math::max(rows as int, 1);
    let c = math::max(cols as int, 1);
    if !(r == s.size.rows && c == s.size.cols) {
        match s.primary {
            Some(p) => {
                reflow::reflowed_cursor_inside(
                    Seq::empty(),
                    p.lines,
                    p.cursor,
                    s.cols(),
                    r,
                    c,
                );
            },
            None => {
                reflow::reflowed_cursor_inside(s.scrollback, s.lines, s.cursor, s.cols(), r, c);
            },
        }
    }
}

/// How many blank rows a resize puts above the content of the primary screen `p`
/// behind the alternate one.
pub open spec fn raised_behind(s: Screen, p: Primary, rows: usize, cols: usize) -> int {
    if rows == s.size.rows && cols == s.size.cols {
        0
    } else {
        reflow::blanks_above(Seq::empty(), p.lines, p.cursor, rows as int, cols as int)
    }
}

/// Resizing while the alternate screen is shown keeps the content of scrollback
/// and primary screen as well: it is all there when the alternate screen is left.
/// Where the content does not fill the primary screen, blank rows come between the
/// scrollback and it; a line that runs on across that border is not spoken of.
pub proof fn resize_behind_alt_keeps_content(s: Screen, p: Primary, rows: usize, cols: usize)
    requires
        s.wf(),
        s.primary == Some(p),
        1 <= rows <= MAX_SIDE,
        1 <= cols <= MAX_SIDE,
        s.scrollback.len() + reflow::laid_out(
            reflow::kept_lines(Seq::empty(), p.lines, p.cursor),
            cols as int,
        ).len() <= rows + DEFAULT_SCROLLBACK,
        raised_behind(s, p, rows, cols) == 0 || s.scrollback.len() == 0
            || !s.scrollback.last().wrapped,
    ensures
        forall|i: int|
            #[trigger] reflow::ink_at(
                reflow::logical_lines(history(s.resized(rows, cols).left_alt())),
                i,
            ) == reflow::ink_at(
                reflow::logical_lines(history(s.left_alt())),
                reflow::opened_up(
                    i,
                    line_of(s.scrollback, s.scrollback.len() as int),
                    raised_behind(s, p, rows, cols),
                ),
            ),
{
    let whole = s.scrollback.take(s.scrollback.len() as int);
    assert(whole =~= s.scrollback);
    if !(rows == s.size.rows && cols == s.size.cols) {
        reflow::reflow_behind_scrollback_keeps_content(
            s.scrollback,
            p.lines,
            p.cursor,
            s.cols(),
            rows as int,
            cols as int,
        );
        let after = reflow::reflowed(
            Seq::empty(),
            p.lines,
            p.cursor,
            s.cols(),
            rows as int,
            cols as int,
        );
        let left = s.resized(rows, cols).left_alt();
        assert(left.scrollback == s.scrollback + after.scrollback);
        assert(history(left) == s.scrollback + after.scrollback + after.lines);
        assert(history(s.left_alt()) == s.scrollback + p.lines);
    }
}

/// A resize resets the scroll region to the full screen, also that of a primary
/// screen behind the alternate one.
pub proof fn resize_resets_scroll_regions(s: Screen, rows: usize, cols: usize)
    requires
        s.wf(),
        1 <= rows <= MAX_SIDE,
        1 <= cols <= MAX_SIDE,
        !(rows == s.size.rows && cols == s.size.cols),
    ensures
        ({
            let after = s.resized(rows, cols);
            &&& after.scroll_top == 0 && after.scroll_bot == rows
            &&& after.left_alt().scroll_top == 0 && after.left_alt().scroll_bot == rows
        }),
{
}

/// Resizing keeps the cursor in its place: on its glyph, with the same text before
/// it, so that what is typed next lands where it would have. A cursor behind the
/// end of its line stays behind it.
pub proof fn resize_keeps_cursor_place(s: Screen, rows: usize, cols: usize)
    requires
        s.wf(),
        !s.alt(),
        1 <= rows <= MAX_SIDE,
        1 <= cols <= MAX_SIDE,
        !(rows == s.size.rows && cols == s.size.cols),
        s.cursor.col <= s.cols(),
        fits(s, rows as int, cols as int),
        reflow::cursor_row_laid_out(s.scrollback, s.lines, s.cursor, s.cols(), cols as int)
            >= reflow::laid_out(
            reflow::kept_lines(s.scrollback, s.lines, s.cursor),
            cols as int,
        ).len() - rows,
    ensures
        ({
            let after = s.resized(rows, cols);
            reflow::keeps_cursor_place(
                s.scrollback,
                s.lines,
                s.cursor,
                after.scrollback,
                after.lines,
                after.cursor,
                cols as int,
            )
        }),
{
    reflow::reflow_keeps_cursor_place(
        s.scrollback,
        s.lines,
        s.cursor,
        s.cols(),
        rows as int,
        cols as int,
    );
}

/// Resizing keeps the cursor of the primary screen behind the alternate one in its
/// place too, among the rows of that screen.
pub proof fn resize_behind_alt_keeps_cursor_place(
    s: Screen,
    p: Primary,
    rows: usize,
    cols: usize,
)
    requires
        s.wf(),
        s.primary == Some(p),
        1 <= rows <= MAX_SIDE,
        1 <= cols <= MAX_SIDE,
        !(rows == s.size.rows && cols == s.size.cols),
        p.cursor.col <= s.cols(),
        reflow::laid_out(
            reflow::kept_lines(Seq::empty(), p.lines, p.cursor),
            cols as int,
        ).len() <= rows + DEFAULT_SCROLLBACK,
        reflow::cursor_row_laid_out(Seq::empty(), p.lines, p.cursor, s.cols(), cols as int)
            >= reflow::laid_out(
            reflow::kept_lines(Seq::empty(), p.lines, p.cursor),
            cols as int,
        ).len() - rows,
    ensures
        ({
            let r = reflow::reflowed(
                Seq::empty(),
                p.lines,
                p.cursor,
                s.cols(),
                rows as int,
                cols as int,
            );
            let after = s.resized(rows, cols);
            &&& after.primary matches Some(q) && q.lines == r.lines && q.cursor == r.cursor
            &&& reflow::keeps_cursor_place(
                Seq::empty(),
                p.lines,
                p.cursor,
                r.scrollback,
                r.lines,
                r.cursor,
                cols as int,
            )
        }),
{
    reflow::reflow_keeps_cursor_place(
        Seq::empty(),
        p.lines,
        p.cursor,
        s.cols(),
        rows as int,
        cols as int,
    );
}

/// Resizing gives the screen the size that was asked for, a side of 0 counting as 1,
/// and keeps everything that is no matter of size. The same size changes nothing.
pub proof fn resize_keeps_what_has_no_size(s: Screen, rows: usize, cols: usize)
    ensures
        ({
            let after = s.resized(rows, cols);
            &&& after.size.rows == if rows == 0 {
                1
            } else {
                rows
            }
            &&& after.size.cols == if cols == 0 {
                1
            } else {
                cols
            }
            &&& after.size == s.size ==> after == s
            &&& after.pen == s.pen
            &&& after.saved_cursor == s.saved_cursor
            &&& after.cursor_visible == s.cursor_visible
            &&& after.bracketed_paste == s.bracketed_paste
            &&& after.cwd == s.cwd
            &&& after.responses == s.responses
            &&& after.alt() == s.alt()
            &&& after.blocks.len() == s.blocks.len()
        }),
{
}

/// Resizing puts blank rows above the content and none below it: only where all
/// content is on the screen is there a blank row above, and the content ends in the
/// last row of the screen.
pub proof fn resize_fills_the_screen_from_the_bottom(s: Screen, rows: usize, cols: usize, r: int)
    requires
        s.wf(),
        !s.alt(),
        1 <= rows <= MAX_SIDE,
        1 <= cols <= MAX_SIDE,
        !(rows == s.size.rows && cols == s.size.cols),
        fits(s, rows as int, cols as int),
    ensures
        ({
            let after = s.resized(rows, cols);
            let lines = reflow::logical_lines(history(after));
            let kept = reflow::kept_lines(s.scrollback, s.lines, s.cursor);
            &&& lines.len() == raised(s, rows, cols) + kept.len()
            &&& raised(s, rows, cols) > 0 ==> after.scrollback.len() == 0
            &&& 0 <= r < raised(s, rows, cols) ==> editing::is_empty_row(
                after.lines[r],
                cols as int,
            )
            &&& after.lines.len() == rows
        }),
{
    reflow::reflow_adds_no_lines(
        s.scrollback,
        s.lines,
        s.cursor,
        s.cols(),
        rows as int,
        cols as int,
    );
}

/// Lines that resizing leaves out are empty, stand at the end and lie below the
/// cursor's; and all such lines are left out, so that they push nothing off the screen.
pub proof fn resize_leaves_out_only_empty_lines(s: Screen, i: int)
    requires
        s.wf(),
        !s.alt(),
        0 <= i < reflow::logical_lines(history(s)).len(),
    ensures
        ({
            let all = reflow::logical_lines(history(s));
            let kept = reflow::kept_lines(s.scrollback, s.lines, s.cursor);
            &&& kept.len() <= all.len()
            &&& i < kept.len() ==> kept[i] == all[i]
            &&& i >= kept.len() ==> all[i].len() == 0 && i > reflow::cursor_line(
                s.scrollback,
                s.lines,
                s.cursor,
            )
            &&& reflow::cursor_line(s.scrollback, s.lines, s.cursor) < kept.len()
            &&& kept.last().len() > 0 || kept.len() == reflow::cursor_line(
                s.scrollback,
                s.lines,
                s.cursor,
            ) + 1
        }),
{
    reflow::kept_lines_facts(s.scrollback, s.lines, s.cursor, i);
}

/// The alternate screen is not reflowed: it keeps its top left corner, cell by cell;
/// what comes in at the right and at the bottom is empty, and the cursor stays where
/// it is, as far as that place still exists.
pub proof fn alternate_screen_is_cropped(s: Screen, rows: usize, cols: usize, r: int, c: int)
    requires
        s.wf(),
        s.alt(),
        1 <= rows <= MAX_SIDE,
        1 <= cols <= MAX_SIDE,
        0 <= r < rows,
        0 <= c < cols,
        !(rows == s.size.rows && cols == s.size.cols),
    ensures
        ({
            let after = s.resized(rows, cols);
            &&& r < s.rows() && c < s.cols() ==> after.cell(r, c) == s.cell(r, c)
            &&& r >= s.rows() || c >= s.cols() ==> editing::is_empty_cell(after.cell(r, c))
            &&& after.lines[r].wrapped == (r < s.rows() && s.lines[r].wrapped)
            &&& after.cursor.row == math::min(s.cursor.row as int, rows - 1)
            &&& after.cursor.col == math::min(s.cursor.col as int, cols - 1)
        }),
{
    if r < s.rows() {
        assert(s.lines[r].cells.len() == s.cols());
    }
}

/// A fresh screen is empty, with the cursor in the corner, a plain pen, the whole
/// screen as the scroll region and nothing remembered; clearing empties the rows and
/// puts the cursor in the corner, and changes nothing else.
pub proof fn fresh_and_cleared_screens_are_empty(s: Screen, rows: usize, cols: usize, r: int)
    requires
        1 <= rows,
        1 <= cols,
        s.wf(),
    ensures
        ({
            let new = Screen::fresh(rows, cols);
            &&& new.size.rows == rows && new.size.cols == cols
            &&& new.lines.len() == rows
            &&& 0 <= r < rows ==> editing::is_empty_row(new.lines[r], cols as int)
            &&& new.cursor.row == 0 && new.cursor.col == 0
            &&& new.pen.fg == Color::Default && new.pen.bg == Color::Default
            &&& new.pen.attrs.bits == 0
            &&& new.scroll_top == 0 && new.scroll_bot == rows
            &&& new.scrollback.len() == 0 && new.blocks.len() == 0 && new.responses.len() == 0
            &&& new.saved_cursor is None && new.primary is None && new.cwd is None
            &&& new.cursor_visible && !new.bracketed_paste
        }),
        ({
            let after = s.cleared();
            &&& after == (Screen { lines: after.lines, cursor: after.cursor, ..s })
            &&& after.lines.len() == s.rows()
            &&& 0 <= r < s.rows() ==> editing::is_empty_row(after.lines[r], s.cols())
            &&& after.cursor.row == 0 && after.cursor.col == 0
        }),
{
}

/// Resizing keeps the cursor on its cell also where the scrollback has no room for all
/// rows; where the cursor's own row does not fit on the screen any more, the cursor goes
/// to the top row.
pub proof fn resize_keeps_cursor_cell(s: Screen, rows: usize, cols: usize)
    requires
        s.wf(),
        !s.alt(),
        1 <= rows <= MAX_SIDE,
        1 <= cols <= MAX_SIDE,
        !(rows == s.size.rows && cols == s.size.cols),
        s.cursor.col < s.cols(),
    ensures
        ({
            let after = s.resized(rows, cols);
            let stays = reflow::cursor_row_laid_out(
                s.scrollback,
                s.lines,
                s.cursor,
                s.cols(),
                cols as int,
            ) >= reflow::laid_out(
                reflow::kept_lines(s.scrollback, s.lines, s.cursor),
                cols as int,
            ).len() - rows;
            let line = reflow::line_under_cursor(s.scrollback, s.lines, s.cursor);
            &&& !stays ==> after.cursor.row == 0
            &&& stays && reflow::before_cursor(s.scrollback, s.lines, s.cursor).len() < line.len()
                ==> after.cell(after.cursor.row as int, after.cursor.col as int) == s.cell(
                s.cursor.row as int,
                s.cursor.col as int,
            )
        }),
{
    reflow::reflow_keeps_cursor_cell(
        s.scrollback,
        s.lines,
        s.cursor,
        s.cols(),
        rows as int,
        cols as int,
    );
}

/// Moving rows changes nothing of a block but where it starts, and nothing at all while
/// the alternate screen is shown. A block whose row is lost starts in the row nearest to
/// where that was.
pub proof fn blocks_are_kept_when_rows_move(s: Screen, n: int, i: int)
    requires
        s.wf(),
        n >= 1,
        0 <= i < s.blocks.len(),
    ensures
        ({
            let sb = s.scrollback.len() as int;
            let top = s.scroll_top as int;
            let bot = s.scroll_bot as int;
            let m = math::min(n, bot - top);
            let from = s.blocks[i].start_row as int;
            let up = s.scrolled_up(n);
            let down = s.scrolled_down(n);
            let put = s.inserted_lines(n);
            let out = s.deleted_lines(n);
            &&& up.blocks.len() == s.blocks.len() && up.blocks[i].state == s.blocks[i].state
            &&& down.blocks.len() == s.blocks.len() && down.blocks[i].state == s.blocks[i].state
            &&& put.blocks.len() == s.blocks.len() && put.blocks[i].state == s.blocks[i].state
            &&& out.blocks.len() == s.blocks.len() && out.blocks[i].state == s.blocks[i].state
            &&& s.alt() ==> up.blocks == s.blocks && down.blocks == s.blocks && put.blocks
                == s.blocks && out.blocks == s.blocks
            &&& !s.alt() && top == 0 && from < sb + m - 10000 ==> up.blocks[i].start_row == 0
            &&& !s.alt() && top > 0 && sb + top <= from < sb + top + m ==> up.blocks[i].start_row
                == sb + top
            &&& !s.alt() && sb + bot - m <= from < sb + bot ==> down.blocks[i].start_row == sb + bot
                - 1
        }),
{
    assert(s.blocks[i].start_row < s.scrollback.len() + s.rows());
}

/// Resizing behind the alternate screen leaves the blocks in the scrollback on their
/// rows, as far as these are kept, and changes nothing of a block but where it starts.
pub proof fn resize_behind_alt_keeps_blocks(s: Screen, p: Primary, rows: usize, cols: usize, i: int)
    requires
        s.wf(),
        s.primary == Some(p),
        1 <= rows <= MAX_SIDE,
        1 <= cols <= MAX_SIDE,
        !(rows == s.size.rows && cols == s.size.cols),
        0 <= i < s.blocks.len(),
        s.scrollback.len() + reflow::laid_out(
            reflow::kept_lines(Seq::empty(), p.lines, p.cursor),
            cols as int,
        ).len() <= rows + DEFAULT_SCROLLBACK,
    ensures
        ({
            let after = s.resized(rows, cols);
            let from = s.blocks[i].start_row as int;
            let to = after.blocks[i].start_row as int;
            &&& after.blocks[i].state == s.blocks[i].state
            &&& from < s.scrollback.len() ==> after.scrollback[to] == s.scrollback[from]
        }),
{
    let r = reflow::reflowed(
        Seq::empty(),
        p.lines,
        p.cursor,
        s.cols(),
        rows as int,
        cols as int,
    );
    assert(s.scrollback.len() + r.scrollback.len() <= DEFAULT_SCROLLBACK);
}

} // verus!
