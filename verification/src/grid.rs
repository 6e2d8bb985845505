//! The terminal grid: a rectangular array of [`Cell`]s, a cursor, a pen, a
//! bounded scrollback, a scroll region, and an alternate screen.
//!
//! The grid is pure state. It does not own a parser and does not know about
//! escape sequences. What each operation does is stated over [`Screen`], the
//! model that the grid's view gives.

use std::collections::VecDeque;

use vstd::math;
use vstd::prelude::*;

use crate::blocks::{TermBlock, TermBlockState};
use crate::cell::{Attrs, Cell, Color, Pen};
use crate::reflow;
use crate::screen;
use crate::screen::{Line, Primary, Screen};
use crate::width;

verus! {

/// Sentinel character in the right-hand cell of a wide (CJK, emoji) glyph.
/// The renderer skips cells that hold it.
pub const WIDE_CONT: char = '\0';

/// Scrollback capacity in rows.
pub const DEFAULT_SCROLLBACK: usize = 10_000;

/// The longest side of a grid: no row that is longer can be allocated.
pub const MAX_SIDE: usize = usize::MAX / 2;

/// Cursor position within the grid (0-indexed, `(row, col)`).
#[derive(Debug, Clone, Copy, PartialEq, Eq, Structural)]
pub struct Cursor {
    pub row: usize,
    pub col: usize,
}

impl Cursor {
    /// The top left corner.
    pub open spec fn origin() -> Cursor {
        Cursor { row: 0, col: 0 }
    }
}

impl Default for Cursor {
    fn default() -> (r: Self)
        ensures
            r == Cursor::origin(),
    {
        Cursor { row: 0, col: 0 }
    }
}

/// Grid dimensions in cells.
#[derive(Debug, Clone, Copy, PartialEq, Eq, Structural)]
pub struct Size {
    pub rows: usize,
    pub cols: usize,
}

/// Cursor and pen as saved by `ESC 7` / `CSI s` and taken up again by
/// `ESC 8` / `CSI u`.
#[derive(Debug, Clone, Copy, PartialEq, Eq, Structural)]
pub struct SavedCursor {
    pub cursor: Cursor,
    pub pen: Pen,
}

impl Default for SavedCursor {
    fn default() -> (r: Self)
        ensures
            r == (SavedCursor { cursor: Cursor::origin(), pen: Pen::plain() }),
    {
        SavedCursor { cursor: Cursor::default(), pen: Pen::default() }
    }
}

/// One row, carrying both its cells and whether its content continues onto the
/// next row in the same logical line. The flag is set when printing wraps past
/// the right margin, and stays `false` for a row that ends with an explicit
/// newline.
#[derive(Debug, Clone)]
pub struct ScrollbackRow {
    pub cells: Vec<Cell>,
    pub wrapped: bool,
}

impl View for ScrollbackRow {
    type V = Line;

    open spec fn view(&self) -> Line {
        Line { cells: self.cells@, wrapped: self.wrapped }
    }
}

/// The model of a sequence of rows.
pub open spec fn lines_of(rows: Seq<ScrollbackRow>) -> Seq<Line> {
    Seq::new(rows.len(), |r: int| rows[r]@)
}

/// A row of `cols` blank cells.
pub(crate) fn blank_row(cols: usize) -> (row: ScrollbackRow)
    ensures
        row@ == screen::blank_line(cols as int),
{
    let mut cells: Vec<Cell> = Vec::with_capacity(cols);
    for c in 0..cols
        invariant
            cells@ == Seq::new(c as nat, |i: int| Cell::space()),
    {
        cells.push(Cell::blank());
    }
    ScrollbackRow { cells, wrapped: false }
}

/// `rows` rows of `cols` blank cells.
pub(crate) fn blank_rows(rows: usize, cols: usize) -> (lines: Vec<ScrollbackRow>)
    ensures
        lines_of(lines@) == screen::blank_lines(rows as int, cols as int),
{
    let mut lines: Vec<ScrollbackRow> = Vec::with_capacity(rows);
    for r in 0..rows
        invariant
            lines_of(lines@) == screen::blank_lines(r as int, cols as int),
    {
        let ghost before = lines@;
        lines.push(blank_row(cols));
        assert(lines_of(lines@) =~= lines_of(before).push(screen::blank_line(cols as int)));
    }
    lines
}

/// Moves rows `top..bot` up by one and returns the row that left.
fn rotate_up(lines: &mut Vec<ScrollbackRow>, top: usize, bot: usize, cols: usize) -> (row:
    ScrollbackRow)
    requires
        top < bot <= old(lines)@.len(),
    ensures
        lines_of(final(lines)@) == screen::shift_up(
            lines_of(old(lines)@),
            top as int,
            bot as int,
            1,
            cols as int,
        ),
        row@ == lines_of(old(lines)@)[top as int],
{
    let row = lines.remove(top);
    lines.insert(bot - 1, blank_row(cols));
    assert(lines_of(lines@) =~= screen::shift_up(
        lines_of(old(lines)@),
        top as int,
        bot as int,
        1,
        cols as int,
    ));
    row
}

/// Moves rows `top..bot` down by one; the last of them is lost.
fn rotate_down(lines: &mut Vec<ScrollbackRow>, top: usize, bot: usize, cols: usize)
    requires
        top < bot <= old(lines)@.len(),
    ensures
        lines_of(final(lines)@) == screen::shift_down(
            lines_of(old(lines)@),
            top as int,
            bot as int,
            1,
            cols as int,
        ),
{
    lines.remove(bot - 1);
    lines.insert(top, blank_row(cols));
    assert(lines_of(lines@) =~= screen::shift_down(
        lines_of(old(lines)@),
        top as int,
        bot as int,
        1,
        cols as int,
    ));
}

/// Appends a row to the scrollback, dropping the oldest one when it is full.
fn push_scrollback(scrollback: &mut VecDeque<ScrollbackRow>, row: ScrollbackRow)
    requires
        old(scrollback)@.len() <= DEFAULT_SCROLLBACK,
    ensures
        lines_of(final(scrollback)@) == screen::keep_last(
            lines_of(old(scrollback)@).push(row@),
            DEFAULT_SCROLLBACK as int,
        ),
        final(scrollback)@.len() <= DEFAULT_SCROLLBACK,
{
    if scrollback.len() == DEFAULT_SCROLLBACK {
        scrollback.pop_front();
    }
    scrollback.push_back(row);
    assert(lines_of(scrollback@) =~= screen::keep_last(
        lines_of(old(scrollback)@).push(row@),
        DEFAULT_SCROLLBACK as int,
    ));
}

/// Appends rows to the scrollback, dropping the oldest ones when it is full.
fn append_scrollback(scrollback: &mut VecDeque<ScrollbackRow>, rows: VecDeque<ScrollbackRow>)
    requires
        old(scrollback)@.len() <= DEFAULT_SCROLLBACK,
    ensures
        lines_of(final(scrollback)@) == screen::keep_last(
            lines_of(old(scrollback)@) + lines_of(rows@),
            DEFAULT_SCROLLBACK as int,
        ),
        final(scrollback)@.len() <= DEFAULT_SCROLLBACK,
{
    let ghost before = lines_of(old(scrollback)@);
    let ghost all = lines_of(rows@);
    let mut rows = rows;
    let ghost mut done: int = 0;
    assert(before + all.take(0) =~= before);
    assert(all.skip(0) =~= all);
    while rows.len() > 0
        invariant
            0 <= done <= all.len(),
            lines_of(rows@) == all.skip(done),
            lines_of(scrollback@) == screen::keep_last(
                before + all.take(done),
                DEFAULT_SCROLLBACK as int,
            ),
            scrollback@.len() <= DEFAULT_SCROLLBACK,
        decreases rows@.len(),
    {
        let ghost left = rows@;
        if let Some(row) = rows.pop_front() {
            assert(lines_of(left).len() == left.len());
            assert(all.skip(done)[0] == row@);
            assert(lines_of(rows@) =~= lines_of(left).skip(1));
            assert(all.skip(done).skip(1) =~= all.skip(done + 1));
            push_scrollback(scrollback, row);
            proof {
                screen::keep_last_push(
                    before + all.take(done),
                    row@,
                    DEFAULT_SCROLLBACK as int,
                );
                assert((before + all.take(done)).push(row@) =~= before + all.take(done + 1));
                done = done + 1;
            }
        }
    }
    assert(all.skip(done).len() == 0);
    assert(all.take(done) =~= all);
}

/// Moves the blocks that start in rows `top..bot` up by `n` rows.
fn move_blocks_up(blocks: &mut Vec<TermBlock>, top: usize, bot: usize, n: usize)
    requires
        top < bot,
    ensures
        final(blocks)@ == screen::with_rows_moved(
            old(blocks)@,
            |at: int| screen::row_up(at, top as int, bot as int, n as int),
        ),
{
    let ghost to = |at: int| screen::row_up(at, top as int, bot as int, n as int);
    let ghost all = screen::with_rows_moved(old(blocks)@, to);
    let count: usize = blocks.len();
    for i in 0..count
        invariant
            count == blocks@.len(),
            top < bot,
            to == (|at: int| screen::row_up(at, top as int, bot as int, n as int)),
            all == screen::with_rows_moved(old(blocks)@, to),
            blocks@.len() == all.len(),
            forall|k: int| 0 <= k < i ==> #[trigger] blocks@[k] == all[k],
            forall|k: int| i <= k < blocks@.len() ==> #[trigger] blocks@[k] == old(blocks)@[k],
    {
        let at: usize = blocks[i].start_row;
        if top <= at && at < bot {
            blocks[i].start_row = if at - top < n { top } else { at - n };
        }
    }
    assert(blocks@ =~= all);
}

/// Moves the blocks that start in rows `top..bot` down by `n` rows.
fn move_blocks_down(blocks: &mut Vec<TermBlock>, top: usize, bot: usize, n: usize)
    requires
        top < bot,
    ensures
        final(blocks)@ == screen::with_rows_moved(
            old(blocks)@,
            |at: int| screen::row_down(at, top as int, bot as int, n as int),
        ),
{
    let ghost to = |at: int| screen::row_down(at, top as int, bot as int, n as int);
    let ghost all = screen::with_rows_moved(old(blocks)@, to);
    let count: usize = blocks.len();
    for i in 0..count
        invariant
            count == blocks@.len(),
            top < bot,
            to == (|at: int| screen::row_down(at, top as int, bot as int, n as int)),
            all == screen::with_rows_moved(old(blocks)@, to),
            blocks@.len() == all.len(),
            forall|k: int| 0 <= k < i ==> #[trigger] blocks@[k] == all[k],
            forall|k: int| i <= k < blocks@.len() ==> #[trigger] blocks@[k] == old(blocks)@[k],
    {
        let at: usize = blocks[i].start_row;
        if top <= at && at < bot {
            blocks[i].start_row = if bot - 1 - at < n { bot - 1 } else { at + n };
        }
    }
    assert(blocks@ =~= all);
}

/// Moves blocks when `n` rows enter the scrollback, of which `dropped` rows leave
/// at the other end: the rows from `bot` on, counted before, keep their distance
/// to the bottom of the screen.
fn move_blocks_back(blocks: &mut Vec<TermBlock>, bot: usize, n: usize, dropped: usize)
    requires
        dropped <= n,
        forall|i: int|
            0 <= i < old(blocks)@.len() ==> (#[trigger] old(blocks)@[i]).start_row + (n - dropped)
                <= usize::MAX,
    ensures
        final(blocks)@ == screen::with_rows_moved(
            old(blocks)@,
            |at: int|
                if at < bot {
                    math::max(at - dropped, 0)
                } else {
                    at + n - dropped
                },
        ),
{
    let ghost to = |at: int|
        if at < bot {
            math::max(at - dropped, 0)
        } else {
            at + n - dropped
        };
    let ghost all = screen::with_rows_moved(old(blocks)@, to);
    let count: usize = blocks.len();
    for i in 0..count
        invariant
            count == blocks@.len(),
            dropped <= n,
            forall|i: int|
                0 <= i < old(blocks)@.len() ==> (#[trigger] old(blocks)@[i]).start_row + (n
                    - dropped) <= usize::MAX,
            to == (|at: int|
                if at < bot {
                    math::max(at - dropped, 0)
                } else {
                    at + n - dropped
                }),
            all == screen::with_rows_moved(old(blocks)@, to),
            blocks@.len() == all.len(),
            blocks@.len() == old(blocks)@.len(),
            forall|k: int| 0 <= k < i ==> #[trigger] blocks@[k] == all[k],
            forall|k: int| i <= k < blocks@.len() ==> #[trigger] blocks@[k] == old(blocks)@[k],
    {
        let at: usize = blocks[i].start_row;
        assert(old(blocks)@[i as int].start_row == at);
        blocks[i].start_row = if at < bot {
            at.saturating_sub(dropped)
        } else {
            at + (n - dropped)
        };
    }
    assert(blocks@ =~= all);
}

/// The blocks with their start rows counted from the top of the screen; 0 for one
/// that starts in the scrollback.
fn blocks_on_screen(blocks: &Vec<TermBlock>, sb_len: usize) -> (r: Vec<TermBlock>)
    ensures
        r@.len() == blocks@.len(),
        forall|i: int|
            0 <= i < r@.len() ==> (#[trigger] r@[i]).start_row == math::max(
                blocks@[i].start_row - sb_len,
                0,
            ),
{
    let mut r: Vec<TermBlock> = Vec::new();
    for i in 0..blocks.len()
        invariant
            r@.len() == i,
            forall|k: int|
                0 <= k < i ==> (#[trigger] r@[k]).start_row == math::max(
                    blocks@[k].start_row - sb_len,
                    0,
                ),
    {
        let start_row: usize = blocks[i].start_row.saturating_sub(sb_len);
        r.push(TermBlock { start_row, state: blocks[i].state });
    }
    r
}

/// Puts blocks that were moved on the screen back behind `sb_len` rows of
/// scrollback, of which `dropped` rows leave.
fn put_blocks_behind(
    blocks: &mut Vec<TermBlock>,
    moved: &Vec<TermBlock>,
    sb_len: usize,
    dropped: usize,
)
    requires
        moved@.len() == old(blocks)@.len(),
        forall|i: int|
            0 <= i < moved@.len() ==> (#[trigger] moved@[i]).start_row + sb_len <= usize::MAX,
    ensures
        final(blocks)@.len() == old(blocks)@.len(),
        forall|i: int|
            0 <= i < final(blocks)@.len() ==> {
                let before = old(blocks)@[i];
                let to = if before.start_row < sb_len {
                    before.start_row as int
                } else {
                    sb_len + moved@[i].start_row
                };
                &&& (#[trigger] final(blocks)@[i]).state == before.state
                &&& final(blocks)@[i].start_row == math::max(to - dropped, 0)
            },
{
    let count: usize = blocks.len();
    for i in 0..count
        invariant
            count == blocks@.len(),
            moved@.len() == old(blocks)@.len(),
            blocks@.len() == old(blocks)@.len(),
            forall|i: int|
                0 <= i < moved@.len() ==> (#[trigger] moved@[i]).start_row + sb_len <= usize::MAX,
            forall|k: int|
                0 <= k < i ==> {
                    let before = old(blocks)@[k];
                    let to = if before.start_row < sb_len {
                        before.start_row as int
                    } else {
                        sb_len + moved@[k].start_row
                    };
                    &&& (#[trigger] blocks@[k]).state == before.state
                    &&& blocks@[k].start_row == math::max(to - dropped, 0)
                },
            forall|k: int| i <= k < blocks@.len() ==> #[trigger] blocks@[k] == old(blocks)@[k],
    {
        let at: usize = blocks[i].start_row;
        let to: usize = if at < sb_len { at } else { sb_len + moved[i].start_row };
        blocks[i].start_row = to.saturating_sub(dropped);
    }
}

/// Makes cells `from..to` blank.
fn blank_range(cells: &mut Vec<Cell>, from: usize, to: usize)
    requires
        from <= to <= old(cells)@.len(),
    ensures
        final(cells)@ == screen::blank_cells(old(cells)@, from as int, to as int),
{
    for c in from..to
        invariant
            from <= to <= old(cells)@.len(),
            cells@ == screen::blank_cells(old(cells)@, from as int, c as int),
    {
        cells[c] = Cell::blank();
        assert(cells@ =~= screen::blank_cells(old(cells)@, from as int, c + 1));
    }
    assert(cells@ =~= screen::blank_cells(old(cells)@, from as int, to as int));
}

/// Erases cells `from..to` of a row.
fn erase_range(row: &mut ScrollbackRow, from: usize, to: usize)
    requires
        from <= to <= old(row)@.cells.len(),
    ensures
        final(row)@ == screen::erased(old(row)@, from as int, to as int),
{
    blank_range(&mut row.cells, from, to);
    if to >= row.cells.len() {
        row.wrapped = false;
    }
}

/// Moves the cells from `col` on right by `n`.
fn open_range(cells: &mut Vec<Cell>, col: usize, n: usize)
    requires
        col + n <= old(cells)@.len(),
    ensures
        final(cells)@ == screen::open_cells(old(cells)@, col as int, n as int),
{
    for i in 0..n
        invariant
            col + n <= old(cells)@.len(),
            cells@ == screen::open_cells(old(cells)@, col as int, i as int),
    {
        cells.pop();
        cells.insert(col, Cell::blank());
        assert(cells@ =~= screen::open_cells(old(cells)@, col as int, i + 1));
    }
    assert(cells@ =~= screen::open_cells(old(cells)@, col as int, n as int));
}

/// Takes the `n` cells at `col` out; blanks enter at the right.
fn close_range(cells: &mut Vec<Cell>, col: usize, n: usize)
    requires
        col + n <= old(cells)@.len(),
    ensures
        final(cells)@ == screen::close_cells(old(cells)@, col as int, n as int),
{
    for i in 0..n
        invariant
            col + n <= old(cells)@.len(),
            cells@ == screen::close_cells(old(cells)@, col as int, i as int),
    {
        cells.remove(col);
        cells.push(Cell::blank());
        assert(cells@ =~= screen::close_cells(old(cells)@, col as int, i + 1));
    }
    assert(cells@ =~= screen::close_cells(old(cells)@, col as int, n as int));
}

/// Everything that must be restored when leaving the alternate screen.
#[derive(Debug)]
struct PrimarySnapshot {
    lines: Vec<ScrollbackRow>,
    cursor: Cursor,
    pen: Pen,
    saved_cursor: Option<SavedCursor>,
    scroll_top: usize,
    scroll_bot: usize,
}

/// The core terminal model.
#[derive(Debug)]
pub struct Grid {
    size: Size,
    /// The visible rows, each `size.cols` cells wide.
    lines: Vec<ScrollbackRow>,
    cursor: Cursor,
    pen: Pen,
    scrollback: VecDeque<ScrollbackRow>,
    /// Top of the scroll region, inclusive.
    scroll_top: usize,
    /// Bottom of the scroll region, exclusive.
    scroll_bot: usize,
    /// Saved cursor from `ESC 7` / `CSI s`.
    saved_cursor: Option<SavedCursor>,
    /// DEC mode 25 visibility, honored by the renderer.
    cursor_visible: bool,
    /// DEC mode 2004: pasted text is wrapped in `ESC [200~` and `ESC [201~`.
    bracketed_paste: bool,
    /// The primary screen while the alternate screen is shown.
    primary: Option<PrimarySnapshot>,
    /// The bytes of the shell's working directory, as reported by OSC 7.
    cwd: Option<Vec<u8>>,
    /// Pending replies to terminal queries.
    responses: Vec<Vec<u8>>,
    /// Prompt-command-output blocks reported by OSC 133.
    blocks: Vec<TermBlock>,
}

impl View for PrimarySnapshot {
    type V = Primary;

    closed spec fn view(&self) -> Primary {
        Primary {
            lines: lines_of(self.lines@),
            cursor: self.cursor,
            pen: self.pen,
            saved_cursor: self.saved_cursor,
            scroll_top: self.scroll_top,
            scroll_bot: self.scroll_bot,
        }
    }
}

impl View for Grid {
    type V = Screen;

    closed spec fn view(&self) -> Screen {
        Screen {
            size: self.size,
            lines: lines_of(self.lines@),
            cursor: self.cursor,
            pen: self.pen,
            scrollback: lines_of(self.scrollback@),
            scroll_top: self.scroll_top,
            scroll_bot: self.scroll_bot,
            saved_cursor: self.saved_cursor,
            cursor_visible: self.cursor_visible,
            bracketed_paste: self.bracketed_paste,
            primary: match self.primary {
                Some(p) => Some(p@),
                None => None,
            },
            cwd: match self.cwd {
                Some(s) => Some(s@),
                None => None,
            },
            responses: Seq::new(self.responses@.len(), |i: int| self.responses@[i]@),
            blocks: self.blocks@,
        }
    }
}

impl Grid {
    /// A blank grid; a side of 0 counts as 1.
    pub fn new(rows: usize, cols: usize) -> (grid: Self)
        requires
            rows <= MAX_SIDE,
            cols <= MAX_SIDE,
        ensures
            grid@ == Screen::fresh(rows, cols),
            grid@.wf(),
    {
        let rows: usize = if rows < 1 { 1 } else { rows };
        let cols: usize = if cols < 1 { 1 } else { cols };
        let grid = Grid {
            size: Size { rows, cols },
            lines: blank_rows(rows, cols),
            cursor: Cursor::default(),
            pen: Pen::default(),
            scrollback: VecDeque::new(),
            scroll_top: 0,
            scroll_bot: rows,
            saved_cursor: None,
            cursor_visible: true,
            bracketed_paste: false,
            primary: None,
            cwd: None,
            responses: Vec::new(),
            blocks: Vec::new(),
        };
        assert(grid@ =~= Screen::fresh(rows, cols));
        grid
    }

    /// Moves the rows of the scroll region up, and leaves the blocks alone.
    fn scroll_rows_up(&mut self, n: usize)
        requires
            old(self)@.wf(),
            n <= old(self)@.scroll_bot - old(self)@.scroll_top,
        ensures
            final(self)@ == (Screen {
                blocks: old(self)@.blocks,
                ..old(self)@.scrolled_up(n as int)
            }),
            final(self)@.wf(),
    {
        let top: usize = self.scroll_top;
        let bot: usize = self.scroll_bot;
        let keep = top == 0 && self.primary.is_none();
        let ghost s = old(self)@;
        assert(self@ =~= (Screen { blocks: s.blocks, ..s.scrolled_up(0) }));
        for i in 0..n
            invariant
                s == old(self)@,
                s.wf(),
                top == s.scroll_top,
                bot == s.scroll_bot,
                n <= bot - top,
                keep == (top == 0 && !s.alt()),
                self@ == (Screen { blocks: s.blocks, ..s.scrolled_up(i as int) }),
                self@.wf(),
        {
            let row = rotate_up(&mut self.lines, top, bot, self.size.cols);
            if keep {
                push_scrollback(&mut self.scrollback, row);
            }
            proof {
                screen::shift_up_step(s.lines, top as int, bot as int, i as int, s.cols());
                if keep {
                    let moved = s.scrollback + s.lines.take(i as int);
                    screen::keep_last_push(moved, row@, DEFAULT_SCROLLBACK as int);
                    assert(moved.push(row@) =~= s.scrollback + s.lines.take(i + 1));
                }
            }
            assert(self@ =~= (Screen { blocks: s.blocks, ..s.scrolled_up(i + 1) }));
        }
    }

    /// Scrolls the scroll region up by `n` rows. Rows leaving the top are kept
    /// in the scrollback only when the region begins at the top of the screen
    /// and the alternate screen is not shown, as in xterm.
    pub fn scroll_up(&mut self, n: usize)
        requires
            old(self)@.wf(),
        ensures
            final(self)@ == old(self)@.scrolled_up(n as int),
            final(self)@.wf(),
    {
        let ghost s = old(self)@;
        let ghost asked = n as int;
        let top: usize = self.scroll_top;
        let bot: usize = self.scroll_bot;
        let n: usize = if n > bot - top { bot - top } else { n };
        let sb_len: usize = self.scrollback.len();
        self.scroll_rows_up(n);
        assert(self.blocks@ == s.blocks);
        if self.primary.is_none() {
            if top == 0 {
                let room: usize = DEFAULT_SCROLLBACK - sb_len;
                let dropped: usize = if n > room { n - room } else { 0 };
                assert forall|i: int| 0 <= i < self.blocks@.len() implies (
                #[trigger] self.blocks@[i]).start_row + (n - dropped) <= usize::MAX by {
                    assert(s.blocks[i].start_row < s.scrollback.len() + s.rows());
                }
                move_blocks_back(&mut self.blocks, sb_len + bot, n, dropped);
            } else {
                move_blocks_up(&mut self.blocks, sb_len + top, sb_len + bot, n);
            }
        }
        proof {
            screen::scrolling_keeps_wf(s, asked);
        }
        assert(self.blocks@ =~= s.scrolled_up(asked).blocks);
        assert(self@ =~= s.scrolled_up(asked));
    }

    /// Scrolls the scroll region down by `n` rows. Rows leaving the bottom are
    /// lost.
    pub fn scroll_down(&mut self, n: usize)
        requires
            old(self)@.wf(),
        ensures
            final(self)@ == old(self)@.scrolled_down(n as int),
            final(self)@.wf(),
    {
        let top: usize = self.scroll_top;
        let bot: usize = self.scroll_bot;
        let n: usize = if n > bot - top { bot - top } else { n };
        let ghost s = old(self)@;
        assert(self@ =~= (Screen { blocks: s.blocks, ..s.scrolled_down(0) }));
        for i in 0..n
            invariant
                s == old(self)@,
                s.wf(),
                top == s.scroll_top,
                bot == s.scroll_bot,
                n <= bot - top,
                self@ == (Screen { blocks: s.blocks, ..s.scrolled_down(i as int) }),
                self@.wf(),
        {
            rotate_down(&mut self.lines, top, bot, self.size.cols);
            proof {
                screen::shift_down_step(s.lines, top as int, bot as int, i as int, s.cols());
            }
            assert(self@ =~= (Screen { blocks: s.blocks, ..s.scrolled_down(i + 1) }));
        }
        if self.primary.is_none() {
            let sb_len: usize = self.scrollback.len();
            move_blocks_down(&mut self.blocks, sb_len + top, sb_len + bot, n);
        }
        proof {
            screen::scrolling_keeps_wf(s, n as int);
        }
        assert(self.blocks@ =~= s.scrolled_down(n as int).blocks);
        assert(self@ =~= s.scrolled_down(n as int));
    }

    /// The dimensions.
    pub fn size(&self) -> (r: Size)
        ensures
            r == self@.size,
    {
        self.size
    }

    /// The number of rows.
    pub fn rows(&self) -> (r: usize)
        ensures
            r == self@.size.rows,
    {
        self.size.rows
    }

    /// The number of columns.
    pub fn cols(&self) -> (r: usize)
        ensures
            r == self@.size.cols,
    {
        self.size.cols
    }

    /// The cursor.
    pub fn cursor(&self) -> (r: Cursor)
        ensures
            r == self@.cursor,
    {
        self.cursor
    }

    /// The pen.
    pub fn pen(&self) -> (r: Pen)
        ensures
            r == self@.pen,
    {
        self.pen
    }

    /// The number of rows in the scrollback.
    pub fn scrollback_len(&self) -> (r: usize)
        ensures
            r == self@.scrollback.len(),
    {
        self.scrollback.len()
    }

    /// The scroll region, half-open.
    pub fn scroll_region(&self) -> (r: (usize, usize))
        ensures
            r == (self@.scroll_top, self@.scroll_bot),
    {
        (self.scroll_top, self.scroll_bot)
    }

    /// Whether the cursor is to be drawn (DEC mode 25).
    pub fn cursor_visible(&self) -> (r: bool)
        ensures
            r == self@.cursor_visible,
    {
        self.cursor_visible
    }

    /// Whether pasted text is to be bracketed (DEC mode 2004).
    pub fn bracketed_paste(&self) -> (r: bool)
        ensures
            r == self@.bracketed_paste,
    {
        self.bracketed_paste
    }

    /// Whether the alternate screen is shown.
    pub fn is_alt_screen(&self) -> (r: bool)
        ensures
            r == self@.alt(),
    {
        self.primary.is_some()
    }

    /// The bytes of the shell's working directory as reported by OSC 7, where it
    /// was.
    pub fn cwd(&self) -> (r: Option<&[u8]>)
        ensures
            match r {
                Some(s) => self@.cwd == Some(s@),
                None => self@.cwd is None,
            },
    {
        match &self.cwd {
            Some(s) => Some(s.as_slice()),
            None => None,
        }
    }

    /// The blocks reported by OSC 133, oldest first.
    pub fn blocks(&self) -> (r: &[TermBlock])
        ensures
            r@ == self@.blocks,
    {
        self.blocks.as_slice()
    }

    /// The cell at a row and column of the visible grid.
    pub fn cell(&self, row: usize, col: usize) -> (r: &Cell)
        requires
            self@.wf(),
            row < self@.size.rows,
            col < self@.size.cols,
        ensures
            *r == self@.cell(row as int, col as int),
    {
        assert(self@.lines[row as int].cells.len() == self@.size.cols);
        &self.lines[row].cells[col]
    }

    /// The visible rows, top to bottom.
    pub fn rows_iter(&self) -> (r: Vec<&[Cell]>)
        requires
            self@.wf(),
        ensures
            r@.len() == self@.size.rows,
            forall|i: int| 0 <= i < r@.len() ==> (#[trigger] r@[i])@ == self@.lines[i].cells,
    {
        let mut out: Vec<&[Cell]> = Vec::new();
        for i in 0..self.lines.len()
            invariant
                out@.len() == i,
                forall|k: int| 0 <= k < i ==> (#[trigger] out@[k])@ == self@.lines[k].cells,
        {
            out.push(self.lines[i].cells.as_slice());
        }
        out
    }

    /// The row at `view_idx` of a view that is scrolled back by `scroll_offset`
    /// rows; `None` below the view.
    pub fn row_at(&self, view_idx: usize, scroll_offset: usize) -> (r: Option<&[Cell]>)
        requires
            self@.wf(),
        ensures
            match r {
                Some(cells) => view_idx < self@.size.rows && cells@ == self@.view_row(
                    view_idx as int,
                    scroll_offset as int,
                ).cells,
                None => view_idx >= self@.size.rows,
            },
    {
        if view_idx >= self.size.rows {
            return None;
        }
        let sb_len: usize = self.scrollback.len();
        let offset: usize = if scroll_offset < sb_len { scroll_offset } else { sb_len };
        let abs: usize = (sb_len - offset) + view_idx;
        if abs < sb_len {
            Some(self.scrollback[abs].cells.as_slice())
        } else {
            Some(self.lines[abs - sb_len].cells.as_slice())
        }
    }

    /// Records the shell's working directory.
    pub fn set_cwd(&mut self, path: Vec<u8>)
        ensures
            final(self)@ == old(self)@.with_cwd(path@),
    {
        self.cwd = Some(path);
        assert(self@ =~= old(self)@.with_cwd(path@));
    }

    /// Queues a reply to a terminal query, to be sent back to the program.
    pub fn queue_response(&mut self, bytes: Vec<u8>)
        ensures
            final(self)@ == old(self)@.with_response(bytes@),
    {
        self.responses.push(bytes);
        assert(self@ =~= old(self)@.with_response(bytes@));
    }

    /// Takes all pending replies, oldest first.
    pub fn drain_responses(&mut self) -> (r: Vec<Vec<u8>>)
        ensures
            r@.len() == old(self)@.responses.len(),
            forall|i: int| 0 <= i < r@.len() ==> (#[trigger] r@[i])@ == old(self)@.responses[i],
            final(self)@ == (Screen { responses: Seq::empty(), ..old(self)@ }),
    {
        let mut taken: Vec<Vec<u8>> = Vec::new();
        core::mem::swap(&mut taken, &mut self.responses);
        assert(self@ =~= (Screen { responses: Seq::empty(), ..old(self)@ }));
        taken
    }

    /// Blanks the visible cells and homes the cursor. The scrollback stays.
    pub fn clear_visible(&mut self)
        requires
            old(self)@.wf(),
        ensures
            final(self)@ == old(self)@.cleared(),
            final(self)@.wf(),
    {
        self.blank_row_range(0, self.size.rows);
        self.cursor = Cursor::default();
        assert(self@ =~= old(self)@.cleared());
    }

    /// Cuts or pads the alternate screen, and reflows the primary screen `snap`
    /// behind it.
    fn resize_alt(&mut self, snap: PrimarySnapshot, rows: usize, cols: usize, Ghost(s): Ghost<Screen>)
        requires
            s.wf(),
            s.primary == Some(snap@),
            old(self)@ == (Screen { primary: None, ..s }),
            1 <= rows <= MAX_SIDE,
            1 <= cols <= MAX_SIDE,
            !(rows == s.size.rows && cols == s.size.cols),
        ensures
            final(self)@ == s.resized(rows, cols),
            final(self)@.wf(),
    {
        let old_cols: usize = self.size.cols;
        let sb_len: usize = self.scrollback.len();
        self.lines = resize_buffer(&self.lines, rows, cols);
        assert forall|i: int| 0 <= i < snap.lines@.len() implies (
        #[trigger] snap.lines@[i]).cells@.len() > 0 by {
            assert(lines_of(snap.lines@)[i].cells.len() == s.cols());
        }
        let nothing: VecDeque<ScrollbackRow> = VecDeque::new();
        assert(lines_of(nothing@) =~= Seq::<Line>::empty());
        let own = blocks_on_screen(&self.blocks, sb_len);
        assert(lines_of(snap.lines@).len() == s.rows());
        assert forall|i: int| 0 <= i < own@.len() implies (#[trigger] own@[i]).start_row
            < snap.lines@.len() by {
            assert(s.blocks[i].start_row < s.scrollback.len() + s.rows());
        }
        let r = reflow::reflow(&snap.lines, &nothing, old_cols, rows, cols, snap.cursor, &own);
        let entered: usize = r.scrollback.len();
        let room: usize = DEFAULT_SCROLLBACK - sb_len;
        let dropped: usize = if entered > room { entered - room } else { 0 };
        let ghost model = reflow::reflowed(
            Seq::empty(),
            snap@.lines,
            snap@.cursor,
            s.cols(),
            rows as int,
            cols as int,
        );
        assert(lines_of(r.scrollback@) == model.scrollback);
        assert(lines_of(r.scrollback@).len() == entered);
        put_blocks_behind(&mut self.blocks, &r.blocks, sb_len, dropped);
        append_scrollback(&mut self.scrollback, r.scrollback);
        self.primary = Some(
            PrimarySnapshot {
                lines: r.lines,
                cursor: r.cursor,
                pen: snap.pen,
                saved_cursor: snap.saved_cursor,
                scroll_top: 0,
                scroll_bot: rows,
            },
        );
        self.cursor.row = at_most(self.cursor.row, rows - 1);
        self.cursor.col = at_most(self.cursor.col, cols - 1);
        self.size = Size { rows, cols };
        self.scroll_top = 0;
        self.scroll_bot = rows;
        proof {
            let to = |at: int| s.row_behind(snap@, rows as int, cols as int, at);
            assert forall|i: int| 0 <= i < s.blocks.len() implies #[trigger] self.blocks@[i]
                == screen::with_rows_moved(s.blocks, to)[i] by {
                assert(own@[i].start_row == math::max(s.blocks[i].start_row - sb_len, 0));
                assert(r.blocks@[i].start_row < entered + rows);
                assert(r.blocks@[i].start_row == reflow::moved_row(
                    Seq::empty(),
                    snap@.lines,
                    snap@.cursor,
                    rows as int,
                    cols as int,
                    own@[i].start_row as int,
                ));
            }
            assert(self.blocks@ =~= screen::with_rows_moved(s.blocks, to));
            assert forall|i: int| 0 <= i < self.blocks@.len() implies (
            #[trigger] self.blocks@[i]).start_row < self@.scrollback.len() + rows by {
                assert(r.blocks@[i].start_row < entered + rows);
                assert(s.blocks[i].start_row < s.scrollback.len() + s.rows());
            }
        }
        assert(self@ =~= s.resized(rows, cols));
    }

    /// Reflows the primary screen together with the scrollback.
    fn resize_primary(&mut self, rows: usize, cols: usize)
        requires
            old(self)@.wf(),
            !old(self)@.alt(),
            1 <= rows <= MAX_SIDE,
            1 <= cols <= MAX_SIDE,
            !(rows == old(self)@.size.rows && cols == old(self)@.size.cols),
        ensures
            final(self)@ == old(self)@.resized(rows, cols),
            final(self)@.wf(),
    {
        let ghost s = old(self)@;
        assert forall|i: int| 0 <= i < self.lines@.len() implies (
        #[trigger] self.lines@[i]).cells@.len() > 0 by {
            assert(lines_of(self.lines@)[i].cells.len() == s.cols());
        }
        assert(lines_of(self.scrollback@).len() == self.scrollback@.len());
        assert(lines_of(self.lines@).len() == self.lines@.len());
        let r = reflow::reflow(
            &self.lines,
            &self.scrollback,
            self.size.cols,
            rows,
            cols,
            self.cursor,
            &self.blocks,
        );
        self.lines = r.lines;
        self.scrollback = r.scrollback;
        self.cursor = r.cursor;
        self.blocks = r.blocks;
        self.size = Size { rows, cols };
        self.scroll_top = 0;
        self.scroll_bot = rows;
        assert(lines_of(self.scrollback@).len() == self.scrollback@.len());
        assert(self.blocks@ =~= s.resized(rows, cols).blocks);
        assert(self@ =~= s.resized(rows, cols));
    }

    /// Resizes the visible grid, preserving content by reflow.
    ///
    /// Content that does not fit the new rows moves into the scrollback;
    /// content of the scrollback comes back when the grid grows. The alternate
    /// screen is not reflowed, since programs redraw it: it is cut or padded. The
    /// primary screen behind it is reflowed, so that it is intact when the
    /// alternate screen is left. The scroll regions become the full screen.
    pub fn resize(&mut self, rows: usize, cols: usize)
        requires
            old(self)@.wf(),
            rows <= MAX_SIDE,
            cols <= MAX_SIDE,
        ensures
            final(self)@ == old(self)@.resized(rows, cols),
            final(self)@.wf(),
    {
        let ghost s = old(self)@;
        let rows: usize = at_least(rows, 1);
        let cols: usize = at_least(cols, 1);
        if rows == self.size.rows && cols == self.size.cols {
            return;
        }
        match self.primary.take() {
            Some(snap) => self.resize_alt(snap, rows, cols, Ghost(s)),
            None => self.resize_primary(rows, cols),
        }
    }

    /// Blanks rows `from..to`.
    fn blank_row_range(&mut self, from: usize, to: usize)
        requires
            old(self)@.wf(),
            from <= to <= old(self)@.rows(),
        ensures
            final(self)@ == old(self)@.blanked_rows(from as int, to as int),
            final(self)@.wf(),
    {
        assert(self@ =~= old(self)@.blanked_rows(from as int, from as int));
        for r in from..to
            invariant
                from <= to <= old(self)@.rows(),
                old(self)@.wf(),
                self@ == old(self)@.blanked_rows(from as int, r as int),
                self@.wf(),
        {
            let cols: usize = self.size.cols;
            let ghost before = self@;
            assert(before.lines[r as int] == old(self)@.lines[r as int]);
            assert(before.lines[r as int].cells.len() == cols);
            erase_range(&mut self.lines[r], 0, cols);
            proof {
                assert(self@.lines[r as int] =~= screen::blank_line(cols as int));
                assert(self@.lines =~= before.lines.update(r as int, self@.lines[r as int]));
                assert(self@.lines =~= old(self)@.blanked_rows(from as int, r + 1).lines);
                assert(self@ =~= old(self)@.blanked_rows(from as int, r + 1));
            }
        }
    }

    /// Replaces a cell. A row whose last cell is overwritten no longer runs on.
    fn set_cell(&mut self, row: usize, col: usize, cell: Cell)
        requires
            old(self)@.wf(),
            row < old(self)@.rows(),
            col < old(self)@.cols(),
        ensures
            final(self)@ == old(self)@.with_cell(row as int, col as int, cell),
            final(self)@.wf(),
    {
        assert(self@.lines[row as int].cells.len() == self@.cols());
        self.lines[row].cells[col] = cell;
        if col + 1 >= self.size.cols {
            self.lines[row].wrapped = false;
        }
        assert(self@ =~= old(self)@.with_cell(row as int, col as int, cell));
    }

    /// Puts `ch` under the cursor, where it fits, and moves the cursor behind it.
    fn stamp(&mut self, ch: char, width: usize)
        requires
            old(self)@.wf(),
            1 <= width <= 3,
            old(self)@.cursor.col < old(self)@.cols(),
            width == 2 ==> old(self)@.cursor.col + 1 < old(self)@.cols() || old(self)@.cursor.row
                + 1 < old(self)@.rows(),
        ensures
            final(self)@ == old(self)@.stamped(ch, width as int),
            final(self)@.wf(),
    {
        let row: usize = self.cursor.row;
        let col: usize = self.cursor.col;
        let glyph = self.pen.stamp(ch);
        let behind = self.pen.stamp(WIDE_CONT);
        self.set_cell(row, col, glyph);
        if width == 2 {
            if col + 1 < self.size.cols {
                self.set_cell(row, col + 1, behind);
            } else {
                self.set_cell(row + 1, 0, behind);
            }
        }
        if col + width >= self.size.cols {
            self.lines[row].wrapped = false;
        }
        self.cursor.col = col + width;
        assert(self@ =~= old(self)@.stamped(ch, width as int));
    }

    /// The row that the cursor comes to when the text wraps from `row`.
    fn row_below(&self, row: usize) -> (r: usize)
        requires
            self@.wf(),
            row < self@.rows(),
        ensures
            r == self@.at_row(row as int).advanced_row().cursor.row,
            r < self@.rows(),
    {
        if row + 1 != self.scroll_bot && row + 1 < self.size.rows {
            row + 1
        } else {
            row
        }
    }

    /// Whether a glyph of `width` cells has a place at the cursor. On a grid of
    /// one column a wide glyph needs a row below the one it wraps to.
    pub fn takes(&self, width: usize) -> (r: bool)
        requires
            self@.wf(),
        ensures
            r == self@.takes(width as int),
    {
        if width != 2 || self.size.cols != 1 {
            return true;
        }
        let below: usize = self.row_below(self.cursor.row);
        let landing: usize = if self.cursor.col >= 1 {
            self.row_below(below)
        } else {
            below
        };
        landing + 1 < self.size.rows
    }

    /// Prints `ch`, which takes `width` cells, at the cursor and advances.
    /// Wraps to the next row, scrolling at the bottom of the scroll region. The
    /// right-hand cell of a wide glyph is a sentinel that the renderer skips; on
    /// a grid of one column it stands in the next row.
    pub fn put_char_of_width(&mut self, ch: char, width: usize)
        requires
            old(self)@.wf(),
            width <= 3,
            old(self)@.takes(width as int),
        ensures
            final(self)@ == old(self)@.printed(ch, width as int),
            final(self)@.wf(),
    {
        if width == 0 {
            return;
        }
        if self.cursor.col >= self.size.cols {
            self.wrap();
        }
        if width == 2 && self.cursor.col + 1 >= self.size.cols {
            self.wrap();
        }
        self.stamp(ch, width);
    }

    /// Prints `ch` at the cursor and advances, as its display width asks.
    pub fn put_char(&mut self, ch: char)
        requires
            old(self)@.wf(),
            old(self)@.takes(width::cells_taken(ch)),
        ensures
            final(self)@ == old(self)@.printed(ch, width::cells_taken(ch)),
            final(self)@.wf(),
    {
        let taken: usize = width::cell_width(ch);
        self.put_char_of_width(ch, taken);
    }

    /// Prints `ch` where it has a place. A wide character at the bottom of a grid
    /// of one column has none: it is left out.
    pub fn try_put_char(&mut self, ch: char) -> (done: bool)
        requires
            old(self)@.wf(),
        ensures
            done == old(self)@.takes(width::cells_taken(ch)),
            final(self)@ == old(self)@.typed(ch),
            final(self)@.wf(),
    {
        if !self.takes(width::cell_width(ch)) {
            return false;
        }
        self.put_char(ch);
        true
    }

    /// Marks the cursor's row as running on, and moves to the next row's start.
    fn wrap(&mut self)
        requires
            old(self)@.wf(),
        ensures
            final(self)@ == old(self)@.wrapped(),
            final(self)@.wf(),
    {
        let row: usize = self.cursor.row;
        self.lines[row].wrapped = true;
        self.cursor.col = 0;
        let ghost s = old(self)@;
        assert(self@ =~= (Screen {
            lines: s.lines.update(row as int, Line { wrapped: true, ..s.lines[row as int] }),
            ..s
        }.at_col(0)));
        self.advance_row();
    }

    fn advance_row(&mut self)
        requires
            old(self)@.wf(),
        ensures
            final(self)@ == old(self)@.advanced_row(),
            final(self)@.wf(),
    {
        if self.cursor.row + 1 == self.scroll_bot {
            self.scroll_up(1);
        } else if self.cursor.row + 1 < self.size.rows {
            self.cursor.row = self.cursor.row + 1;
            assert(self@ =~= old(self)@.at_row(old(self)@.cursor.row + 1));
        }
    }

    /// Line feed: moves the cursor down a row, scrolling at the bottom of the
    /// scroll region.
    pub fn line_feed(&mut self)
        requires
            old(self)@.wf(),
        ensures
            final(self)@ == old(self)@.advanced_row(),
            final(self)@.wf(),
    {
        self.advance_row();
    }

    /// Reverse line feed: moves the cursor up a row, scrolling the region down
    /// at its top.
    pub fn reverse_line_feed(&mut self)
        requires
            old(self)@.wf(),
        ensures
            final(self)@ == old(self)@.reversed_row(),
            final(self)@.wf(),
    {
        if self.cursor.row == self.scroll_top {
            self.scroll_down(1);
        } else {
            if self.cursor.row > 0 {
                self.cursor.row = self.cursor.row - 1;
            }
            assert(self@ =~= old(self)@.reversed_row());
        }
    }

    /// Carriage return.
    pub fn carriage_return(&mut self)
        requires
            old(self)@.wf(),
        ensures
            final(self)@ == old(self)@.at_col(0),
            final(self)@.wf(),
    {
        self.cursor.col = 0;
        assert(self@ =~= old(self)@.at_col(0));
    }

    /// Backspace: one column to the left.
    pub fn backspace(&mut self)
        requires
            old(self)@.wf(),
        ensures
            final(self)@ == old(self)@.backspaced(),
            final(self)@.wf(),
    {
        if self.cursor.col > 0 {
            self.cursor.col = self.cursor.col - 1;
        }
        assert(self@ =~= old(self)@.backspaced());
    }

    /// Tab: to the next multiple of 8.
    pub fn tab(&mut self)
        requires
            old(self)@.wf(),
        ensures
            final(self)@ == old(self)@.tabbed(),
            final(self)@.wf(),
    {
        let next: usize = ((self.cursor.col / 8) + 1) * 8;
        self.cursor.col = at_most(next, self.size.cols - 1);
        assert(self@ =~= old(self)@.tabbed());
    }

    /// Moves the cursor to `(row, col)` (0-indexed), clamped to the grid.
    pub fn move_cursor(&mut self, row: usize, col: usize)
        requires
            old(self)@.wf(),
        ensures
            final(self)@ == old(self)@.cursor_at(row as int, col as int),
            final(self)@.wf(),
    {
        self.cursor.row = at_most(row, self.size.rows - 1);
        self.cursor.col = at_most(col, self.size.cols - 1);
        assert(self@ =~= old(self)@.cursor_at(row as int, col as int));
    }

    /// Cursor up; clamped to the top of the scroll region when it starts inside.
    pub fn cursor_up(&mut self, n: usize)
        requires
            old(self)@.wf(),
        ensures
            final(self)@ == old(self)@.moved_up(n as int),
            final(self)@.wf(),
    {
        let n: usize = at_least(n, 1);
        let floor: usize = if self.cursor.row >= self.scroll_top { self.scroll_top } else { 0 };
        self.cursor.row = at_least(self.cursor.row.saturating_sub(n), floor);
        assert(self@ =~= old(self)@.moved_up(n as int));
    }

    /// Cursor down; clamped to the bottom of the scroll region when it starts above it.
    pub fn cursor_down(&mut self, n: usize)
        requires
            old(self)@.wf(),
        ensures
            final(self)@ == old(self)@.moved_down(n as int),
            final(self)@.wf(),
    {
        let n: usize = at_least(n, 1);
        let ceiling: usize = if self.cursor.row < self.scroll_bot {
            self.scroll_bot - 1
        } else {
            self.size.rows - 1
        };
        self.cursor.row = at_most(self.cursor.row.saturating_add(n), ceiling);
        assert(self@ =~= old(self)@.moved_down(n as int));
    }

    /// Cursor forward.
    pub fn cursor_forward(&mut self, n: usize)
        requires
            old(self)@.wf(),
        ensures
            final(self)@ == old(self)@.moved_forward(n as int),
            final(self)@.wf(),
    {
        let n: usize = at_least(n, 1);
        self.cursor.col = at_most(self.cursor.col.saturating_add(n), self.size.cols - 1);
        assert(self@ =~= old(self)@.moved_forward(n as int));
    }

    /// Cursor back.
    pub fn cursor_back(&mut self, n: usize)
        requires
            old(self)@.wf(),
        ensures
            final(self)@ == old(self)@.moved_back(n as int),
            final(self)@.wf(),
    {
        let n: usize = at_least(n, 1);
        self.cursor.col = self.cursor.col.saturating_sub(n);
        assert(self@ =~= old(self)@.moved_back(n as int));
    }

    /// Cursor horizontal absolute (CHA, 0-indexed).
    pub fn cursor_horizontal_absolute(&mut self, col: usize)
        requires
            old(self)@.wf(),
        ensures
            final(self)@ == old(self)@.to_col(col as int),
            final(self)@.wf(),
    {
        self.cursor.col = at_most(col, self.size.cols - 1);
        assert(self@ =~= old(self)@.to_col(col as int));
    }

    /// Vertical position absolute (VPA, 0-indexed).
    pub fn cursor_vertical_absolute(&mut self, row: usize)
        requires
            old(self)@.wf(),
        ensures
            final(self)@ == old(self)@.to_row(row as int),
            final(self)@.wf(),
    {
        self.cursor.row = at_most(row, self.size.rows - 1);
        assert(self@ =~= old(self)@.to_row(row as int));
    }

    fn cursor_in_region(&self) -> (r: bool)
        ensures
            r == self@.cursor_in_region(),
    {
        self.cursor.row >= self.scroll_top && self.cursor.row < self.scroll_bot
    }

    /// The cursor's column, clamped into the row.
    fn clamped_col(&self) -> (r: usize)
        requires
            self@.wf(),
        ensures
            r == self@.clamped_col(),
    {
        at_most(self.cursor.col, self.size.cols - 1)
    }

    /// Breaks the wrap above the cursor's row and returns to the first column.
    fn break_above(&mut self)
        requires
            old(self)@.wf(),
        ensures
            final(self)@ == old(self)@.broken_above(),
            final(self)@.wf(),
    {
        let row: usize = self.cursor.row;
        if row > 0 {
            self.lines[row - 1].wrapped = false;
        }
        self.cursor.col = 0;
        assert(self@ =~= old(self)@.broken_above());
    }

    /// Inserts `n` blank lines at the cursor, pushing the lines below down
    /// within the scroll region. Rows pushed past its bottom are lost.
    pub fn insert_lines(&mut self, n: usize)
        requires
            old(self)@.wf(),
        ensures
            final(self)@ == old(self)@.inserted_lines(n as int),
            final(self)@.wf(),
    {
        if !self.cursor_in_region() {
            return;
        }
        let top: usize = self.cursor.row;
        let bot: usize = self.scroll_bot;
        let n: usize = at_most(at_least(n, 1), bot - top);
        let ghost s = old(self)@;
        assert(screen::shift_down(s.lines, top as int, bot as int, 0, s.cols()) =~= s.lines);
        for i in 0..n
            invariant
                s == old(self)@,
                s.wf(),
                top == s.cursor.row,
                bot == s.scroll_bot,
                n <= bot - top,
                self@ == (Screen {
                    lines: screen::shift_down(s.lines, top as int, bot as int, i as int, s.cols()),
                    ..s
                }),
                self@.wf(),
        {
            rotate_down(&mut self.lines, top, bot, self.size.cols);
            proof {
                screen::shift_down_step(s.lines, top as int, bot as int, i as int, s.cols());
            }
            assert(self@ =~= (Screen {
                lines: screen::shift_down(s.lines, top as int, bot as int, i + 1, s.cols()),
                ..s
            }));
        }
        if self.primary.is_none() {
            let sb_len: usize = self.scrollback.len();
            move_blocks_down(&mut self.blocks, sb_len + top, sb_len + bot, n);
        }
        assert(self.blocks@ =~= s.blocks_down(top as int, bot as int, n as int));
        self.break_above();
    }

    /// Deletes `n` lines at the cursor, pulling the lines below up within the
    /// scroll region. The rows exposed at its bottom are blank.
    pub fn delete_lines(&mut self, n: usize)
        requires
            old(self)@.wf(),
        ensures
            final(self)@ == old(self)@.deleted_lines(n as int),
            final(self)@.wf(),
    {
        if !self.cursor_in_region() {
            return;
        }
        let top: usize = self.cursor.row;
        let bot: usize = self.scroll_bot;
        let n: usize = at_most(at_least(n, 1), bot - top);
        let ghost s = old(self)@;
        assert(screen::shift_up(s.lines, top as int, bot as int, 0, s.cols()) =~= s.lines);
        for i in 0..n
            invariant
                s == old(self)@,
                s.wf(),
                top == s.cursor.row,
                bot == s.scroll_bot,
                n <= bot - top,
                self@ == (Screen {
                    lines: screen::shift_up(s.lines, top as int, bot as int, i as int, s.cols()),
                    ..s
                }),
                self@.wf(),
        {
            rotate_up(&mut self.lines, top, bot, self.size.cols);
            proof {
                screen::shift_up_step(s.lines, top as int, bot as int, i as int, s.cols());
            }
            assert(self@ =~= (Screen {
                lines: screen::shift_up(s.lines, top as int, bot as int, i + 1, s.cols()),
                ..s
            }));
        }
        if self.primary.is_none() {
            let sb_len: usize = self.scrollback.len();
            move_blocks_up(&mut self.blocks, sb_len + top, sb_len + bot, n);
        }
        assert(self.blocks@ =~= s.blocks_up(top as int, bot as int, n as int));
        self.break_above();
    }

    /// Inserts `n` blank characters at the cursor, pushing the rest of the line
    /// right. Characters pushed past the right edge are lost.
    pub fn insert_chars(&mut self, n: usize)
        requires
            old(self)@.wf(),
        ensures
            final(self)@ == old(self)@.inserted_chars(n as int),
            final(self)@.wf(),
    {
        let row: usize = self.cursor.row;
        let col: usize = self.clamped_col();
        let n: usize = at_most(at_least(n, 1), self.size.cols - col);
        assert(self@.lines[row as int].cells.len() == self@.cols());
        open_range(&mut self.lines[row].cells, col, n);
        assert(self@ =~= old(self)@.inserted_chars(n as int));
    }

    /// Deletes `n` characters at the cursor, pulling the rest of the line left.
    pub fn delete_chars(&mut self, n: usize)
        requires
            old(self)@.wf(),
        ensures
            final(self)@ == old(self)@.deleted_chars(n as int),
            final(self)@.wf(),
    {
        let row: usize = self.cursor.row;
        let col: usize = self.clamped_col();
        let n: usize = at_most(at_least(n, 1), self.size.cols - col);
        assert(self@.lines[row as int].cells.len() == self@.cols());
        close_range(&mut self.lines[row].cells, col, n);
        assert(self@ =~= old(self)@.deleted_chars(n as int));
    }

    /// Erases `n` characters at the cursor in place. A row whose last cell is
    /// erased no longer runs on in the next.
    pub fn erase_chars(&mut self, n: usize)
        requires
            old(self)@.wf(),
        ensures
            final(self)@ == old(self)@.erased_chars(n as int),
            final(self)@.wf(),
    {
        let row: usize = self.cursor.row;
        let col: usize = self.clamped_col();
        let n: usize = at_most(at_least(n, 1), self.size.cols - col);
        assert(self@.lines[row as int].cells.len() == self@.cols());
        erase_range(&mut self.lines[row], col, col + n);
        assert(self@ =~= old(self)@.erased_chars(n as int));
    }

    /// Erase in line (`CSI K`).
    pub fn erase_in_line(&mut self, mode: u16)
        requires
            old(self)@.wf(),
        ensures
            final(self)@ == old(self)@.erased_line(mode),
            final(self)@.wf(),
    {
        let row: usize = self.cursor.row;
        let cols: usize = self.size.cols;
        let col: usize = self.clamped_col();
        assert(self@.lines[row as int].cells.len() == self@.cols());
        if mode == 0 {
            erase_range(&mut self.lines[row], col, cols);
        } else if mode == 1 {
            erase_range(&mut self.lines[row], 0, col + 1);
        } else if mode == 2 {
            erase_range(&mut self.lines[row], 0, cols);
        }
        assert(self@ =~= old(self)@.erased_line(mode));
    }

    /// Erase in display (`CSI J`).
    pub fn erase_in_display(&mut self, mode: u16)
        requires
            old(self)@.wf(),
        ensures
            final(self)@ == old(self)@.erased_display(mode),
            final(self)@.wf(),
    {
        let row: usize = self.cursor.row;
        let rows: usize = self.size.rows;
        if mode == 0 {
            self.erase_in_line(0);
            self.blank_row_range(row + 1, rows);
        } else if mode == 1 {
            self.erase_in_line(1);
            self.blank_row_range(0, row);
        } else if mode == 2 || mode == 3 {
            self.blank_row_range(0, rows);
        }
    }

    /// Sets the scroll region to `[top, bot)` and homes the cursor (DECSTBM). A
    /// range of less than two rows resets it to the full screen.
    pub fn set_scroll_region(&mut self, top: usize, bot: usize)
        requires
            old(self)@.wf(),
        ensures
            final(self)@ == old(self)@.with_scroll_region(top as int, bot as int),
            final(self)@.wf(),
    {
        let ghost asked = bot;
        let bot: usize = at_most(bot, self.size.rows);
        if top >= bot || bot - top < 2 {
            self.scroll_top = 0;
            self.scroll_bot = self.size.rows;
        } else {
            self.scroll_top = top;
            self.scroll_bot = bot;
        }
        self.cursor = Cursor::default();
        assert(self@ =~= old(self)@.with_scroll_region(top as int, asked as int));
    }

    /// Resets the scroll region to the full visible grid.
    pub fn reset_scroll_region(&mut self)
        requires
            old(self)@.wf(),
        ensures
            final(self)@ == old(self)@.with_full_region(),
            final(self)@.wf(),
    {
        self.scroll_top = 0;
        self.scroll_bot = self.size.rows;
        assert(self@ =~= old(self)@.with_full_region());
    }

    /// Saves cursor and pen.
    pub fn save_cursor(&mut self)
        requires
            old(self)@.wf(),
        ensures
            final(self)@ == old(self)@.saved(),
            final(self)@.wf(),
    {
        self.saved_cursor = Some(SavedCursor { cursor: self.cursor, pen: self.pen });
        assert(self@ =~= old(self)@.saved());
    }

    /// Takes up the saved cursor and pen again, where there are any.
    pub fn restore_cursor(&mut self)
        requires
            old(self)@.wf(),
        ensures
            final(self)@ == old(self)@.restored(),
            final(self)@.wf(),
    {
        if let Some(sc) = self.saved_cursor {
            self.cursor.row = at_most(sc.cursor.row, self.size.rows - 1);
            self.cursor.col = at_most(sc.cursor.col, self.size.cols - 1);
            self.pen = sc.pen;
        }
        assert(self@ =~= old(self)@.restored());
    }

    /// Sets the primary screen aside, with cursor, pen, saved cursor and scroll
    /// region, and shows a blank alternate screen. Idempotent.
    pub fn enter_alt_screen(&mut self)
        requires
            old(self)@.wf(),
        ensures
            final(self)@ == old(self)@.entered_alt(),
            final(self)@.wf(),
    {
        if self.primary.is_some() {
            return;
        }
        let mut lines = blank_rows(self.size.rows, self.size.cols);
        core::mem::swap(&mut lines, &mut self.lines);
        self.primary = Some(
            PrimarySnapshot {
                lines,
                cursor: self.cursor,
                pen: self.pen,
                saved_cursor: self.saved_cursor,
                scroll_top: self.scroll_top,
                scroll_bot: self.scroll_bot,
            },
        );
        self.saved_cursor = None;
        self.cursor = Cursor::default();
        self.pen = Pen::default();
        self.scroll_top = 0;
        self.scroll_bot = self.size.rows;
        assert(self@ =~= old(self)@.entered_alt());
    }

    /// Leaves the alternate screen and restores the primary one.
    pub fn leave_alt_screen(&mut self)
        requires
            old(self)@.wf(),
        ensures
            final(self)@ == old(self)@.left_alt(),
            final(self)@.wf(),
    {
        if let Some(snap) = self.primary.take() {
            self.lines = snap.lines;
            self.cursor = snap.cursor;
            self.pen = snap.pen;
            self.saved_cursor = snap.saved_cursor;
            self.scroll_top = snap.scroll_top;
            self.scroll_bot = snap.scroll_bot;
        }
        assert(self@ =~= old(self)@.left_alt());
    }

    /// DEC mode 25.
    pub fn set_cursor_visible(&mut self, visible: bool)
        ensures
            final(self)@ == (Screen { cursor_visible: visible, ..old(self)@ }),
    {
        self.cursor_visible = visible;
    }

    /// DEC mode 2004.
    pub fn set_bracketed_paste(&mut self, enabled: bool)
        ensures
            final(self)@ == (Screen { bracketed_paste: enabled, ..old(self)@ }),
    {
        self.bracketed_paste = enabled;
    }

    /// Applies a flat list of SGR parameters to the pen.
    pub fn apply_sgr(&mut self, params: &[u16])
        ensures
            final(self)@ == old(self)@.with_sgr(params@),
    {
        if params.len() == 0 {
            self.pen.reset();
            return;
        }
        let mut pen: Pen = self.pen;
        let mut i: usize = 0;
        assert(params@.skip(0) =~= params@);
        while i < params.len()
            invariant
                i <= params@.len(),
                screen::sgr_pen(pen, params@.skip(i as int)) == screen::sgr_pen(
                    old(self)@.pen,
                    params@,
                ),
            decreases params@.len() - i,
        {
            let code: u16 = params[i];
            let ghost rest = params@.skip(i as int).skip(1);
            assert(rest =~= params@.skip(i + 1));
            i += 1;
            if code == 38 || code == 48 {
                if let Some((color, taken)) = parse_extended_color(params, i) {
                    if code == 38 {
                        pen.fg = color;
                    } else {
                        pen.bg = color;
                    }
                    assert(rest.skip(taken as int) =~= params@.skip(i + taken));
                    i += taken;
                }
            } else {
                pen = apply_sgr_code(pen, code);
            }
        }
        self.pen = pen;
        assert(self@ =~= old(self)@.with_sgr(params@));
    }

    /// Opens a block at the cursor's row.
    pub fn begin_block(&mut self)
        requires
            old(self)@.wf(),
        ensures
            final(self)@ == old(self)@.with_block(),
            final(self)@.wf(),
    {
        let start_row: usize = self.scrollback.len() + self.cursor.row;
        self.blocks.push(TermBlock { start_row, state: TermBlockState::Input });
        assert(self@ =~= old(self)@.with_block());
    }

    /// Moves the newest block to another state, where there is a block.
    pub fn set_block_state(&mut self, state: TermBlockState)
        ensures
            final(self)@ == old(self)@.with_block_state(state),
    {
        let n: usize = self.blocks.len();
        if n > 0 {
            let start_row: usize = self.blocks[n - 1].start_row;
            self.blocks[n - 1] = TermBlock { start_row, state };
        }
        assert(self@ =~= old(self)@.with_block_state(state));
    }
}

fn at_most(n: usize, limit: usize) -> (r: usize)
    ensures
        r == math::min(n as int, limit as int),
{
    if n < limit {
        n
    } else {
        limit
    }
}

fn at_least(n: usize, limit: usize) -> (r: usize)
    ensures
        r == math::max(n as int, limit as int),
{
    if n > limit {
        n
    } else {
        limit
    }
}

/// Rows cut or padded with blanks to the given size.
fn resize_buffer(src: &Vec<ScrollbackRow>, rows: usize, cols: usize) -> (out: Vec<ScrollbackRow>)
    ensures
        lines_of(out@) == screen::cropped(lines_of(src@), rows as int, cols as int),
{
    let ghost model = lines_of(src@);
    let mut out: Vec<ScrollbackRow> = Vec::with_capacity(rows);
    for r in 0..rows
        invariant
            model == lines_of(src@),
            lines_of(out@) == screen::cropped(model, r as int, cols as int),
    {
        let ghost before = out@;
        let mut row = blank_row(cols);
        if r < src.len() {
            let n: usize = at_most(src[r].cells.len(), cols);
            for c in 0..n
                invariant
                    r < src@.len(),
                    n <= src@[r as int].cells@.len(),
                    n <= cols,
                    row.cells@.len() == cols,
                    row.wrapped == false,
                    forall|i: int|
                        0 <= i < cols ==> #[trigger] row.cells@[i] == if i < c {
                            src@[r as int].cells@[i]
                        } else {
                            Cell::space()
                        },
            {
                row.cells[c] = src[r].cells[c];
            }
            row.wrapped = src[r].wrapped;
            assert(model[r as int] == src@[r as int]@);
        }
        assert(row@ =~= screen::cropped(model, r + 1, cols as int)[r as int]);
        out.push(row);
        assert(lines_of(out@) =~= lines_of(before).push(row@));
        assert(lines_of(out@) =~= screen::cropped(model, r + 1, cols as int));
    }
    out
}

/// The color that the SGR parameters from `at` on spell out after 38 or 48, and
/// how many of them it takes.
fn parse_extended_color(params: &[u16], at: usize) -> (r: Option<(Color, usize)>)
    requires
        at <= params@.len(),
    ensures
        match r {
            Some((color, taken)) => screen::extended_color(params@.skip(at as int)) == Some(
                (color, taken as int),
            ) && at + taken <= params@.len() && taken > 0,
            None => screen::extended_color(params@.skip(at as int)) is None,
        },
{
    let left: usize = params.len() - at;
    if left >= 2 && params[at] == 5 {
        Some((Color::Indexed((params[at + 1] % 256) as u8), 2))
    } else if left >= 4 && params[at] == 2 {
        let r: u8 = (params[at + 1] % 256) as u8;
        let g: u8 = (params[at + 2] % 256) as u8;
        let b: u8 = (params[at + 3] % 256) as u8;
        Some((Color::Rgb(r, g, b), 4))
    } else {
        None
    }
}

/// The pen after one SGR code other than 38 and 48.
fn apply_sgr_code(pen: Pen, code: u16) -> (r: Pen)
    ensures
        r == screen::sgr_single(pen, code),
{
    let mut pen: Pen = pen;
    match code {
        0 => pen.reset(),
        1 => pen.attrs.insert(Attrs::BOLD),
        2 => pen.attrs.insert(Attrs::DIM),
        3 => pen.attrs.insert(Attrs::ITALIC),
        4 => pen.attrs.insert(Attrs::UNDERLINE),
        7 => pen.attrs.insert(Attrs::REVERSE),
        8 => pen.attrs.insert(Attrs::HIDDEN),
        9 => pen.attrs.insert(Attrs::STRIKE),
        22 => pen.attrs.remove(Attrs::BOLD | Attrs::DIM),
        23 => pen.attrs.remove(Attrs::ITALIC),
        24 => pen.attrs.remove(Attrs::UNDERLINE),
        27 => pen.attrs.remove(Attrs::REVERSE),
        28 => pen.attrs.remove(Attrs::HIDDEN),
        29 => pen.attrs.remove(Attrs::STRIKE),
        30..=37 => {
            pen.fg = Color::Indexed((code - 30) as u8);
        },
        39 => {
            pen.fg = Color::Default;
        },
        40..=47 => {
            pen.bg = Color::Indexed((code - 40) as u8);
        },
        49 => {
            pen.bg = Color::Default;
        },
        90..=97 => {
            pen.fg = Color::Indexed((code - 90 + 8) as u8);
        },
        100..=107 => {
            pen.bg = Color::Indexed((code - 100 + 8) as u8);
        },
        _ => {},
    }
    pen
}

} // verus!
