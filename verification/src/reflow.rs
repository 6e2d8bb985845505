//! Reflow: laying the content of a grid out anew at another width.
//!
//! Rows that are linked by their wrap flag form one logical line. Reflow
//! gathers the logical lines of scrollback and screen, breaks each of them
//! into rows of the new width, and splits the rows into a new scrollback and a
//! new screen. The cursor keeps its place in its logical line, and so do the
//! rows in which blocks start.

use std::collections::VecDeque;

use vstd::math;
use vstd::prelude::*;

use crate::blocks::TermBlock;
use crate::cell::Cell;
use crate::grid;
use crate::grid::{Cursor, ScrollbackRow, DEFAULT_SCROLLBACK, WIDE_CONT};
use crate::screen;
use crate::screen::Line;

verus! {

/// A cell that shows no glyph of its own.
pub open spec fn is_blank(c: Cell) -> bool {
    c.ch == ' ' || c.ch == WIDE_CONT
}

/// Two neighboring cells that hold the two halves of one wide glyph.
pub open spec fn is_wide_pair(head: Cell, tail: Cell) -> bool {
    head.ch != WIDE_CONT && tail.ch == WIDE_CONT
}

/// Whether the last cell is blank. The right half of a wide glyph is not: it
/// belongs to its left half.
pub open spec fn ends_blank(cells: Seq<Cell>) -> bool {
    let n = cells.len();
    n > 0 && is_blank(cells[n - 1]) && !(n > 1 && cells[n - 1].ch == WIDE_CONT && !is_blank(
        cells[n - 2],
    ))
}

/// The cells without the blank ones at the end.
pub open spec fn trimmed(cells: Seq<Cell>) -> Seq<Cell>
    decreases cells.len(),
{
    if ends_blank(cells) {
        trimmed(cells.drop_last())
    } else {
        cells
    }
}

/// What a row adds to its logical line. Blanks at the end of a row count only
/// where the line runs on.
pub open spec fn content(row: Line) -> Seq<Cell> {
    if row.wrapped {
        row.cells
    } else {
        trimmed(row.cells)
    }
}

/// Logical lines gathered so far: the complete ones, and the one still open.
#[verifier::ext_equal]
pub struct Gathered {
    pub lines: Seq<Seq<Cell>>,
    pub open: Seq<Cell>,
}

impl Gathered {
    pub open spec fn nothing() -> Gathered {
        Gathered { lines: Seq::empty(), open: Seq::empty() }
    }

    /// One more row gathered.
    pub open spec fn and(self, row: Line) -> Gathered {
        let line = self.open + content(row);
        if row.wrapped {
            Gathered { open: line, ..self }
        } else {
            Gathered { lines: self.lines.push(line), open: Seq::empty() }
        }
    }
}

/// Rows gathered one after the other, starting from `g`.
pub open spec fn gather(g: Gathered, rows: Seq<Line>) -> Gathered
    decreases rows.len(),
{
    if rows.len() == 0 {
        g
    } else {
        gather(g, rows.drop_last()).and(rows.last())
    }
}

/// The logical lines of a sequence of rows. A line still open at the end counts.
pub open spec fn logical_lines(rows: Seq<Line>) -> Seq<Seq<Cell>> {
    let g = gather(Gathered::nothing(), rows);
    if g.open.len() > 0 {
        g.lines.push(g.open)
    } else {
        g.lines
    }
}

/// Empty lines at the end dropped, as long as more than `keep` lines remain.
pub open spec fn without_empty_tail(lines: Seq<Seq<Cell>>, keep: int) -> Seq<Seq<Cell>>
    decreases lines.len(),
{
    if lines.len() > keep && lines.len() > 0 && lines.last().len() == 0 {
        without_empty_tail(lines.drop_last(), keep)
    } else {
        lines
    }
}

/// How many cells of a line its first row takes: as many as fit, less one where
/// a wide glyph would be split. In a single column a wide glyph is split.
pub open spec fn first_take(line: Seq<Cell>, cols: int) -> int {
    let take = math::min(line.len() as int, cols);
    if 1 < take < line.len() && is_wide_pair(line[take - 1], line[take]) {
        take - 1
    } else {
        take
    }
}

/// A row of `cols` cells that begins with `cells` and is blank behind them.
pub open spec fn padded(cells: Seq<Cell>, cols: int, wrapped: bool) -> Line {
    Line {
        cells: Seq::new(
            cols as nat,
            |c: int|
                if c < cells.len() {
                    cells[c]
                } else {
                    Cell::space()
                },
        ),
        wrapped,
    }
}

/// The rows of one logical line at a width. Every row but the last runs on; an
/// empty line takes one blank row.
pub open spec fn broken(line: Seq<Cell>, cols: int) -> Seq<Line>
    decreases line.len(),
{
    let n = first_take(line, cols);
    if 0 < n < line.len() {
        seq![padded(line.take(n), cols, true)] + broken(line.skip(n), cols)
    } else {
        seq![padded(line, cols, false)]
    }
}

/// The rows of several logical lines at a width.
pub open spec fn laid_out(lines: Seq<Seq<Cell>>, cols: int) -> Seq<Line>
    decreases lines.len(),
{
    if lines.len() == 0 {
        Seq::empty()
    } else {
        laid_out(lines.drop_last(), cols) + broken(lines.last(), cols)
    }
}

/// Where the cell at `offset` of a line comes to stand: the row among the
/// line's rows, and the column. An offset behind the line's end is clamped to
/// the last column.
pub open spec fn spot(line: Seq<Cell>, cols: int, offset: int) -> (int, int)
    decreases line.len(),
{
    let n = first_take(line, cols);
    if 0 < n < line.len() && offset >= n {
        let rest = spot(line.skip(n), cols, offset - n);
        (rest.0 + 1, rest.1)
    } else {
        (0, math::min(offset, cols - 1))
    }
}

/// What is gathered before the cursor's row.
pub open spec fn above_cursor(scrollback: Seq<Line>, lines: Seq<Line>, cursor: Cursor) -> Gathered {
    gather(Gathered::nothing(), scrollback + lines.take(cursor.row as int))
}

/// The index of the cursor's logical line.
pub open spec fn cursor_line(scrollback: Seq<Line>, lines: Seq<Line>, cursor: Cursor) -> int {
    above_cursor(scrollback, lines, cursor).lines.len() as int
}

/// The cursor's place within its logical line.
pub open spec fn cursor_offset(
    scrollback: Seq<Line>,
    lines: Seq<Line>,
    cursor: Cursor,
    old_cols: int,
) -> int {
    above_cursor(scrollback, lines, cursor).open.len() + math::min(cursor.col as int, old_cols)
}

/// The logical lines that reflow lays out: all of them, less the empty ones at
/// the end, but never the cursor's own line.
pub open spec fn kept_lines(scrollback: Seq<Line>, lines: Seq<Line>, cursor: Cursor) -> Seq<
    Seq<Cell>,
> {
    without_empty_tail(
        logical_lines(scrollback + lines),
        cursor_line(scrollback, lines, cursor) + 1,
    )
}

/// The outcome of a reflow.
#[verifier::ext_equal]
pub struct Reflowed {
    pub lines: Seq<Line>,
    pub scrollback: Seq<Line>,
    pub cursor: Cursor,
}

/// The row, among all rows that are laid out, in which the cursor comes to stand.
pub open spec fn cursor_row_laid_out(
    scrollback: Seq<Line>,
    lines: Seq<Line>,
    cursor: Cursor,
    old_cols: int,
    cols: int,
) -> int {
    let kept = kept_lines(scrollback, lines, cursor);
    let at = cursor_line(scrollback, lines, cursor);
    let offset = cursor_offset(scrollback, lines, cursor, old_cols);
    laid_out(kept.take(at), cols).len() + spot(kept[at], cols, offset).0
}

/// How many blank rows come above the content, where it does not fill `rows` rows.
pub open spec fn blanks_above(
    scrollback: Seq<Line>,
    lines: Seq<Line>,
    cursor: Cursor,
    rows: int,
    cols: int,
) -> int {
    math::max(rows - laid_out(kept_lines(scrollback, lines, cursor), cols).len(), 0)
}

/// The row, among all rows that are laid out, in which the first cell of row `at`
/// comes to stand. An empty row at the end that is not laid out counts as the
/// last one.
pub open spec fn row_laid_out(rows: Seq<Line>, kept: Seq<Seq<Cell>>, at: int, cols: int) -> int {
    let above = gather(Gathered::nothing(), rows.take(at));
    let line = above.lines.len() as int;
    if line < kept.len() {
        laid_out(kept.take(line), cols).len() + spot(kept[line], cols, above.open.len() as int).0
    } else {
        laid_out(kept, cols).len() - 1
    }
}

/// Where the row `at`, counted from the oldest scrollback row, stands after a
/// reflow. A row that the scrollback has no room for counts as the oldest one.
pub open spec fn moved_row(
    scrollback: Seq<Line>,
    lines: Seq<Line>,
    cursor: Cursor,
    rows: int,
    cols: int,
    at: int,
) -> int {
    let kept = kept_lines(scrollback, lines, cursor);
    let dropped = math::max(laid_out(kept, cols).len() - rows - DEFAULT_SCROLLBACK, 0);
    math::max(
        row_laid_out(scrollback + lines, kept, at, cols) + blanks_above(
            scrollback,
            lines,
            cursor,
            rows,
            cols,
        ) - dropped,
        0,
    )
}

/// Scrollback and screen laid out anew as `rows` rows of `cols` cells. Where
/// there are more rows than fit, the oldest enter the scrollback; where there
/// are fewer, the missing rows at the top are blank.
pub open spec fn reflowed(
    scrollback: Seq<Line>,
    lines: Seq<Line>,
    cursor: Cursor,
    old_cols: int,
    rows: int,
    cols: int,
) -> Reflowed {
    let kept = kept_lines(scrollback, lines, cursor);
    let all = laid_out(kept, cols);
    let over = math::max(all.len() - rows, 0);
    let at = cursor_line(scrollback, lines, cursor);
    let offset = cursor_offset(scrollback, lines, cursor, old_cols);
    let blanks = blanks_above(scrollback, lines, cursor, rows, cols);
    let row = cursor_row_laid_out(scrollback, lines, cursor, old_cols, cols) - over + blanks;
    Reflowed {
        scrollback: screen::keep_last(all.take(over), DEFAULT_SCROLLBACK as int),
        lines: screen::blank_lines(blanks, cols) + all.skip(over),
        cursor: Cursor {
            row: math::max(math::min(row, rows - 1), 0) as usize,
            col: spot(kept[at], cols, offset).1 as usize,
        },
    }
}

/// A line without a wide glyph.
pub open spec fn narrow(cells: Seq<Cell>) -> bool {
    forall|c: int| 0 <= c < cells.len() ==> (#[trigger] cells[c]).ch != WIDE_CONT
}

/// The `i`-th line has no wide glyph; so has a line that is not there.
pub open spec fn narrow_at(lines: Seq<Seq<Cell>>, i: int) -> bool {
    0 <= i < lines.len() ==> narrow(lines[i])
}

/// The text of the `i`-th line up to its last glyph; empty where there is no
/// such line.
pub open spec fn text_at(lines: Seq<Seq<Cell>>, i: int) -> Seq<Cell> {
    if 0 <= i < lines.len() {
        trimmed(lines[i])
    } else {
        Seq::empty()
    }
}

/// The cells without the spaces at the end.
pub open spec fn unspaced(cells: Seq<Cell>) -> Seq<Cell>
    decreases cells.len(),
{
    if cells.len() > 0 && cells.last().ch == ' ' {
        unspaced(cells.drop_last())
    } else {
        cells
    }
}

/// The cells without the spaces right before a wide glyph: one of them may be the
/// gap that is left where a row ends one cell before the glyph would.
pub open spec fn closed_up(cells: Seq<Cell>) -> Seq<Cell>
    decreases cells.len(),
{
    let n = cells.len() as int;
    if n >= 2 && is_wide_pair(cells[n - 2], cells[n - 1]) {
        unspaced(closed_up(cells.take(n - 2))) + cells.skip(n - 2)
    } else if n > 0 {
        closed_up(cells.drop_last()).push(cells.last())
    } else {
        cells
    }
}

/// The text of the `i`-th line up to its last glyph, without the spaces right
/// before a wide glyph; empty where there is no such line.
pub open spec fn closed_text_at(lines: Seq<Seq<Cell>>, i: int) -> Seq<Cell> {
    if 0 <= i < lines.len() {
        trimmed(closed_up(lines[i]))
    } else {
        Seq::empty()
    }
}

/// The glyphs of a line, blanks left out.
pub open spec fn ink(cells: Seq<Cell>) -> Seq<Cell>
    decreases cells.len(),
{
    if cells.len() == 0 {
        cells
    } else if is_blank(cells.last()) {
        ink(cells.drop_last())
    } else {
        ink(cells.drop_last()).push(cells.last())
    }
}

/// The glyphs of the `i`-th line; none where there is no such line.
pub open spec fn ink_at(lines: Seq<Seq<Cell>>, i: int) -> Seq<Cell> {
    if 0 <= i < lines.len() {
        ink(lines[i])
    } else {
        Seq::empty()
    }
}

/// Gathering `a` and then `b` is gathering both together.
proof fn gather_concat(g: Gathered, a: Seq<Line>, b: Seq<Line>)
    ensures
        gather(g, a + b) == gather(gather(g, a), b),
    decreases b.len(),
{
    if b.len() == 0 {
        assert(a + b =~= a);
    } else {
        gather_concat(g, a, b.drop_last());
        assert((a + b).drop_last() =~= a + b.drop_last());
    }
}

/// Gathering rows that are not empty leaves more complete lines than before, or
/// an open line.
proof fn gather_grows(g: Gathered, rows: Seq<Line>)
    requires
        forall|r: int| 0 <= r < rows.len() ==> (#[trigger] rows[r]).cells.len() > 0,
    ensures
        gather(g, rows).lines.len() >= g.lines.len(),
        rows.len() > 0 ==> gather(g, rows).lines.len() > g.lines.len() || gather(
            g,
            rows,
        ).open.len() > 0,
    decreases rows.len(),
{
    if rows.len() > 0 {
        let before = rows.drop_last();
        assert forall|r: int| 0 <= r < before.len() implies (#[trigger] before[r]).cells.len()
            > 0 by {
            assert(before[r] == rows[r]);
        }
        gather_grows(g, before);
        assert(rows.last().cells.len() > 0);
    }
}

/// Dropping empty lines at the end keeps the first `keep` lines, changes none
/// that stays, and drops only empty ones.
proof fn empty_tail_facts(lines: Seq<Seq<Cell>>, keep: int)
    requires
        keep >= 0,
    ensures
        without_empty_tail(lines, keep).len() <= lines.len(),
        without_empty_tail(lines, keep).len() >= math::min(lines.len() as int, keep),
        forall|i: int|
            0 <= i < without_empty_tail(lines, keep).len() ==> #[trigger] without_empty_tail(
                lines,
                keep,
            )[i] == lines[i],
        forall|i: int|
            without_empty_tail(lines, keep).len() <= i < lines.len() ==> (
            #[trigger] lines[i]).len() == 0,
    decreases lines.len(),
{
    if lines.len() > keep && lines.len() > 0 && lines.last().len() == 0 {
        let shorter = lines.drop_last();
        empty_tail_facts(shorter, keep);
        assert forall|i: int|
            without_empty_tail(lines, keep).len() <= i < lines.len() implies (
        #[trigger] lines[i]).len() == 0 by {
            if i < shorter.len() {
                assert(shorter[i] == lines[i]);
            }
        }
    }
}

/// The cursor's line is among the lines that are laid out.
proof fn cursor_line_is_kept(scrollback: Seq<Line>, lines: Seq<Line>, cursor: Cursor)
    requires
        cursor.row < lines.len(),
        forall|r: int| 0 <= r < lines.len() ==> (#[trigger] lines[r]).cells.len() > 0,
    ensures
        0 <= cursor_line(scrollback, lines, cursor) < kept_lines(scrollback, lines, cursor).len(),
{
    let at = cursor.row as int;
    let above = above_cursor(scrollback, lines, cursor);
    let below = lines.skip(at);
    assert(scrollback + lines =~= (scrollback + lines.take(at)) + below);
    gather_concat(Gathered::nothing(), scrollback + lines.take(at), below);
    assert forall|r: int| 0 <= r < below.len() implies (#[trigger] below[r]).cells.len() > 0 by {
        assert(below[r] == lines[r + at]);
    }
    gather_grows(above, below);
    empty_tail_facts(
        logical_lines(scrollback + lines),
        cursor_line(scrollback, lines, cursor) + 1,
    );
}

/// The rows of a line: at least one, each of the full width, all but the last
/// running on.
proof fn broken_facts(line: Seq<Cell>, cols: int)
    requires
        cols >= 1,
    ensures
        broken(line, cols).len() >= 1,
        forall|r: int|
            0 <= r < broken(line, cols).len() ==> {
                &&& (#[trigger] broken(line, cols)[r]).cells.len() == cols
                &&& broken(line, cols)[r].wrapped == (r < broken(line, cols).len() - 1)
            },
    decreases line.len(),
{
    let n = first_take(line, cols);
    if 0 < n < line.len() {
        broken_facts(line.skip(n), cols);
        let rest = broken(line.skip(n), cols);
        assert forall|r: int| 0 <= r < broken(line, cols).len() implies {
            &&& (#[trigger] broken(line, cols)[r]).cells.len() == cols
            &&& broken(line, cols)[r].wrapped == (r < broken(line, cols).len() - 1)
        } by {
            if r > 0 {
                assert(broken(line, cols)[r] == rest[r - 1]);
            }
        }
    }
}

/// The spot of an offset lies in one of the line's rows.
proof fn spot_in_rows(line: Seq<Cell>, cols: int, offset: int)
    requires
        cols >= 1,
        offset >= 0,
    ensures
        0 <= spot(line, cols, offset).0 < broken(line, cols).len(),
        0 <= spot(line, cols, offset).1 < cols,
    decreases line.len(),
{
    let n = first_take(line, cols);
    if 0 < n < line.len() && offset >= n {
        spot_in_rows(line.skip(n), cols, offset - n);
    } else {
        broken_facts(line, cols);
    }
}

/// Every row that is laid out has the full width.
proof fn laid_out_width(lines: Seq<Seq<Cell>>, cols: int)
    requires
        cols >= 1,
    ensures
        forall|r: int|
            0 <= r < laid_out(lines, cols).len() ==> (#[trigger] laid_out(
                lines,
                cols,
            )[r]).cells.len() == cols,
    decreases lines.len(),
{
    if lines.len() > 0 {
        let before = laid_out(lines.drop_last(), cols);
        laid_out_width(lines.drop_last(), cols);
        broken_facts(lines.last(), cols);
        assert forall|r: int| 0 <= r < laid_out(lines, cols).len() implies (#[trigger] laid_out(
            lines,
            cols,
        )[r]).cells.len() == cols by {
            if r >= before.len() {
                assert(laid_out(lines, cols)[r] == broken(lines.last(), cols)[r - before.len()]);
            }
        }
    }
}

/// Logical lines under collection.
struct Collector {
    lines: Vec<Vec<Cell>>,
    open: Vec<Cell>,
}

/// The model of a list of lines.
pub open spec fn cells_of(lines: Seq<Vec<Cell>>) -> Seq<Seq<Cell>> {
    Seq::new(lines.len(), |i: int| lines[i]@)
}

impl View for Collector {
    type V = Gathered;

    closed spec fn view(&self) -> Gathered {
        Gathered { lines: cells_of(self.lines@), open: self.open@ }
    }
}

fn is_blank_cell(c: &Cell) -> (r: bool)
    ensures
        r == is_blank(*c),
{
    c.ch == ' ' || c.ch == WIDE_CONT
}

fn is_wide_head(head: &Cell, tail: &Cell) -> (r: bool)
    ensures
        r == is_wide_pair(*head, *tail),
{
    head.ch != WIDE_CONT && tail.ch == WIDE_CONT
}

/// How many cells remain of a row when the blanks at its end are trimmed.
fn trimmed_len(cells: &Vec<Cell>) -> (n: usize)
    ensures
        n <= cells@.len(),
        cells@.take(n as int) == trimmed(cells@),
{
    let mut n: usize = cells.len();
    assert(cells@.take(n as int) =~= cells@);
    while n > 0 && is_blank_cell(&cells[n - 1]) && !(n > 1 && cells[n - 1].ch == WIDE_CONT
        && !is_blank_cell(&cells[n - 2]))
        invariant
            n <= cells@.len(),
            trimmed(cells@.take(n as int)) == trimmed(cells@),
        decreases n,
    {
        assert(ends_blank(cells@.take(n as int)));
        assert(cells@.take(n as int).drop_last() =~= cells@.take(n - 1));
        n -= 1;
    }
    n
}

impl Collector {
    fn new() -> (r: Self)
        ensures
            r@ == Gathered::nothing(),
    {
        let r = Collector { lines: Vec::new(), open: Vec::new() };
        assert(r@ =~= Gathered::nothing());
        r
    }

    /// Adds one row to the open line, and closes the line where the row does
    /// not run on.
    fn absorb(&mut self, row: &ScrollbackRow)
        ensures
            final(self)@ == old(self)@.and(row@),
    {
        let n: usize = if row.wrapped { row.cells.len() } else { trimmed_len(&row.cells) };
        assert(row.cells@.take(row.cells@.len() as int) =~= row.cells@);
        for c in 0..n
            invariant
                n <= row.cells@.len(),
                self.lines == old(self).lines,
                self.open@ == old(self).open@ + row.cells@.take(c as int),
        {
            self.open.push(row.cells[c]);
            assert(row.cells@.take(c + 1) =~= row.cells@.take(c as int).push(row.cells@[c as int]));
            assert(self.open@ =~= old(self).open@ + row.cells@.take(c + 1));
        }
        if !row.wrapped {
            self.close();
        }
        assert(self@ =~= old(self)@.and(row@));
    }

    /// Closes the open line.
    fn close(&mut self)
        ensures
            final(self)@ == (Gathered {
                lines: old(self)@.lines.push(old(self)@.open),
                open: Seq::empty(),
            }),
    {
        let mut line: Vec<Cell> = Vec::new();
        core::mem::swap(&mut line, &mut self.open);
        self.lines.push(line);
        assert(self@ =~= (Gathered {
            lines: old(self)@.lines.push(old(self)@.open),
            open: Seq::empty(),
        }));
    }
}

/// A row made of `n` cells of `line` from `pos` on, and blanks.
fn padded_row(line: &Vec<Cell>, pos: usize, n: usize, cols: usize, wrapped: bool) -> (row:
    ScrollbackRow)
    requires
        pos + n <= line@.len(),
        n <= cols,
    ensures
        row@ == padded(line@.subrange(pos as int, pos + n), cols as int, wrapped),
{
    let len: usize = line.len();
    let mut cells: Vec<Cell> = Vec::with_capacity(cols);
    for c in 0..cols
        invariant
            len == line@.len(),
            pos + n <= len,
            n <= cols,
            cells@.len() == c,
            forall|i: int|
                0 <= i < c ==> #[trigger] cells@[i] == if i < n {
                    line@[pos + i]
                } else {
                    Cell::space()
                },
    {
        if c < n {
            cells.push(line[pos + c]);
        } else {
            cells.push(Cell::blank());
        }
    }
    let row = ScrollbackRow { cells, wrapped };
    assert(row@ =~= padded(line@.subrange(pos as int, pos + n), cols as int, wrapped));
    row
}

/// How many cells of `line` from `pos` on the next row takes.
fn take_at(line: &Vec<Cell>, pos: usize, cols: usize) -> (n: usize)
    requires
        pos <= line@.len(),
        cols >= 1,
    ensures
        n == first_take(line@.skip(pos as int), cols as int),
        pos + n <= line@.len(),
        n <= cols,
        pos < line@.len() ==> n >= 1,
{
    let left: usize = line.len() - pos;
    let take: usize = if left < cols { left } else { cols };
    if 1 < take && take < left && is_wide_head(&line[pos + take - 1], &line[pos + take]) {
        take - 1
    } else {
        take
    }
}

/// Lays one logical line out behind the rows in `out`.
fn lay_out_line(line: &Vec<Cell>, cols: usize, out: &mut Vec<ScrollbackRow>)
    requires
        cols >= 1,
    ensures
        grid::lines_of(final(out)@) == grid::lines_of(old(out)@) + broken(line@, cols as int),
{
    let mut pos: usize = 0;
    assert(line@.skip(0) =~= line@);
    let mut n: usize = take_at(line, pos, cols);
    while n < line.len() - pos
        invariant
            pos <= line@.len(),
            cols >= 1,
            n == first_take(line@.skip(pos as int), cols as int),
            n <= cols,
            pos + n <= line@.len(),
            pos < line@.len() ==> n >= 1,
            grid::lines_of(out@) + broken(line@.skip(pos as int), cols as int) == grid::lines_of(
                old(out)@,
            ) + broken(line@, cols as int),
        decreases line@.len() - pos,
    {
        let ghost before = out@;
        let ghost rest = line@.skip(pos as int);
        out.push(padded_row(line, pos, n, cols, true));
        proof {
            assert(rest.take(n as int) =~= line@.subrange(pos as int, pos + n));
            assert(rest.skip(n as int) =~= line@.skip(pos + n));
            assert(grid::lines_of(out@) =~= grid::lines_of(before).push(
                padded(rest.take(n as int), cols as int, true),
            ));
            assert(grid::lines_of(out@) + broken(rest.skip(n as int), cols as int)
                =~= grid::lines_of(before) + broken(rest, cols as int));
        }
        pos += n;
        n = take_at(line, pos, cols);
    }
    let ghost before = out@;
    let ghost rest = line@.skip(pos as int);
    out.push(padded_row(line, pos, n, cols, false));
    proof {
        assert(rest =~= line@.subrange(pos as int, pos + n));
        assert(grid::lines_of(out@) =~= grid::lines_of(before) + broken(rest, cols as int));
    }
}

/// Where `offset` of `line` comes to stand: row and column.
fn locate(line: &Vec<Cell>, cols: usize, offset: u128) -> (r: (usize, usize))
    requires
        cols >= 1,
    ensures
        (r.0 as int, r.1 as int) == spot(line@, cols as int, offset as int),
        r.0 <= line@.len(),
        r.1 < cols,
{
    let mut pos: usize = 0;
    let mut row: usize = 0;
    let mut left: u128 = offset;
    assert(line@.skip(0) =~= line@);
    let mut n: usize = take_at(line, pos, cols);
    while n < line.len() - pos && left >= n as u128
        invariant
            pos <= line@.len(),
            row <= pos,
            cols >= 1,
            n == first_take(line@.skip(pos as int), cols as int),
            n <= cols,
            pos + n <= line@.len(),
            pos < line@.len() ==> n >= 1,
            ({
                let here = spot(line@.skip(pos as int), cols as int, left as int);
                spot(line@, cols as int, offset as int) == (here.0 + row, here.1)
            }),
        decreases line@.len() - pos,
    {
        assert(line@.skip(pos as int).skip(n as int) =~= line@.skip(pos + n));
        pos += n;
        row += 1;
        left -= n as u128;
        n = take_at(line, pos, cols);
    }
    let last: usize = cols - 1;
    let col: usize = if left < last as u128 { left as usize } else { last };
    (row, col)
}

/// The outcome of a reflow.
pub(crate) struct ReflowResult {
    pub(crate) lines: Vec<ScrollbackRow>,
    pub(crate) scrollback: VecDeque<ScrollbackRow>,
    pub(crate) cursor: Cursor,
    pub(crate) blocks: Vec<TermBlock>,
}

/// The newest rows of `rows`, as many as a scrollback holds.
fn into_scrollback(rows: Vec<ScrollbackRow>) -> (r: VecDeque<ScrollbackRow>)
    ensures
        grid::lines_of(r@) == screen::keep_last(
            grid::lines_of(rows@),
            DEFAULT_SCROLLBACK as int,
        ),
        r@.len() <= DEFAULT_SCROLLBACK,
{
    let ghost all = grid::lines_of(rows@);
    let mut rows = rows;
    let mut r: VecDeque<ScrollbackRow> = VecDeque::new();
    while r.len() < DEFAULT_SCROLLBACK && rows.len() > 0
        invariant
            r@.len() <= DEFAULT_SCROLLBACK,
            grid::lines_of(rows@) + grid::lines_of(r@) == all,
        decreases DEFAULT_SCROLLBACK - r@.len(),
    {
        let ghost rows0 = rows@;
        let ghost r0 = r@;
        if let Some(row) = rows.pop() {
            r.push_front(row);
            proof {
                assert(grid::lines_of(rows0) =~= grid::lines_of(rows@).push(row@));
                assert(grid::lines_of(r@) =~= seq![row@] + grid::lines_of(r0));
                assert(grid::lines_of(rows@) + grid::lines_of(r@) =~= grid::lines_of(rows0)
                    + grid::lines_of(r0));
            }
        }
    }
    assert(grid::lines_of(r@) =~= screen::keep_last(all, DEFAULT_SCROLLBACK as int));
    r
}

/// The logical lines to lay out, and the cursor's place among them.
struct Collected {
    lines: Vec<Vec<Cell>>,
    /// The index of the cursor's line.
    at: usize,
    /// The cursor's place in its line.
    offset: u128,
    /// For each row, the index of its line and its place in the line.
    places: Vec<(usize, usize)>,
}

/// That `places` holds the line and the place of each row.
spec fn places_of(rows: Seq<Line>, places: Seq<(usize, usize)>) -> bool {
    forall|i: int|
        0 <= i < places.len() ==> {
            let above = gather(Gathered::nothing(), rows.take(i));
            &&& (#[trigger] places[i]).0 == above.lines.len()
            &&& places[i].1 == above.open.len()
        }
}

/// Collects the logical lines, oldest first, and the cursor's place.
fn collect_lines(
    primary: &Vec<ScrollbackRow>,
    scrollback: &VecDeque<ScrollbackRow>,
    old_cols: usize,
    cursor: Cursor,
) -> (r: Collected)
    requires
        cursor.row < primary@.len(),
        forall|i: int| 0 <= i < primary@.len() ==> (#[trigger] primary@[i]).cells@.len() > 0,
    ensures
        cells_of(r.lines@) == kept_lines(
            grid::lines_of(scrollback@),
            grid::lines_of(primary@),
            cursor,
        ),
        r.at == cursor_line(grid::lines_of(scrollback@), grid::lines_of(primary@), cursor),
        r.offset == cursor_offset(
            grid::lines_of(scrollback@),
            grid::lines_of(primary@),
            cursor,
            old_cols as int,
        ),
        r.at < r.lines@.len(),
        r.places@.len() == scrollback@.len() + primary@.len(),
        places_of(grid::lines_of(scrollback@) + grid::lines_of(primary@), r.places@),
{
    let ghost sb = grid::lines_of(scrollback@);
    let ghost prim = grid::lines_of(primary@);
    let ghost none = Gathered::nothing();
    let ghost both = sb + prim;
    let mut all = Collector::new();
    let mut places: Vec<(usize, usize)> = Vec::new();
    for i in 0..scrollback.len()
        invariant
            sb == grid::lines_of(scrollback@),
            none == Gathered::nothing(),
            all@ == gather(none, sb.take(i as int)),
            both == sb + prim,
            places@.len() == i,
            places_of(both, places@),
    {
        assert(both.take(i as int) =~= sb.take(i as int));
        places.push((all.lines.len(), all.open.len()));
        all.absorb(&scrollback[i]);
        assert(sb.take(i + 1).drop_last() =~= sb.take(i as int));
    }
    assert(sb.take(sb.len() as int) =~= sb + prim.take(0));
    let mut at: usize = 0;
    let mut offset: u128 = 0;
    for i in 0..primary.len()
        invariant
            sb == grid::lines_of(scrollback@),
            prim == grid::lines_of(primary@),
            none == Gathered::nothing(),
            all@ == gather(none, sb + prim.take(i as int)),
            both == sb + prim,
            places@.len() == sb.len() + i,
            places_of(both, places@),
            i > cursor.row ==> at == cursor_line(sb, prim, cursor) && offset == cursor_offset(
                sb,
                prim,
                cursor,
                old_cols as int,
            ),
    {
        if i == cursor.row {
            at = all.lines.len();
            let col: usize = if cursor.col < old_cols { cursor.col } else { old_cols };
            offset = all.open.len() as u128 + col as u128;
        }
        assert(both.take(sb.len() + i) =~= sb + prim.take(i as int));
        places.push((all.lines.len(), all.open.len()));
        all.absorb(&primary[i]);
        assert((sb + prim.take(i + 1)).drop_last() =~= sb + prim.take(i as int));
    }
    assert(prim.take(prim.len() as int) =~= prim);
    if all.open.len() > 0 {
        all.close();
    }
    let mut lines = all.lines;
    assert(cells_of(lines@) =~= logical_lines(sb + prim));
    proof {
        assert forall|i: int| 0 <= i < prim.len() implies (#[trigger] prim[i]).cells.len() > 0 by {
            assert(prim[i].cells == primary@[i].cells@);
        }
        cursor_line_is_kept(sb, prim, cursor);
        empty_tail_facts(cells_of(lines@), at + 1);
    }
    while lines.len() - 1 > at && lines[lines.len() - 1].len() == 0
        invariant
            at < lines@.len(),
            without_empty_tail(cells_of(lines@), at + 1) == kept_lines(sb, prim, cursor),
        decreases lines@.len(),
    {
        let ghost before = lines@;
        lines.pop();
        assert(cells_of(lines@) =~= cells_of(before).drop_last());
    }
    Collected { lines, at, offset, places }
}

/// Lays all lines out. Returns the rows, and for each line how many rows come
/// before its own.
fn lay_out_lines(lines: &Vec<Vec<Cell>>, cols: usize) -> (r: (Vec<ScrollbackRow>, Vec<usize>))
    requires
        cols >= 1,
    ensures
        grid::lines_of(r.0@) == laid_out(cells_of(lines@), cols as int),
        r.1@.len() == lines@.len(),
        forall|k: int|
            0 <= k < r.1@.len() ==> #[trigger] r.1@[k] == laid_out(
                cells_of(lines@).take(k),
                cols as int,
            ).len(),
{
    let ghost all = cells_of(lines@);
    let mut rows: Vec<ScrollbackRow> = Vec::new();
    let mut starts: Vec<usize> = Vec::new();
    assert(grid::lines_of(rows@) =~= laid_out(all.take(0), cols as int));
    for i in 0..lines.len()
        invariant
            cols >= 1,
            cells_of(lines@) == all,
            grid::lines_of(rows@) == laid_out(all.take(i as int), cols as int),
            starts@.len() == i,
            forall|k: int|
                0 <= k < i ==> #[trigger] starts@[k] == laid_out(all.take(k), cols as int).len(),
    {
        starts.push(rows.len());
        lay_out_line(&lines[i], cols, &mut rows);
        assert(all.take(i + 1).drop_last() =~= all.take(i as int));
        assert(all.take(i + 1).last() == lines@[i as int]@);
    }
    assert(all.take(all.len() as int) =~= all);
    (rows, starts)
}

/// Every row is laid out among the rows there are.
proof fn row_laid_out_bounds(rows: Seq<Line>, kept: Seq<Seq<Cell>>, at: int, cols: int)
    requires
        cols >= 1,
        kept.len() > 0,
    ensures
        0 <= row_laid_out(rows, kept, at, cols) < laid_out(kept, cols).len(),
{
    let above = gather(Gathered::nothing(), rows.take(at));
    let line = above.lines.len() as int;
    if line < kept.len() {
        laid_out_split(kept, line, cols);
        spot_in_rows(kept[line], cols, above.open.len() as int);
    } else {
        laid_out_split(kept, 0, cols);
        broken_facts(kept[0], cols);
    }
}

/// Moves the start rows of blocks along with the rows.
fn move_blocks(
    blocks: &Vec<TermBlock>,
    found: &Collected,
    starts: &Vec<usize>,
    total: usize,
    rows: usize,
    cols: usize,
    Ghost(all): Ghost<Seq<Line>>,
) -> (r: Vec<TermBlock>)
    requires
        cols >= 1,
        rows >= 1,
        found.lines@.len() > 0,
        total == laid_out(cells_of(found.lines@), cols as int).len(),
        starts@.len() == found.lines@.len(),
        forall|k: int|
            0 <= k < starts@.len() ==> #[trigger] starts@[k] == laid_out(
                cells_of(found.lines@).take(k),
                cols as int,
            ).len(),
        places_of(all, found.places@),
        forall|i: int|
            0 <= i < blocks@.len() ==> (#[trigger] blocks@[i]).start_row < found.places@.len(),
    ensures
        r@.len() == blocks@.len(),
        forall|i: int|
            0 <= i < blocks@.len() ==> {
                let row = row_laid_out(
                    all,
                    cells_of(found.lines@),
                    blocks@[i].start_row as int,
                    cols as int,
                );
                let blanks = math::max(rows - total, 0);
                let dropped = math::max(total - rows - DEFAULT_SCROLLBACK, 0);
                &&& (#[trigger] r@[i]).state == blocks@[i].state
                &&& r@[i].start_row == math::max(row + blanks - dropped, 0)
            },
{
    let ghost kept = cells_of(found.lines@);
    let mut out: Vec<TermBlock> = Vec::new();
    for i in 0..blocks.len()
        invariant
            cols >= 1,
            rows >= 1,
            kept == cells_of(found.lines@),
            kept.len() > 0,
            total == laid_out(kept, cols as int).len(),
            starts@.len() == kept.len(),
            forall|k: int|
                0 <= k < starts@.len() ==> #[trigger] starts@[k] == laid_out(
                    kept.take(k),
                    cols as int,
                ).len(),
            places_of(all, found.places@),
            forall|i: int|
                0 <= i < blocks@.len() ==> (#[trigger] blocks@[i]).start_row < found.places@.len(),
            out@.len() == i,
            forall|j: int|
                0 <= j < i ==> {
                    let row = row_laid_out(all, kept, blocks@[j].start_row as int, cols as int);
                    let blanks = math::max(rows - total, 0);
                    let dropped = math::max(total - rows - DEFAULT_SCROLLBACK, 0);
                    &&& (#[trigger] out@[j]).state == blocks@[j].state
                    &&& out@[j].start_row == math::max(row + blanks - dropped, 0)
                },
    {
        let at: usize = blocks[i].start_row;
        let (line, place): (usize, usize) = found.places[at];
        proof {
            row_laid_out_bounds(all, kept, at as int, cols as int);
            assert(found.places@[at as int] == (line, place));
        }
        let row: usize = if line < found.lines.len() {
            proof {
                assert(kept[line as int] == found.lines@[line as int]@);
                laid_out_split(kept, line as int, cols as int);
                spot_in_rows(kept[line as int], cols as int, place as int);
            }
            starts[line] + locate(&found.lines[line], cols, place as u128).0
        } else {
            total - 1
        };
        let start_row: usize = if total <= rows {
            row + (rows - total)
        } else if total - rows <= DEFAULT_SCROLLBACK {
            row
        } else {
            row.saturating_sub(total - rows - DEFAULT_SCROLLBACK)
        };
        out.push(TermBlock { start_row, state: blocks[i].state });
    }
    out
}

/// Lays scrollback and screen out anew.
///
/// 1. Collect the logical lines, oldest first.
/// 2. Break each of them into rows of the new width.
/// 3. The last `new_rows` rows become the screen, what is before them the
///    scrollback. Missing rows at the top are blank.
/// 4. Look the cursor's place in its logical line up in the new rows, and that of
///    each block.
pub(crate) fn reflow(
    primary: &Vec<ScrollbackRow>,
    scrollback: &VecDeque<ScrollbackRow>,
    old_cols: usize,
    new_rows: usize,
    new_cols: usize,
    cursor: Cursor,
    blocks: &Vec<TermBlock>,
) -> (r: ReflowResult)
    requires
        new_rows >= 1,
        new_cols >= 1,
        cursor.row < primary@.len(),
        forall|i: int| 0 <= i < primary@.len() ==> (#[trigger] primary@[i]).cells@.len() > 0,
        forall|i: int|
            0 <= i < blocks@.len() ==> (#[trigger] blocks@[i]).start_row < scrollback@.len()
                + primary@.len(),
    ensures
        (Reflowed {
            lines: grid::lines_of(r.lines@),
            scrollback: grid::lines_of(r.scrollback@),
            cursor: r.cursor,
        }) == reflowed(
            grid::lines_of(scrollback@),
            grid::lines_of(primary@),
            cursor,
            old_cols as int,
            new_rows as int,
            new_cols as int,
        ),
        screen::rectangle(grid::lines_of(r.lines@), new_rows as int, new_cols as int),
        r.scrollback@.len() <= DEFAULT_SCROLLBACK,
        r.cursor.row < new_rows,
        r.cursor.col < new_cols,
        r.blocks@.len() == blocks@.len(),
        forall|i: int|
            0 <= i < blocks@.len() ==> (#[trigger] r.blocks@[i]).state == blocks@[i].state
                && r.blocks@[i].start_row == moved_row(
                grid::lines_of(scrollback@),
                grid::lines_of(primary@),
                cursor,
                new_rows as int,
                new_cols as int,
                blocks@[i].start_row as int,
            ),
        forall|i: int|
            0 <= i < r.blocks@.len() ==> (#[trigger] r.blocks@[i]).start_row < r.scrollback@.len()
                + new_rows,
{
    let found = collect_lines(primary, scrollback, old_cols, cursor);
    let ghost kept = cells_of(found.lines@);
    let (mut rows, starts) = lay_out_lines(&found.lines, new_cols);
    let (row_in_line, col) = locate(&found.lines[found.at], new_cols, found.offset);
    let ghost full = laid_out(kept, new_cols as int);
    proof {
        laid_out_width(kept, new_cols as int);
        assert(kept[found.at as int] == found.lines@[found.at as int]@);
        laid_out_split(kept, found.at as int, new_cols as int);
        spot_in_rows(kept[found.at as int], new_cols as int, found.offset as int);
    }
    let start: usize = starts[found.at];
    let total: usize = rows.len();
    let ghost both = grid::lines_of(scrollback@) + grid::lines_of(primary@);
    let new_blocks = move_blocks(
        blocks,
        &found,
        &starts,
        total,
        new_rows,
        new_cols,
        Ghost(both),
    );
    let over: usize = if total > new_rows { total - new_rows } else { 0 };
    let blanks: usize = if total < new_rows { new_rows - total } else { 0 };
    let mut shown = rows.split_off(over);
    proof {
        assert(grid::lines_of(rows@) =~= full.take(over as int));
        assert(grid::lines_of(shown@) =~= full.skip(over as int));
    }
    let new_scrollback = into_scrollback(rows);
    let mut lines = grid::blank_rows(blanks, new_cols);
    let ghost above = lines@;
    let ghost below = shown@;
    lines.append(&mut shown);
    assert(grid::lines_of(lines@) =~= grid::lines_of(above) + grid::lines_of(below));
    let wanted: usize = start + row_in_line;
    let row: usize = if wanted < over { 0 } else { wanted - over + blanks };
    proof {
        let model = grid::lines_of(lines@);
        assert forall|i: int| 0 <= i < new_rows implies (#[trigger] model[i]).cells.len()
            == new_cols by {
            if i < blanks {
                assert(model[i] == screen::blank_line(new_cols as int));
            } else {
                assert(model[i] == full[i - blanks + over]);
            }
        }
        assert(grid::lines_of(new_scrollback@).len() == new_scrollback@.len());
        assert forall|i: int| 0 <= i < blocks@.len() implies (
        #[trigger] new_blocks@[i]).start_row < new_scrollback@.len() + new_rows by {
            row_laid_out_bounds(both, kept, blocks@[i].start_row as int, new_cols as int);
        }
    }
    ReflowResult {
        lines,
        scrollback: new_scrollback,
        cursor: Cursor { row, col },
        blocks: new_blocks,
    }
}

proof fn ink_concat(a: Seq<Cell>, b: Seq<Cell>)
    ensures
        ink(a + b) == ink(a) + ink(b),
    decreases b.len(),
{
    if b.len() == 0 {
        assert(a + b =~= a);
        assert(ink(a) + ink(b) =~= ink(a));
    } else {
        ink_concat(a, b.drop_last());
        assert((a + b).drop_last() =~= a + b.drop_last());
        assert((ink(a) + ink(b.drop_last())).push(b.last()) =~= ink(a) + ink(b.drop_last()).push(
            b.last(),
        ));
    }
}

proof fn ink_of_blanks(cells: Seq<Cell>)
    requires
        forall|i: int| 0 <= i < cells.len() ==> is_blank(#[trigger] cells[i]),
    ensures
        ink(cells) == Seq::<Cell>::empty(),
    decreases cells.len(),
{
    if cells.len() > 0 {
        let before = cells.drop_last();
        assert forall|i: int| 0 <= i < before.len() implies is_blank(#[trigger] before[i]) by {
            assert(before[i] == cells[i]);
        }
        ink_of_blanks(before);
        assert(is_blank(cells.last()));
    }
}

proof fn ink_of_trimmed(cells: Seq<Cell>)
    ensures
        ink(trimmed(cells)) == ink(cells),
    decreases cells.len(),
{
    if ends_blank(cells) {
        ink_of_trimmed(cells.drop_last());
    }
}

proof fn trimmed_blanks(cells: Seq<Cell>)
    requires
        forall|i: int| 0 <= i < cells.len() ==> is_blank(#[trigger] cells[i]),
    ensures
        trimmed(cells).len() == 0,
    decreases cells.len(),
{
    if cells.len() > 0 {
        let before = cells.drop_last();
        assert forall|i: int| 0 <= i < before.len() implies is_blank(#[trigger] before[i]) by {
            assert(before[i] == cells[i]);
        }
        assert(ends_blank(cells)) by {
            assert(is_blank(cells[cells.len() - 1]));
            if cells.len() > 1 {
                assert(is_blank(cells[cells.len() - 2]));
            }
        }
        trimmed_blanks(before);
    }
}

proof fn ink_of_padded(cells: Seq<Cell>, cols: int, wrapped: bool)
    requires
        cells.len() <= cols,
    ensures
        ink(content(padded(cells, cols, wrapped))) == ink(cells),
{
    let row = padded(cells, cols, wrapped).cells;
    let tail = Seq::new((cols - cells.len()) as nat, |i: int| Cell::space());
    assert(row =~= cells + tail);
    ink_concat(cells, tail);
    ink_of_blanks(tail);
    ink_of_trimmed(row);
    assert(ink(cells) + Seq::<Cell>::empty() =~= ink(cells));
}

/// Gathering the rows of a line gives the line back, as far as its glyphs go.
proof fn gather_broken(g: Gathered, line: Seq<Cell>, cols: int)
    requires
        cols >= 1,
    ensures
        gather(g, broken(line, cols)).lines.len() == g.lines.len() + 1,
        gather(g, broken(line, cols)).lines.drop_last() == g.lines,
        gather(g, broken(line, cols)).open.len() == 0,
        ink(gather(g, broken(line, cols)).lines.last()) == ink(g.open) + ink(line),
    decreases line.len(),
{
    let n = first_take(line, cols);
    if 0 < n < line.len() {
        let first = padded(line.take(n), cols, true);
        let rest = broken(line.skip(n), cols);
        gather_concat(g, seq![first], rest);
        one_row(g, first);
        let next = gather(g, seq![first]);
        gather_broken(next, line.skip(n), cols);
        ink_concat(g.open, first.cells);
        ink_of_padded(line.take(n), cols, true);
        ink_concat(line.take(n), line.skip(n));
        assert(line =~= line.take(n) + line.skip(n));
        assert((ink(g.open) + ink(line.take(n))) + ink(line.skip(n)) =~= ink(g.open) + ink(line));
    } else {
        let only = padded(line, cols, false);
        one_row(g, only);
        ink_concat(g.open, content(only));
        ink_of_padded(line, cols, false);
        assert(g.lines.push(g.open + content(only)).drop_last() =~= g.lines);
    }
}

proof fn one_row(g: Gathered, row: Line)
    ensures
        gather(g, seq![row]) == g.and(row),
{
    let rows = seq![row];
    assert(rows.drop_last() =~= Seq::<Line>::empty());
    assert(gather(g, rows.drop_last()) == g);
}

/// Gathering what was laid out gives the lines back, as far as their glyphs go.
proof fn gather_laid_out(lines: Seq<Seq<Cell>>, cols: int)
    requires
        cols >= 1,
    ensures
        gather(Gathered::nothing(), laid_out(lines, cols)).open.len() == 0,
        gather(Gathered::nothing(), laid_out(lines, cols)).lines.len() == lines.len(),
        forall|i: int|
            0 <= i < lines.len() ==> ink(
                #[trigger] gather(Gathered::nothing(), laid_out(lines, cols)).lines[i],
            ) == ink(lines[i]),
    decreases lines.len(),
{
    if lines.len() > 0 {
        let before = lines.drop_last();
        gather_laid_out(before, cols);
        let g = gather(Gathered::nothing(), laid_out(before, cols));
        gather_concat(Gathered::nothing(), laid_out(before, cols), broken(lines.last(), cols));
        gather_broken(g, lines.last(), cols);
        let all = gather(Gathered::nothing(), laid_out(lines, cols));
        assert(all.lines.drop_last() == g.lines);
        assert(ink(g.open) =~= Seq::<Cell>::empty());
        assert(ink(g.open) + ink(lines.last()) =~= ink(lines.last()));
        assert forall|i: int| 0 <= i < lines.len() implies ink(#[trigger] all.lines[i]) == ink(
            lines[i],
        ) by {
            if i < before.len() {
                assert(all.lines[i] == all.lines.drop_last()[i]);
                assert(before[i] == lines[i]);
                assert(ink(g.lines[i]) == ink(before[i]));
            }
        }
    }
}

/// Blank rows add only empty lines.
proof fn gather_blank_lines(g: Gathered, rows: int, cols: int)
    requires
        g.open.len() == 0,
        rows >= 0,
    ensures
        gather(g, screen::blank_lines(rows, cols)).open.len() == 0,
        gather(g, screen::blank_lines(rows, cols)).lines.len() == g.lines.len() + rows,
        forall|i: int|
            0 <= i < g.lines.len() + rows ==> #[trigger] gather(
                g,
                screen::blank_lines(rows, cols),
            ).lines[i] == if i < g.lines.len() {
                g.lines[i]
            } else {
                Seq::<Cell>::empty()
            },
    decreases rows,
{
    let all = screen::blank_lines(rows, cols);
    if rows > 0 {
        assert(all.drop_last() =~= screen::blank_lines(rows - 1, cols));
        gather_blank_lines(g, rows - 1, cols);
        trimmed_blanks(all.last().cells);
        let before = gather(g, all.drop_last());
        assert(before.open + content(all.last()) =~= Seq::<Cell>::empty());
    }
}

/// The lines of `lines` behind `g`: the first of them goes on where `g` left a
/// line open.
pub open spec fn joined(g: Gathered, lines: Seq<Seq<Cell>>) -> Seq<Seq<Cell>> {
    g.lines + lines.update(0, g.open + lines[0])
}

/// What gathering from `g` gives, by what gathering from nothing gives.
proof fn gather_from(g: Gathered, rows: Seq<Line>)
    ensures
        ({
            let n = gather(Gathered::nothing(), rows);
            gather(g, rows) == if n.lines.len() == 0 {
                Gathered { lines: g.lines, open: g.open + n.open }
            } else {
                Gathered { lines: joined(g, n.lines), open: n.open }
            }
        }),
    decreases rows.len(),
{
    let n = gather(Gathered::nothing(), rows);
    if rows.len() == 0 {
        assert(gather(g, rows) =~= Gathered { lines: g.lines, open: g.open + n.open });
    } else {
        let front = rows.drop_last();
        gather_from(g, front);
        let m = gather(Gathered::nothing(), front);
        let row = rows.last();
        assert((g.open + m.open) + content(row) =~= g.open + (m.open + content(row)));
        if m.lines.len() == 0 {
            if !row.wrapped {
                let line = m.open + content(row);
                assert(m.lines.push(line) =~= seq![line]);
                assert(g.lines.push(g.open + line) =~= joined(g, seq![line]));
            }
        } else if !row.wrapped {
            let line = m.open + content(row);
            assert(joined(g, m.lines).push(line) =~= joined(g, m.lines.push(line)));
        }
    }
}

/// Blank rows above add as many empty lines at the front, and nothing else.
proof fn lines_below_blanks(rows: Seq<Line>, k: int, cols: int)
    requires
        k >= 0,
    ensures
        logical_lines(screen::blank_lines(k, cols) + rows).len() == k + logical_lines(rows).len(),
        forall|i: int|
            0 <= i < k + logical_lines(rows).len() ==> #[trigger] logical_lines(
                screen::blank_lines(k, cols) + rows,
            )[i] == if i < k {
                Seq::<Cell>::empty()
            } else {
                logical_lines(rows)[i - k]
            },
{
    let none = Gathered::nothing();
    let blanks = screen::blank_lines(k, cols);
    let g = gather(none, blanks);
    let n = gather(none, rows);
    gather_blank_lines(none, k, cols);
    gather_concat(none, blanks, rows);
    gather_from(g, rows);
    assert(g.open =~= Seq::<Cell>::empty());
    assert(g.open + n.open =~= n.open);
    if n.lines.len() > 0 {
        assert(g.open + n.lines[0] =~= n.lines[0]);
        assert(n.lines.update(0, n.lines[0]) =~= n.lines);
    } else {
        assert(g.lines + n.lines =~= g.lines);
    }
    assert(gather(g, rows) =~= Gathered { lines: g.lines + n.lines, open: n.open });
    assert(logical_lines(blanks + rows) =~= g.lines + logical_lines(rows));
}

/// The rows after a reflow, where the scrollback has room for them all.
proof fn reflowed_rows(
    scrollback: Seq<Line>,
    lines: Seq<Line>,
    cursor: Cursor,
    old_cols: int,
    rows: int,
    cols: int,
)
    requires
        rows >= 1,
        laid_out(kept_lines(scrollback, lines, cursor), cols).len() <= rows + DEFAULT_SCROLLBACK,
    ensures
        ({
            let after = reflowed(scrollback, lines, cursor, old_cols, rows, cols);
            after.scrollback + after.lines == screen::blank_lines(
                blanks_above(scrollback, lines, cursor, rows, cols),
                cols,
            ) + laid_out(kept_lines(scrollback, lines, cursor), cols)
        }),
{
    let after = reflowed(scrollback, lines, cursor, old_cols, rows, cols);
    let all = laid_out(kept_lines(scrollback, lines, cursor), cols);
    let blanks = screen::blank_lines(blanks_above(scrollback, lines, cursor, rows, cols), cols);
    assert(after.scrollback + after.lines =~= blanks + all);
}

/// A row that does not run on, behind one that does not either, is a logical line
/// of its own.
pub proof fn line_of_unjoined_row(rows: Seq<Line>, i: int)
    requires
        0 <= i < rows.len(),
        !rows[i].wrapped,
        i > 0 ==> !rows[i - 1].wrapped,
    ensures
        ({
            let line = gather(Gathered::nothing(), rows.take(i)).lines.len() as int;
            &&& line < logical_lines(rows).len()
            &&& logical_lines(rows)[line] == trimmed(rows[i].cells)
            &&& gather(Gathered::nothing(), rows.take(i + 1)).lines.len() == line + 1
        }),
{
    let none = Gathered::nothing();
    let g = gather(none, rows.take(i));
    if i > 0 {
        assert(rows.take(i).last() == rows[i - 1]);
    }
    assert(g.open =~= Seq::<Cell>::empty());
    let h = gather(none, rows.take(i + 1));
    assert(rows.take(i + 1).drop_last() =~= rows.take(i));
    assert(g.open + content(rows[i]) =~= trimmed(rows[i].cells));
    assert(h.lines == g.lines.push(trimmed(rows[i].cells)));
    assert(rows =~= rows.take(i + 1) + rows.skip(i + 1));
    gather_concat(none, rows.take(i + 1), rows.skip(i + 1));
    gather_from(h, rows.skip(i + 1));
}

/// The rows of the first lines come first.
proof fn laid_out_split(lines: Seq<Seq<Cell>>, at: int, cols: int)
    requires
        0 <= at < lines.len(),
    ensures
        laid_out(lines.take(at), cols).len() + broken(lines[at], cols).len() <= laid_out(
            lines,
            cols,
        ).len(),
        laid_out(lines, cols).take(
            (laid_out(lines.take(at), cols).len() + broken(lines[at], cols).len()) as int,
        ) == laid_out(lines.take(at), cols) + broken(lines[at], cols),
    decreases lines.len(),
{
    let front = laid_out(lines.take(at), cols) + broken(lines[at], cols);
    if at == lines.len() - 1 {
        assert(lines.take(at) =~= lines.drop_last());
        assert(front.take(front.len() as int) =~= front);
    } else {
        let before = lines.drop_last();
        laid_out_split(before, at, cols);
        assert(before.take(at) =~= lines.take(at));
        assert(laid_out(lines, cols).take(front.len() as int) =~= laid_out(before, cols).take(
            front.len() as int,
        ));
    }
}

/// Rows that all run on close no line.
proof fn gather_running_on(g: Gathered, rows: Seq<Line>)
    requires
        forall|r: int| 0 <= r < rows.len() ==> (#[trigger] rows[r]).wrapped,
    ensures
        gather(g, rows).lines == g.lines,
    decreases rows.len(),
{
    if rows.len() > 0 {
        let before = rows.drop_last();
        assert forall|r: int| 0 <= r < before.len() implies (#[trigger] before[r]).wrapped by {
            assert(before[r] == rows[r]);
        }
        gather_running_on(g, before);
        assert(rows.last().wrapped);
    }
}

/// A reflow loses nothing: the logical lines before and after hold the same
/// glyphs, line by line and in the same order, below the blank rows at the top
/// and apart from empty lines at the end. Lines that ended with a newline are not
/// joined, and rows that were linked by wrapping are. What does not fit the
/// scrollback is not spoken of.
pub proof fn reflow_keeps_content(
    scrollback: Seq<Line>,
    lines: Seq<Line>,
    cursor: Cursor,
    old_cols: int,
    rows: int,
    cols: int,
)
    requires
        rows >= 1,
        cols >= 1,
        laid_out(kept_lines(scrollback, lines, cursor), cols).len() <= rows + DEFAULT_SCROLLBACK,
    ensures
        ({
            let after = reflowed(scrollback, lines, cursor, old_cols, rows, cols);
            let blanks = blanks_above(scrollback, lines, cursor, rows, cols);
            forall|i: int|
                #[trigger] ink_at(logical_lines(after.scrollback + after.lines), i) == ink_at(
                    logical_lines(scrollback + lines),
                    i - blanks,
                )
        }),
{
    let none = Gathered::nothing();
    let before = logical_lines(scrollback + lines);
    let kept = kept_lines(scrollback, lines, cursor);
    let all = laid_out(kept, cols);
    let after = reflowed(scrollback, lines, cursor, old_cols, rows, cols);
    let k = blanks_above(scrollback, lines, cursor, rows, cols);
    reflowed_rows(scrollback, lines, cursor, old_cols, rows, cols);
    lines_below_blanks(all, k, cols);
    gather_laid_out(kept, cols);
    let again = logical_lines(after.scrollback + after.lines);
    empty_tail_facts(before, cursor_line(scrollback, lines, cursor) + 1);
    assert forall|i: int| #[trigger] ink_at(again, i) == ink_at(before, i - k) by {
        let j = i - k;
        if 0 <= j < kept.len() {
            assert(again[i] == gather(none, all).lines[j]);
            assert(kept[j] == before[j]);
        } else if 0 <= j {
            if j < before.len() {
                assert(before[j].len() == 0);
                assert(ink(before[j]) =~= Seq::<Cell>::empty());
            }
        } else if 0 <= i {
            assert(again[i] == Seq::<Cell>::empty());
        }
    }
}

/// A wide glyph is not split: where a line is cut, the two cells on both sides of
/// the cut are not the halves of one glyph. A single column leaves no choice.
pub proof fn cut_splits_no_wide_glyph(line: Seq<Cell>, cols: int)
    requires
        cols >= 2,
    ensures
        ({
            let n = first_take(line, cols);
            0 < n < line.len() ==> !is_wide_pair(line[n - 1], line[n])
        }),
{
}

/// Where a reflow has to drop rows because the scrollback is full, it drops the
/// oldest ones and no others.
pub proof fn reflow_drops_only_oldest(
    scrollback: Seq<Line>,
    lines: Seq<Line>,
    cursor: Cursor,
    old_cols: int,
    rows: int,
    cols: int,
)
    requires
        rows >= 1,
    ensures
        ({
            let after = reflowed(scrollback, lines, cursor, old_cols, rows, cols);
            let all = laid_out(kept_lines(scrollback, lines, cursor), cols);
            let padded = screen::blank_lines(math::max(rows - all.len(), 0), cols) + all;
            after.scrollback + after.lines == screen::keep_last(padded, rows + DEFAULT_SCROLLBACK)
        }),
{
    let after = reflowed(scrollback, lines, cursor, old_cols, rows, cols);
    let all = laid_out(kept_lines(scrollback, lines, cursor), cols);
    let over = math::max(all.len() - rows, 0);
    let padded = screen::blank_lines(math::max(rows - all.len(), 0), cols) + all;
    if all.len() > rows {
        assert(screen::blank_lines(math::max(rows - all.len(), 0), cols) =~= Seq::<Line>::empty());
    }
    assert(after.scrollback + after.lines =~= screen::keep_last(
        padded,
        rows + DEFAULT_SCROLLBACK,
    ));
}

/// Gathering the rows down to one of a line's own rows leaves that line open.
proof fn gather_down_to(kept: Seq<Seq<Cell>>, at: int, n: int, blanks: int, cols: int)
    requires
        cols >= 1,
        blanks >= 0,
        0 <= at < kept.len(),
        0 <= n < broken(kept[at], cols).len(),
    ensures
        ({
            let first = laid_out(kept.take(at), cols);
            let rows = screen::blank_lines(blanks, cols) + laid_out(kept, cols);
            let g = gather(Gathered::nothing(), rows.take(blanks + first.len() + n));
            &&& g.lines.len() == blanks + at
            &&& g.open == gather(Gathered::nothing(), broken(kept[at], cols).take(n)).open
            &&& n == 0 ==> g.open.len() == 0
        }),
{
    let none = Gathered::nothing();
    let all = laid_out(kept, cols);
    let above = screen::blank_lines(blanks, cols);
    let first = laid_out(kept.take(at), cols);
    let own = broken(kept[at], cols);
    laid_out_split(kept, at, cols);
    broken_facts(kept[at], cols);
    let m = first.len() + n;
    assert((above + all).take(blanks + m) =~= above + all.take(m));
    assert(all.take(m) =~= all.take((first.len() + own.len()) as int).take(m));
    assert(all.take(m) =~= first + own.take(n));
    assert forall|r: int| 0 <= r < n implies (#[trigger] own.take(n)[r]).wrapped by {
        assert(own.take(n)[r] == own[r]);
    }
    gather_laid_out(kept.take(at), cols);
    gather_concat(none, first, own.take(n));
    gather_running_on(gather(none, first), own.take(n));
    gather_running_on(none, own.take(n));
    gather_from(gather(none, first), own.take(n));
    let own_open = gather(none, own.take(n)).open;
    assert(gather(none, first).open + own_open =~= own_open);
    let g = gather(none, above);
    let inner = gather(none, all.take(m));
    gather_blank_lines(none, blanks, cols);
    gather_concat(none, above, all.take(m));
    gather_from(g, all.take(m));
    assert(g.open + inner.open =~= inner.open);
    if n == 0 {
        assert(own.take(n) =~= Seq::<Line>::empty());
        assert(inner == gather(none, first));
    }
}

/// A row stands among the rows there are after a reflow.
pub proof fn moved_row_bounds(
    scrollback: Seq<Line>,
    lines: Seq<Line>,
    cursor: Cursor,
    rows: int,
    cols: int,
    at: int,
)
    requires
        rows >= 1,
        cols >= 1,
        kept_lines(scrollback, lines, cursor).len() > 0,
    ensures
        0 <= moved_row(scrollback, lines, cursor, rows, cols, at) < rows + DEFAULT_SCROLLBACK,
{
    let kept = kept_lines(scrollback, lines, cursor);
    row_laid_out_bounds(scrollback + lines, kept, at, cols);
}

/// A reflow puts the cursor in a column.
pub proof fn reflowed_cursor_inside(
    scrollback: Seq<Line>,
    lines: Seq<Line>,
    cursor: Cursor,
    old_cols: int,
    rows: int,
    cols: int,
)
    requires
        1 <= cols <= usize::MAX,
        old_cols >= 0,
    ensures
        reflowed(scrollback, lines, cursor, old_cols, rows, cols).cursor.col < cols,
{
    let kept = kept_lines(scrollback, lines, cursor);
    let at = cursor_line(scrollback, lines, cursor);
    spot_in_rows(kept[at], cols, cursor_offset(scrollback, lines, cursor, old_cols));
}

/// A reflow keeps the cursor in its logical line, unless the cursor's row no
/// longer fits on the screen.
pub proof fn reflow_keeps_cursor_line(
    scrollback: Seq<Line>,
    lines: Seq<Line>,
    cursor: Cursor,
    old_cols: int,
    rows: int,
    cols: int,
)
    requires
        1 <= rows <= usize::MAX,
        1 <= cols <= usize::MAX,
        old_cols >= 1,
        cursor.row < lines.len(),
        forall|r: int| 0 <= r < lines.len() ==> (#[trigger] lines[r]).cells.len() > 0,
        laid_out(kept_lines(scrollback, lines, cursor), cols).len() <= rows + DEFAULT_SCROLLBACK,
        cursor_row_laid_out(scrollback, lines, cursor, old_cols, cols) >= laid_out(
            kept_lines(scrollback, lines, cursor),
            cols,
        ).len() - rows,
    ensures
        ({
            let after = reflowed(scrollback, lines, cursor, old_cols, rows, cols);
            cursor_line(after.scrollback, after.lines, after.cursor) == cursor_line(
                scrollback,
                lines,
                cursor,
            ) + blanks_above(scrollback, lines, cursor, rows, cols)
        }),
{
    let kept = kept_lines(scrollback, lines, cursor);
    let all = laid_out(kept, cols);
    let over = math::max(all.len() - rows, 0);
    let k = blanks_above(scrollback, lines, cursor, rows, cols);
    let after = reflowed(scrollback, lines, cursor, old_cols, rows, cols);
    let at = cursor_line(scrollback, lines, cursor);
    let offset = cursor_offset(scrollback, lines, cursor, old_cols);
    cursor_line_is_kept(scrollback, lines, cursor);
    laid_out_split(kept, at, cols);
    spot_in_rows(kept[at], cols, offset);
    let n = spot(kept[at], cols, offset).0;
    let m = laid_out(kept.take(at), cols).len() + n;
    reflowed_rows(scrollback, lines, cursor, old_cols, rows, cols);
    assert(after.cursor.row == m - over + k);
    assert(after.scrollback.len() == over);
    assert(after.scrollback + after.lines.take(after.cursor.row as int) =~= (after.scrollback
        + after.lines).take(k + m));
    gather_down_to(kept, at, n, k, cols);
}

/// A reflow keeps a row's first cell in its logical line, below the blank rows at
/// the top; the row in which a line starts stays the row in which it starts. So
/// the row of a prompt stays the row of that prompt. A row of the empty ones at
/// the end is not spoken of.
pub proof fn reflow_keeps_line_of_row(
    scrollback: Seq<Line>,
    lines: Seq<Line>,
    cursor: Cursor,
    old_cols: int,
    rows: int,
    cols: int,
    at: int,
)
    requires
        rows >= 1,
        cols >= 1,
        laid_out(kept_lines(scrollback, lines, cursor), cols).len() <= rows + DEFAULT_SCROLLBACK,
        gather(Gathered::nothing(), (scrollback + lines).take(at)).lines.len() < kept_lines(
            scrollback,
            lines,
            cursor,
        ).len(),
    ensures
        ({
            let after = reflowed(scrollback, lines, cursor, old_cols, rows, cols);
            let to = moved_row(scrollback, lines, cursor, rows, cols, at);
            let g = gather(Gathered::nothing(), (scrollback + lines).take(at));
            let h = gather(Gathered::nothing(), (after.scrollback + after.lines).take(to));
            &&& h.lines.len() == g.lines.len() + blanks_above(
                scrollback,
                lines,
                cursor,
                rows,
                cols,
            )
            &&& g.open.len() == 0 ==> h.open.len() == 0
        }),
{
    let kept = kept_lines(scrollback, lines, cursor);
    let k = blanks_above(scrollback, lines, cursor, rows, cols);
    let g = gather(Gathered::nothing(), (scrollback + lines).take(at));
    let line = g.lines.len() as int;
    spot_in_rows(kept[line], cols, g.open.len() as int);
    let n = spot(kept[line], cols, g.open.len() as int).0;
    reflowed_rows(scrollback, lines, cursor, old_cols, rows, cols);
    gather_down_to(kept, line, n, k, cols);
    if g.open.len() == 0 {
        assert(n == 0);
    }
}

/// The logical lines of `before + rows`, by those of `rows`.
proof fn lines_behind(before: Seq<Line>, rows: Seq<Line>)
    requires
        rows.len() > 0,
        forall|r: int| 0 <= r < rows.len() ==> (#[trigger] rows[r]).cells.len() > 0,
    ensures
        logical_lines(rows).len() > 0,
        logical_lines(before + rows) == joined(
            gather(Gathered::nothing(), before),
            logical_lines(rows),
        ),
{
    let none = Gathered::nothing();
    let g = gather(none, before);
    let n = gather(none, rows);
    gather_concat(none, before, rows);
    gather_from(g, rows);
    gather_grows(none, rows);
    if n.lines.len() == 0 {
        assert(logical_lines(rows) =~= seq![n.open]);
        assert(logical_lines(before + rows) =~= joined(g, logical_lines(rows)));
    } else if n.open.len() > 0 {
        assert(joined(g, n.lines).push(n.open) =~= joined(g, n.lines.push(n.open)));
    }
}

/// Where a logical line goes when `blanks` empty ones are put in before line `at`.
pub open spec fn opened_up(i: int, at: int, blanks: int) -> int {
    if i < at {
        i
    } else if i < at + blanks {
        -1
    } else {
        i - blanks
    }
}

/// A reflow of the primary screen alone, with the rows that no longer fit put
/// behind the scrollback, loses nothing either. Blank rows come in between where
/// the content does not fill the screen; a line that runs on from the scrollback
/// into the screen would be cut there, and is not spoken of.
pub proof fn reflow_behind_scrollback_keeps_content(
    scrollback: Seq<Line>,
    lines: Seq<Line>,
    cursor: Cursor,
    old_cols: int,
    rows: int,
    cols: int,
)
    requires
        rows >= 1,
        cols >= 1,
        cursor.row < lines.len(),
        forall|r: int| 0 <= r < lines.len() ==> (#[trigger] lines[r]).cells.len() > 0,
        laid_out(kept_lines(Seq::empty(), lines, cursor), cols).len() <= rows + DEFAULT_SCROLLBACK,
        blanks_above(Seq::empty(), lines, cursor, rows, cols) == 0 || scrollback.len() == 0
            || !scrollback.last().wrapped,
    ensures
        ({
            let after = reflowed(Seq::empty(), lines, cursor, old_cols, rows, cols);
            let blanks = blanks_above(Seq::empty(), lines, cursor, rows, cols);
            let at = gather(Gathered::nothing(), scrollback).lines.len() as int;
            forall|i: int|
                #[trigger] ink_at(
                    logical_lines(scrollback + after.scrollback + after.lines),
                    i,
                ) == ink_at(logical_lines(scrollback + lines), opened_up(i, at, blanks))
        }),
{
    let none = Gathered::nothing();
    let nothing = Seq::<Line>::empty();
    let g = gather(none, scrollback);
    let own = logical_lines(lines);
    assert(nothing + lines =~= lines);
    let kept = kept_lines(nothing, lines, cursor);
    let all = laid_out(kept, cols);
    let k = blanks_above(nothing, lines, cursor, rows, cols);
    let after = reflowed(nothing, lines, cursor, old_cols, rows, cols);
    let new_rows = after.scrollback + after.lines;
    reflow_keeps_content(nothing, lines, cursor, old_cols, rows, cols);
    reflowed_rows(nothing, lines, cursor, old_cols, rows, cols);
    let own2 = logical_lines(new_rows);
    assert(scrollback + after.scrollback + after.lines =~= scrollback + new_rows);
    lines_behind(scrollback, lines);
    laid_out_width(kept, cols);
    assert forall|r: int| 0 <= r < new_rows.len() implies (#[trigger] new_rows[r]).cells.len()
        > 0 by {
        if r >= k {
            assert(new_rows[r] == all[r - k]);
        } else {
            assert(new_rows[r] == screen::blank_line(cols));
        }
    }
    assert(new_rows.len() >= rows);
    lines_behind(scrollback, new_rows);
    assert(k == 0 || g.open.len() == 0);
    let before_all = joined(g, own);
    let after_all = joined(g, own2);
    let m = g.lines.len() as int;
    assert forall|i: int| #[trigger]
        ink_at(after_all, i) == ink_at(before_all, opened_up(i, m, k)) by {
        joined_ink(g, own, own2, k, i);
    }
}

proof fn joined_ink(g: Gathered, own: Seq<Seq<Cell>>, own2: Seq<Seq<Cell>>, k: int, i: int)
    requires
        k >= 0,
        own.len() > 0,
        own2.len() > 0,
        k == 0 || g.open.len() == 0,
        forall|j: int| #[trigger] ink_at(own2, j) == ink_at(own, j - k),
    ensures
        ink_at(joined(g, own2), i) == ink_at(joined(g, own), opened_up(i, g.lines.len() as int, k)),
{
    let m = g.lines.len() as int;
    let before = joined(g, own);
    let after = joined(g, own2);
    let j = i - m;
    ink_concat(g.open, own[0]);
    ink_concat(g.open, own2[0]);
    if 0 <= j {
        assert(ink_at(own2, j) == ink_at(own, j - k));
        assert(ink_at(own2, 0) == ink_at(own, -k));
        if g.open.len() == 0 {
            assert(g.open + own[0] =~= own[0]);
            assert(g.open + own2[0] =~= own2[0]);
        }
        if j < own2.len() {
            assert(after[i] == if j == 0 {
                g.open + own2[0]
            } else {
                own2[j]
            });
        }
        if 0 <= j - k < own.len() {
            assert(before[i - k] == if j == k {
                g.open + own[0]
            } else {
                own[j - k]
            });
        }
    } else if 0 <= i {
        assert(after[i] == g.lines[i] && before[i] == g.lines[i]);
    }
}

proof fn trimmed_concat(a: Seq<Cell>, b: Seq<Cell>)
    requires
        narrow(b),
    ensures
        trimmed(a + trimmed(b)) == trimmed(a + b),
    decreases b.len(),
{
    if ends_blank(b) {
        let front = b.drop_last();
        assert forall|c: int| 0 <= c < front.len() implies (#[trigger] front[c]).ch
            != WIDE_CONT by {
            assert(front[c] == b[c]);
        }
        assert(b[b.len() - 1].ch != WIDE_CONT);
        trimmed_concat(a, front);
        assert((a + b).drop_last() =~= a + front);
        assert(ends_blank(a + b));
    }
}

proof fn trimmed_padded(cells: Seq<Cell>, cols: int)
    requires
        cells.len() <= cols,
    ensures
        trimmed(padded(cells, cols, false).cells) == trimmed(cells),
{
    let row = padded(cells, cols, false).cells;
    let tail = Seq::new((cols - cells.len()) as nat, |i: int| Cell::space());
    assert(row =~= cells + tail);
    trimmed_blanks(tail);
    trimmed_concat(cells, tail);
    assert(cells + trimmed(tail) =~= cells);
}

/// Gathering the rows of a line without wide glyphs gives the line's text back.
proof fn gather_broken_text(g: Gathered, line: Seq<Cell>, cols: int)
    requires
        cols >= 1,
        narrow(line),
    ensures
        gather(g, broken(line, cols)).lines.len() == g.lines.len() + 1,
        trimmed(gather(g, broken(line, cols)).lines.last()) == trimmed(g.open + line),
    decreases line.len(),
{
    let n = first_take(line, cols);
    gather_broken(g, line, cols);
    if 0 < n < line.len() {
        let first = padded(line.take(n), cols, true);
        let rest = line.skip(n);
        assert(!is_wide_pair(line[n - 1], line[n]));
        assert(n == cols);
        assert(first.cells =~= line.take(n));
        assert forall|c: int| 0 <= c < rest.len() implies (#[trigger] rest[c]).ch != WIDE_CONT by {
            assert(rest[c] == line[c + n]);
        }
        gather_concat(g, seq![first], broken(rest, cols));
        one_row(g, first);
        gather_broken_text(gather(g, seq![first]), rest, cols);
        assert((g.open + line.take(n)) + rest =~= g.open + line);
    } else {
        one_row(g, padded(line, cols, false));
        trimmed_padded(line, cols);
        trimmed_concat(g.open, line);
    }
}

proof fn gather_laid_out_text(lines: Seq<Seq<Cell>>, cols: int)
    requires
        cols >= 1,
    ensures
        gather(Gathered::nothing(), laid_out(lines, cols)).lines.len() == lines.len(),
        forall|i: int|
            0 <= i < lines.len() && narrow(lines[i]) ==> trimmed(
                #[trigger] gather(Gathered::nothing(), laid_out(lines, cols)).lines[i],
            ) == trimmed(lines[i]),
    decreases lines.len(),
{
    gather_laid_out(lines, cols);
    if lines.len() > 0 {
        let before = lines.drop_last();
        gather_laid_out(before, cols);
        gather_laid_out_text(before, cols);
        let g = gather(Gathered::nothing(), laid_out(before, cols));
        gather_concat(Gathered::nothing(), laid_out(before, cols), broken(lines.last(), cols));
        gather_broken(g, lines.last(), cols);
        if narrow(lines.last()) {
            gather_broken_text(g, lines.last(), cols);
        }
        let all = gather(Gathered::nothing(), laid_out(lines, cols));
        assert(g.open + lines.last() =~= lines.last());
        assert forall|i: int| 0 <= i < lines.len() && narrow(lines[i]) implies trimmed(
            #[trigger] all.lines[i],
        ) == trimmed(lines[i]) by {
            if i < before.len() {
                assert(all.lines[i] == all.lines.drop_last()[i]);
                assert(before[i] == lines[i]);
                assert(trimmed(g.lines[i]) == trimmed(before[i]));
            }
        }
    }
}

/// A reflow keeps the text of every line without wide glyphs cell for cell,
/// spaces between words included, below the blank rows at the top; only blanks
/// at the end of the line may come or go.
pub proof fn reflow_keeps_text(
    scrollback: Seq<Line>,
    lines: Seq<Line>,
    cursor: Cursor,
    old_cols: int,
    rows: int,
    cols: int,
)
    requires
        rows >= 1,
        cols >= 1,
        laid_out(kept_lines(scrollback, lines, cursor), cols).len() <= rows + DEFAULT_SCROLLBACK,
    ensures
        ({
            let after = reflowed(scrollback, lines, cursor, old_cols, rows, cols);
            let blanks = blanks_above(scrollback, lines, cursor, rows, cols);
            forall|i: int|
                narrow_at(logical_lines(scrollback + lines), i - blanks) ==> #[trigger] text_at(
                    logical_lines(after.scrollback + after.lines),
                    i,
                ) == text_at(logical_lines(scrollback + lines), i - blanks)
        }),
{
    let none = Gathered::nothing();
    let before = logical_lines(scrollback + lines);
    let kept = kept_lines(scrollback, lines, cursor);
    let all = laid_out(kept, cols);
    let after = reflowed(scrollback, lines, cursor, old_cols, rows, cols);
    let k = blanks_above(scrollback, lines, cursor, rows, cols);
    empty_tail_facts(before, cursor_line(scrollback, lines, cursor) + 1);
    reflowed_rows(scrollback, lines, cursor, old_cols, rows, cols);
    lines_below_blanks(all, k, cols);
    gather_laid_out(kept, cols);
    gather_laid_out_text(kept, cols);
    let again = logical_lines(after.scrollback + after.lines);
    assert forall|i: int| narrow_at(before, i - k) implies #[trigger] text_at(again, i)
        == text_at(before, i - k) by {
        let j = i - k;
        if 0 <= j < kept.len() {
            assert(again[i] == gather(none, all).lines[j]);
            assert(kept[j] == before[j]);
        } else if 0 <= j {
            if j < before.len() {
                assert(before[j].len() == 0);
                assert(before[j] =~= Seq::<Cell>::empty());
            }
        } else if 0 <= i {
            assert(again[i] == Seq::<Cell>::empty());
        }
    }
}

proof fn closed_up_push(cells: Seq<Cell>, c: Cell)
    requires
        !(cells.len() > 0 && is_wide_pair(cells.last(), c)),
    ensures
        closed_up(cells.push(c)) == closed_up(cells).push(c),
{
    assert(cells.push(c).drop_last() =~= cells);
}

proof fn closed_up_end(cells: Seq<Cell>)
    requires
        cells.len() > 0,
    ensures
        closed_up(cells).len() > 0,
        closed_up(cells).last() == cells.last(),
{
}

proof fn trimmed_push(cells: Seq<Cell>, c: Cell)
    requires
        ends_blank(cells.push(c)),
    ensures
        trimmed(cells.push(c)) == trimmed(cells),
{
    assert(cells.push(c).drop_last() =~= cells);
}

proof fn trimmed_unspaced(cells: Seq<Cell>)
    ensures
        trimmed(unspaced(cells)) == trimmed(cells),
    decreases cells.len(),
{
    if cells.len() > 0 && cells.last().ch == ' ' {
        trimmed_unspaced(cells.drop_last());
    }
}

/// Blanks cut off at the end of what is behind `a` make no difference, unless a
/// wide glyph lies across.
proof fn closed_up_trimmed(a: Seq<Cell>, b: Seq<Cell>)
    requires
        !(a.len() > 0 && b.len() > 0 && is_wide_pair(a.last(), b[0])),
    ensures
        trimmed(closed_up(a + trimmed(b))) == trimmed(closed_up(a + b)),
    decreases b.len(),
{
    if ends_blank(b) {
        let n = b.len() as int;
        let front = b.drop_last();
        let c = b.last();
        let whole = a + front;
        closed_up_trimmed(a, front);
        assert(a + b =~= whole.push(c));
        if c.ch == ' ' {
            closed_up_push(whole, c);
            trimmed_push(closed_up(whole), c);
        } else if n >= 2 && b[n - 2].ch == ' ' {
            let before = a + b.take(n - 2);
            let z = unspaced(closed_up(before));
            let sp = b[n - 2];
            assert(whole =~= before.push(sp));
            assert((a + b).take(a.len() + n - 2) =~= before);
            assert((a + b).skip(a.len() + n - 2) =~= seq![sp, c]);
            assert(closed_up(a + b) == z + seq![sp, c]);
            assert(z + seq![sp, c] =~= z.push(sp).push(c));
            trimmed_push(z.push(sp), c);
            trimmed_push(z, sp);
            trimmed_unspaced(closed_up(before));
            closed_up_push(before, sp);
            trimmed_push(closed_up(before), sp);
        } else {
            assert(whole.len() > 0 ==> whole.last().ch == WIDE_CONT);
            closed_up_push(whole, c);
            if whole.len() > 0 {
                closed_up_end(whole);
            }
            trimmed_push(closed_up(whole), c);
        }
    }
}

/// A space before a wide glyph makes no difference.
proof fn closed_up_gap(a: Seq<Cell>, sp: Cell, b: Seq<Cell>)
    requires
        sp.ch == ' ',
        b.len() >= 2,
        is_wide_pair(b[0], b[1]),
    ensures
        closed_up(a.push(sp) + b) == closed_up(a + b),
    decreases b.len(),
{
    let n = b.len() as int;
    let with = a.push(sp) + b;
    let without = a + b;
    if is_wide_pair(b[n - 2], b[n - 1]) {
        let front = b.take(n - 2);
        assert(with.take(with.len() - 2) =~= a.push(sp) + front);
        assert(without.take(without.len() - 2) =~= a + front);
        assert(with.skip(with.len() - 2) =~= without.skip(without.len() - 2));
        if n == 2 {
            assert(a.push(sp) + front =~= a.push(sp));
            assert(a + front =~= a);
            closed_up_push(a, sp);
            assert(closed_up(a).push(sp).drop_last() =~= closed_up(a));
        } else {
            closed_up_gap(a, sp, front);
        }
    } else {
        let front = b.drop_last();
        assert(with.drop_last() =~= a.push(sp) + front);
        assert(without.drop_last() =~= a + front);
        closed_up_gap(a, sp, front);
    }
}

/// Gathering the rows of a line gives its text back, but for spaces right before
/// a wide glyph.
proof fn gather_broken_closed(g: Gathered, line: Seq<Cell>, cols: int)
    requires
        cols >= 2,
        !(g.open.len() > 0 && line.len() > 0 && is_wide_pair(g.open.last(), line[0])),
    ensures
        gather(g, broken(line, cols)).lines.len() == g.lines.len() + 1,
        trimmed(closed_up(gather(g, broken(line, cols)).lines.last())) == trimmed(
            closed_up(g.open + line),
        ),
    decreases line.len(),
{
    let n = first_take(line, cols);
    gather_broken(g, line, cols);
    if 0 < n < line.len() {
        let first = padded(line.take(n), cols, true);
        let rest = line.skip(n);
        let start = g.open + line.take(n);
        gather_concat(g, seq![first], broken(rest, cols));
        one_row(g, first);
        let next = gather(g, seq![first]);
        cut_splits_no_wide_glyph(line, cols);
        assert(next.open == g.open + first.cells);
        assert(rest[0] == line[n]);
        if n == cols {
            assert(first.cells =~= line.take(n));
            assert(next.open =~= start);
            assert(next.open.last() == line[n - 1]);
        } else {
            assert(n == cols - 1 && is_wide_pair(line[n], line[n + 1]));
            assert(rest[1] == line[n + 1]);
            assert(first.cells =~= line.take(n).push(Cell::space()));
            assert(next.open =~= start.push(Cell::space()));
            closed_up_gap(start, Cell::space(), rest);
        }
        gather_broken_closed(next, rest, cols);
        assert(start + rest =~= g.open + line);
        assert(closed_up(next.open + rest) == closed_up(g.open + line));
    } else {
        one_row(g, padded(line, cols, false));
        trimmed_padded(line, cols);
        closed_up_trimmed(g.open, line);
    }
}

proof fn gather_laid_out_closed(lines: Seq<Seq<Cell>>, cols: int)
    requires
        cols >= 2,
    ensures
        gather(Gathered::nothing(), laid_out(lines, cols)).lines.len() == lines.len(),
        forall|i: int|
            0 <= i < lines.len() ==> trimmed(
                closed_up(#[trigger] gather(Gathered::nothing(), laid_out(lines, cols)).lines[i]),
            ) == trimmed(closed_up(lines[i])),
    decreases lines.len(),
{
    gather_laid_out(lines, cols);
    if lines.len() > 0 {
        let before = lines.drop_last();
        gather_laid_out(before, cols);
        gather_laid_out_closed(before, cols);
        let g = gather(Gathered::nothing(), laid_out(before, cols));
        gather_concat(Gathered::nothing(), laid_out(before, cols), broken(lines.last(), cols));
        gather_broken(g, lines.last(), cols);
        gather_broken_closed(g, lines.last(), cols);
        let all = gather(Gathered::nothing(), laid_out(lines, cols));
        assert(g.open + lines.last() =~= lines.last());
        assert forall|i: int| 0 <= i < lines.len() implies trimmed(
            closed_up(#[trigger] all.lines[i]),
        ) == trimmed(closed_up(lines[i])) by {
            if i < before.len() {
                assert(all.lines[i] == all.lines.drop_last()[i]);
                assert(before[i] == lines[i]);
                assert(trimmed(closed_up(g.lines[i])) == trimmed(closed_up(before[i])));
            }
        }
    }
}

/// A reflow to two columns or more keeps the text of every line cell for cell,
/// but for spaces right before a wide glyph and blanks at the end of the line.
pub proof fn reflow_keeps_closed_text(
    scrollback: Seq<Line>,
    lines: Seq<Line>,
    cursor: Cursor,
    old_cols: int,
    rows: int,
    cols: int,
)
    requires
        rows >= 1,
        cols >= 2,
        laid_out(kept_lines(scrollback, lines, cursor), cols).len() <= rows + DEFAULT_SCROLLBACK,
    ensures
        ({
            let after = reflowed(scrollback, lines, cursor, old_cols, rows, cols);
            let blanks = blanks_above(scrollback, lines, cursor, rows, cols);
            forall|i: int|
                #[trigger] closed_text_at(logical_lines(after.scrollback + after.lines), i)
                    == closed_text_at(logical_lines(scrollback + lines), i - blanks)
        }),
{
    let none = Gathered::nothing();
    let before = logical_lines(scrollback + lines);
    let kept = kept_lines(scrollback, lines, cursor);
    let all = laid_out(kept, cols);
    let after = reflowed(scrollback, lines, cursor, old_cols, rows, cols);
    let k = blanks_above(scrollback, lines, cursor, rows, cols);
    empty_tail_facts(before, cursor_line(scrollback, lines, cursor) + 1);
    reflowed_rows(scrollback, lines, cursor, old_cols, rows, cols);
    lines_below_blanks(all, k, cols);
    gather_laid_out(kept, cols);
    gather_laid_out_closed(kept, cols);
    let again = logical_lines(after.scrollback + after.lines);
    assert forall|i: int| #[trigger] closed_text_at(again, i) == closed_text_at(before, i - k) by {
        let j = i - k;
        if 0 <= j < kept.len() {
            assert(again[i] == gather(none, all).lines[j]);
            assert(kept[j] == before[j]);
        } else if 0 <= j {
            if j < before.len() {
                assert(before[j].len() == 0);
                assert(before[j] =~= Seq::<Cell>::empty());
            }
        } else if 0 <= i {
            assert(again[i] == Seq::<Cell>::empty());
        }
    }
}

/// The part of the cursor's logical line that stands before the cursor.
pub open spec fn before_cursor(scrollback: Seq<Line>, lines: Seq<Line>, cursor: Cursor) -> Seq<
    Cell,
> {
    above_cursor(scrollback, lines, cursor).open + lines[cursor.row as int].cells.take(
        cursor.col as int,
    )
}

/// The logical line that the cursor is in.
pub open spec fn line_under_cursor(
    scrollback: Seq<Line>,
    lines: Seq<Line>,
    cursor: Cursor,
) -> Seq<Cell> {
    logical_lines(scrollback + lines)[cursor_line(scrollback, lines, cursor)]
}

/// What stands before a spot in the rows of a line, and what stands there.
proof fn spot_facts(line: Seq<Cell>, cols: int, offset: int)
    requires
        cols >= 1,
        offset >= 0,
    ensures
        ({
            let (n, c) = spot(line, cols, offset);
            let own = broken(line, cols);
            let part = gather(Gathered::nothing(), own.take(n)).open + own[n].cells.take(c);
            &&& 0 <= n < own.len()
            &&& 0 <= c < cols
            &&& own[n].cells.len() == cols
            &&& offset < line.len() ==> {
                &&& own[n].cells[c] == line[offset]
                &&& ink(part) == ink(line.take(offset))
                &&& part.len() >= offset
                &&& narrow(line) ==> part == line.take(offset)
                &&& c <= offset
                &&& own[n].cells.take(c) == line.subrange(offset - c, offset)
            }
            &&& offset >= line.len() ==> {
                &&& !own[n].wrapped
                &&& c == cols - 1 || forall|k: int|
                    c <= k < cols ==> #[trigger] own[n].cells[k] == Cell::space()
                &&& narrow(line) ==> part.len() == offset || part.len() < offset && c == cols - 1
            }
        }),
    decreases line.len(),
{
    let none = Gathered::nothing();
    let (n, c) = spot(line, cols, offset);
    let own = broken(line, cols);
    let taken = first_take(line, cols);
    spot_in_rows(line, cols, offset);
    broken_facts(line, cols);
    if 0 < taken < line.len() && offset >= taken {
        let first = padded(line.take(taken), cols, true);
        let rest = line.skip(taken);
        let below = broken(rest, cols);
        spot_facts(rest, cols, offset - taken);
        assert(own == seq![first] + below);
        assert(own.take(n) =~= seq![first] + below.take(n - 1));
        assert(own[n] == below[n - 1]);
        broken_facts(rest, cols);
        assert forall|r: int| 0 <= r < n - 1 implies (#[trigger] below.take(n - 1)[r]).wrapped by {
            assert(below.take(n - 1)[r] == below[r]);
        }
        gather_concat(none, seq![first], below.take(n - 1));
        one_row(none, first);
        gather_running_on(none, below.take(n - 1));
        gather_from(none.and(first), below.take(n - 1));
        let open = gather(none, below.take(n - 1)).open;
        let inner = open + own[n].cells.take(c);
        let part = gather(none, own.take(n)).open + own[n].cells.take(c);
        assert(none.open + first.cells =~= first.cells);
        assert(part =~= first.cells + inner);
        if offset < line.len() {
            ink_concat(first.cells, inner);
            ink_of_padded(line.take(taken), cols, true);
            assert(line.take(offset) =~= line.take(taken) + rest.take(offset - taken));
            ink_concat(line.take(taken), rest.take(offset - taken));
            assert(rest.subrange(offset - taken - c, offset - taken) =~= line.subrange(
                offset - c,
                offset,
            ));
        }
        if narrow(line) {
            assert(line[taken].ch != WIDE_CONT);
            assert(taken == math::min(line.len() as int, cols)) by {
                let t = math::min(line.len() as int, cols);
                if 1 < t < line.len() {
                    assert(line[t].ch != WIDE_CONT);
                }
            }
            assert(first.cells =~= line.take(taken));
            assert forall|i: int| 0 <= i < rest.len() implies (#[trigger] rest[i]).ch
                != WIDE_CONT by {
                assert(rest[i] == line[i + taken]);
            }
            if offset < line.len() {
                assert(line.take(offset) =~= line.take(taken) + rest.take(offset - taken));
            }
        }
    } else {
        assert(own.take(0) =~= Seq::<Line>::empty());
        let part = gather(none, own.take(n)).open + own[n].cells.take(c);
        assert(part =~= own[0].cells.take(c));
        if offset < line.len() {
            assert(offset < taken);
            assert(own[0].cells.take(c) =~= line.take(offset));
            assert(line.subrange(0, offset) =~= line.take(offset));
        }
    }
}

/// What stands before the cursor, by the logical line it is in.
proof fn before_cursor_in_line(
    scrollback: Seq<Line>,
    lines: Seq<Line>,
    cursor: Cursor,
    cols: int,
)
    requires
        cols >= 1,
        cursor.row < lines.len(),
        cursor.col <= cols,
        forall|r: int| 0 <= r < lines.len() ==> (#[trigger] lines[r]).cells.len() == cols,
    ensures
        ({
            let line = line_under_cursor(scrollback, lines, cursor);
            let part = before_cursor(scrollback, lines, cursor);
            part.len() < line.len() ==> {
                &&& line.take(part.len() as int) == part
                &&& cursor.col < cols ==> line[part.len() as int]
                    == lines[cursor.row as int].cells[cursor.col as int]
            }
        }),
{
    let none = Gathered::nothing();
    let at = cursor.row as int;
    let c = cursor.col as int;
    let row = lines[at];
    let g = above_cursor(scrollback, lines, cursor);
    let upto = scrollback + lines.take(at);
    let all = scrollback + lines;
    let below = lines.skip(at + 1);
    assert(all =~= (upto + seq![row]) + below);
    gather_concat(none, upto + seq![row], below);
    gather_concat(none, upto, seq![row]);
    one_row(g, row);
    let h = g.and(row);
    gather_from(h, below);
    let line = line_under_cursor(scrollback, lines, cursor);
    let part = before_cursor(scrollback, lines, cursor);
    assert(part.len() == g.open.len() + c);
    if row.wrapped {
        let own = g.open + row.cells;
        assert(h.open == own);
        let m = gather(none, below);
        assert(line =~= own + if m.lines.len() > 0 {
            m.lines[0]
        } else {
            m.open
        });
        assert(line.take(part.len() as int) =~= part);
    } else {
        let own = g.open + trimmed(row.cells);
        assert(h.lines == g.lines.push(own));
        assert(line == own);
        trimmed_is_start(row.cells);
        if part.len() < line.len() {
            assert(line.take(part.len() as int) =~= part);
        }
    }
}

proof fn trimmed_is_start(cells: Seq<Cell>)
    ensures
        trimmed(cells).len() <= cells.len(),
        trimmed(cells) == cells.take(trimmed(cells).len() as int),
    decreases cells.len(),
{
    if ends_blank(cells) {
        trimmed_is_start(cells.drop_last());
        let n = trimmed(cells).len() as int;
        assert(cells.drop_last().take(n) =~= cells.take(n));
    } else {
        assert(cells.take(cells.len() as int) =~= cells);
    }
}

/// A reflow keeps the cursor in its place. A cursor on a cell of its line stands on
/// that cell afterwards, with the same glyphs before it and the very same cells left
/// of it in its row; where the line has no wide glyphs, with the very same cells
/// before it. A cursor behind the end of its line stands in the line's last row, with
/// nothing behind it, as far behind the line's start as before, or in the last column
/// where that is too far. A cursor whose row no longer fits on the
/// screen is not spoken of.
pub proof fn reflow_keeps_cursor_place(
    scrollback: Seq<Line>,
    lines: Seq<Line>,
    cursor: Cursor,
    old_cols: int,
    rows: int,
    cols: int,
)
    requires
        1 <= rows <= usize::MAX,
        1 <= cols <= usize::MAX,
        old_cols >= 1,
        cursor.row < lines.len(),
        cursor.col <= old_cols,
        forall|r: int| 0 <= r < lines.len() ==> (#[trigger] lines[r]).cells.len() == old_cols,
        laid_out(kept_lines(scrollback, lines, cursor), cols).len() <= rows + DEFAULT_SCROLLBACK,
        cursor_row_laid_out(scrollback, lines, cursor, old_cols, cols) >= laid_out(
            kept_lines(scrollback, lines, cursor),
            cols,
        ).len() - rows,
    ensures
        ({
            let after = reflowed(scrollback, lines, cursor, old_cols, rows, cols);
            keeps_cursor_place(
                scrollback,
                lines,
                cursor,
                after.scrollback,
                after.lines,
                after.cursor,
                cols,
            )
        }),
{
    let kept = kept_lines(scrollback, lines, cursor);
    let all = laid_out(kept, cols);
    let over = math::max(all.len() - rows, 0);
    let k = blanks_above(scrollback, lines, cursor, rows, cols);
    let after = reflowed(scrollback, lines, cursor, old_cols, rows, cols);
    let at = cursor_line(scrollback, lines, cursor);
    let offset = cursor_offset(scrollback, lines, cursor, old_cols);
    let line = line_under_cursor(scrollback, lines, cursor);
    let part = before_cursor(scrollback, lines, cursor);
    assert(lines[cursor.row as int].cells.len() == old_cols);
    assert(part.len() == offset);
    cursor_line_is_kept(scrollback, lines, cursor);
    empty_tail_facts(logical_lines(scrollback + lines), at + 1);
    assert(kept[at] == line);
    laid_out_split(kept, at, cols);
    let (n, c) = spot(line, cols, offset);
    spot_facts(line, cols, offset);
    let first = laid_out(kept.take(at), cols);
    let own = broken(line, cols);
    let m = first.len() + n;
    reflowed_rows(scrollback, lines, cursor, old_cols, rows, cols);
    assert(after.cursor.row == m - over + k);
    assert(after.scrollback.len() == over);
    assert(after.scrollback + after.lines.take(after.cursor.row as int) =~= (after.scrollback
        + after.lines).take(k + m));
    gather_down_to(kept, at, n, k, cols);
    assert(all[m] == own[n]) by {
        let front = all.take((first.len() + own.len()) as int);
        assert(front[m] == all[m]);
        assert((first + own)[m] == own[n]);
    }
    assert(after.lines[after.cursor.row as int] == own[n]) by {
        let r = after.cursor.row as int;
        let blanks = screen::blank_lines(k, cols);
        if all.len() > rows {
            assert(k == 0);
            assert(after.lines =~= all.skip(over));
        } else {
            assert(over == 0);
            assert(after.lines =~= blanks + all);
        }
    }
    before_cursor_in_line(scrollback, lines, cursor, old_cols);
    if offset < line.len() {
        assert(part.skip(offset - c) =~= line.subrange(offset - c, offset));
    }
}

/// A cursor whose row does not fit on the screen any more goes to the top row; every
/// other cursor that stood on a cell stands on that cell, also where the scrollback has
/// no room for all rows.
pub proof fn reflow_keeps_cursor_cell(
    scrollback: Seq<Line>,
    lines: Seq<Line>,
    cursor: Cursor,
    old_cols: int,
    rows: int,
    cols: int,
)
    requires
        1 <= rows <= usize::MAX,
        1 <= cols <= usize::MAX,
        cursor.row < lines.len(),
        cursor.col < old_cols,
        forall|r: int| 0 <= r < lines.len() ==> (#[trigger] lines[r]).cells.len() == old_cols,
    ensures
        ({
            let after = reflowed(scrollback, lines, cursor, old_cols, rows, cols);
            let fits = cursor_row_laid_out(scrollback, lines, cursor, old_cols, cols) >= laid_out(
                kept_lines(scrollback, lines, cursor),
                cols,
            ).len() - rows;
            let line = line_under_cursor(scrollback, lines, cursor);
            &&& !fits ==> after.cursor.row == 0
            &&& fits && before_cursor(scrollback, lines, cursor).len() < line.len()
                ==> after.lines[after.cursor.row as int].cells[after.cursor.col as int]
                == lines[cursor.row as int].cells[cursor.col as int]
        }),
{
    let kept = kept_lines(scrollback, lines, cursor);
    let all = laid_out(kept, cols);
    let over = math::max(all.len() - rows, 0);
    let k = blanks_above(scrollback, lines, cursor, rows, cols);
    let after = reflowed(scrollback, lines, cursor, old_cols, rows, cols);
    let at = cursor_line(scrollback, lines, cursor);
    let offset = cursor_offset(scrollback, lines, cursor, old_cols);
    let line = line_under_cursor(scrollback, lines, cursor);
    assert(lines[cursor.row as int].cells.len() == old_cols);
    cursor_line_is_kept(scrollback, lines, cursor);
    empty_tail_facts(logical_lines(scrollback + lines), at + 1);
    assert(kept[at] == line);
    laid_out_split(kept, at, cols);
    let (n, c) = spot(line, cols, offset);
    spot_facts(line, cols, offset);
    let first = laid_out(kept.take(at), cols);
    let own = broken(line, cols);
    let m = first.len() + n;
    before_cursor_in_line(scrollback, lines, cursor, old_cols);
    if m >= all.len() - rows {
        assert(after.cursor.row == m - over + k);
        assert(all[m] == own[n]) by {
            let front = all.take((first.len() + own.len()) as int);
            assert(front[m] == all[m]);
            assert((first + own)[m] == own[n]);
        }
        assert(after.lines[after.cursor.row as int] == own[n]) by {
            if all.len() > rows {
                assert(k == 0);
                assert(after.lines =~= all.skip(over));
            } else {
                assert(over == 0);
                assert(after.lines =~= screen::blank_lines(k, cols) + all);
            }
        }
    }
}

/// That a cursor keeps its place when the rows are laid out anew, `cols` wide.
pub open spec fn keeps_cursor_place(
    scrollback: Seq<Line>,
    lines: Seq<Line>,
    cursor: Cursor,
    new_scrollback: Seq<Line>,
    new_lines: Seq<Line>,
    new_cursor: Cursor,
    cols: int,
) -> bool {
    let line = line_under_cursor(scrollback, lines, cursor);
    let old = before_cursor(scrollback, lines, cursor);
    let new = before_cursor(new_scrollback, new_lines, new_cursor);
    let old_row = lines[cursor.row as int];
    let new_row = new_lines[new_cursor.row as int];
    &&& new_cursor.row < new_lines.len()
    &&& new_cursor.col < new_row.cells.len()
    &&& old.len() < line.len() ==> {
        &&& cursor.col < old_row.cells.len() ==> new_row.cells[new_cursor.col as int]
            == old_row.cells[cursor.col as int]
        &&& ink(new) == ink(old)
        &&& new.len() >= old.len()
        &&& narrow(line) ==> new == old
        &&& new_cursor.col <= old.len()
        &&& new_row.cells.take(new_cursor.col as int) == old.skip(old.len() - new_cursor.col)
    }
    &&& old.len() >= line.len() ==> {
        &&& !new_row.wrapped
        &&& new_cursor.col == cols - 1 || forall|k: int|
            new_cursor.col <= k < cols ==> #[trigger] new_row.cells[k] == Cell::space()
        &&& narrow(line) ==> new.len() == old.len() || new.len() < old.len() && new_cursor.col
            == cols - 1
    }
}

/// What is trimmed off a row are spaces and right halves of wide glyphs that do not
/// follow their left half; it ends with a glyph then, or is empty.
pub proof fn trimming_drops_only_blanks(cells: Seq<Cell>)
    ensures
        ({
            let n = trimmed(cells).len() as int;
            &&& n <= cells.len()
            &&& trimmed(cells) == cells.take(n)
            &&& forall|i: int|
                n <= i < cells.len() ==> (#[trigger] cells[i]).ch == ' ' || cells[i].ch == '\0'
            &&& n > 0 ==> cells[n - 1].ch != ' '
            &&& n > 0 && cells[n - 1].ch == '\0' ==> n > 1 && cells[n - 2].ch != ' ' && cells[n
                - 2].ch != '\0'
        }),
    decreases cells.len(),
{
    if ends_blank(cells) {
        let front = cells.drop_last();
        trimming_drops_only_blanks(front);
        let n = trimmed(cells).len() as int;
        assert(front.take(n) =~= cells.take(n));
        assert forall|i: int| n <= i < cells.len() implies (#[trigger] cells[i]).ch == ' '
            || cells[i].ch == '\0' by {
            if i < front.len() {
                assert(front[i] == cells[i]);
            }
        }
        if n > 0 {
            assert(front[n - 1] == cells[n - 1]);
        }
        if n > 1 {
            assert(front[n - 2] == cells[n - 2]);
        }
    } else {
        assert(cells.take(cells.len() as int) =~= cells);
    }
}

/// The glyphs of a line are its cells that are neither a space nor the right half of a
/// wide glyph, all of them and in order.
pub proof fn glyphs_are_all_but_blanks(cells: Seq<Cell>, c: Cell)
    ensures
        ink(Seq::empty()) == Seq::<Cell>::empty(),
        c.ch == ' ' || c.ch == '\0' ==> ink(cells.push(c)) == ink(cells),
        c.ch != ' ' && c.ch != '\0' ==> ink(cells.push(c)) == ink(cells).push(c),
{
    assert(cells.push(c).drop_last() =~= cells);
}

/// A reflow adds as many empty lines as there are blank rows above, and no other: the
/// content ends in the last row.
pub proof fn reflow_adds_no_lines(
    scrollback: Seq<Line>,
    lines: Seq<Line>,
    cursor: Cursor,
    old_cols: int,
    rows: int,
    cols: int,
)
    requires
        rows >= 1,
        cols >= 1,
        laid_out(kept_lines(scrollback, lines, cursor), cols).len() <= rows + DEFAULT_SCROLLBACK,
    ensures
        ({
            let after = reflowed(scrollback, lines, cursor, old_cols, rows, cols);
            let blanks = blanks_above(scrollback, lines, cursor, rows, cols);
            let kept = kept_lines(scrollback, lines, cursor);
            &&& logical_lines(after.scrollback + after.lines).len() == blanks + kept.len()
            &&& blanks > 0 ==> after.scrollback.len() == 0
            &&& after.lines.len() == rows
        }),
{
    let kept = kept_lines(scrollback, lines, cursor);
    let all = laid_out(kept, cols);
    let k = blanks_above(scrollback, lines, cursor, rows, cols);
    reflowed_rows(scrollback, lines, cursor, old_cols, rows, cols);
    lines_below_blanks(all, k, cols);
    gather_laid_out(kept, cols);
}

proof fn empty_tail_is_gone(lines: Seq<Seq<Cell>>, keep: int)
    requires
        0 < keep <= lines.len(),
    ensures
        ({
            let kept = without_empty_tail(lines, keep);
            kept.len() > 0 && (kept.last().len() > 0 || kept.len() == keep)
        }),
    decreases lines.len(),
{
    if lines.len() > keep && lines.last().len() == 0 {
        empty_tail_is_gone(lines.drop_last(), keep);
    }
}

/// The lines that are laid out are the first ones; those left out are empty and lie
/// below the cursor's.
pub proof fn kept_lines_facts(scrollback: Seq<Line>, lines: Seq<Line>, cursor: Cursor, i: int)
    requires
        cursor.row < lines.len(),
        forall|r: int| 0 <= r < lines.len() ==> (#[trigger] lines[r]).cells.len() > 0,
        0 <= i < logical_lines(scrollback + lines).len(),
    ensures
        ({
            let all = logical_lines(scrollback + lines);
            let kept = kept_lines(scrollback, lines, cursor);
            &&& kept.len() <= all.len()
            &&& i < kept.len() ==> kept[i] == all[i]
            &&& i >= kept.len() ==> all[i].len() == 0 && i > cursor_line(
                scrollback,
                lines,
                cursor,
            )
            &&& cursor_line(scrollback, lines, cursor) < kept.len()
            &&& kept.last().len() > 0 || kept.len() == cursor_line(scrollback, lines, cursor) + 1
        }),
{
    cursor_line_is_kept(scrollback, lines, cursor);
    empty_tail_is_gone(
        logical_lines(scrollback + lines),
        cursor_line(scrollback, lines, cursor) + 1,
    );
    empty_tail_facts(
        logical_lines(scrollback + lines),
        cursor_line(scrollback, lines, cursor) + 1,
    );
}

/// A row that runs on is put whole before the next one; a row that does not ends its
/// logical line, less the blanks at its end. A line that is still open behind the last
/// row counts as a line.
pub proof fn rows_make_lines(rows: Seq<Line>, row: Line)
    ensures
        ({
            let g = gather(Gathered::nothing(), rows);
            let h = gather(Gathered::nothing(), rows.push(row));
            &&& row.wrapped ==> h.lines == g.lines && h.open == g.open + row.cells
            &&& !row.wrapped ==> h.open.len() == 0 && h.lines == g.lines.push(
                g.open + trimmed(row.cells),
            )
            &&& !row.wrapped ==> logical_lines(rows.push(row)) == g.lines.push(
                g.open + trimmed(row.cells),
            )
            &&& row.wrapped && row.cells.len() > 0 ==> logical_lines(rows.push(row))
                == g.lines.push(g.open + row.cells)
            &&& logical_lines(Seq::empty()).len() == 0
        }),
{
    assert(rows.push(row).drop_last() =~= rows);
}

/// A line takes no more rows than it needs: its last cell stands in the last of them,
/// with nothing behind it, and an empty line takes one row.
pub proof fn lines_take_no_spare_rows(line: Seq<Cell>, cols: int)
    requires
        cols >= 1,
    ensures
        ({
            let rows = broken(line, cols);
            &&& line.len() <= cols ==> rows.len() == 1
            &&& line.len() == 0 ==> forall|k: int|
                0 <= k < cols ==> #[trigger] rows[0].cells[k] == Cell::space()
            &&& line.len() > 0 ==> exists|c: int|
                0 <= c < cols && #[trigger] rows.last().cells[c] == line.last() && forall|k: int|
                    c < k < cols ==> #[trigger] rows.last().cells[k] == Cell::space()
        }),
    decreases line.len(),
{
    let n = first_take(line, cols);
    let rows = broken(line, cols);
    broken_facts(line, cols);
    if 0 < n < line.len() {
        let rest = line.skip(n);
        lines_take_no_spare_rows(rest, cols);
        broken_facts(rest, cols);
        assert(rest.last() == line.last());
        assert(rows.last() == broken(rest, cols).last());
    } else if line.len() > 0 {
        let c = line.len() - 1;
        assert(rows.last().cells[c] == line.last());
    }
}

/// The rows of a line are filled one after the other: a row that is not the last holds
/// as many cells as fit, and the next one goes on where it ends. Only where a wide glyph
/// would be split does a row end one cell early, and that cell is empty.
pub proof fn rows_are_filled_in_turn(line: Seq<Cell>, cols: int)
    requires
        cols >= 1,
        line.len() > cols,
    ensures
        ({
            let rows = broken(line, cols);
            let split = cols >= 2 && line[cols - 1].ch != WIDE_CONT && line[cols].ch == WIDE_CONT;
            let n = if split {
                cols - 1
            } else {
                cols
            };
            &&& rows.len() >= 2
            &&& rows[0].wrapped
            &&& rows[0].cells.len() == cols
            &&& rows[0].cells.take(n) == line.take(n)
            &&& split ==> rows[0].cells[cols - 1] == Cell::space()
            &&& rows.skip(1) == broken(line.skip(n), cols)
        }),
{
    let rows = broken(line, cols);
    let n = first_take(line, cols);
    broken_facts(line.skip(n), cols);
    assert(rows[0].cells.take(n) =~= line.take(n));
    assert(rows.skip(1) =~= broken(line.skip(n), cols));
}

} // verus!
