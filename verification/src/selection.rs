//! Text selection with the mouse.
//!
//! A selection is kept in absolute rows, counted from the oldest scrollback row,
//! so that it stays on its text while the view scrolls.

use vstd::math;
use vstd::prelude::*;

use crate::cell::Cell;
use crate::grid::{Grid, WIDE_CONT};
use crate::laws;
use crate::screen::Screen;
use crate::text;

verus! {

/// A place in the grid: absolute row, and column.
#[derive(Debug, Clone, Copy, PartialEq, Eq, Structural)]
pub struct GridPoint {
    pub row: usize,
    pub col: usize,
}

impl GridPoint {
    pub fn new(row: usize, col: usize) -> (r: Self)
        ensures
            r == (GridPoint { row, col }),
    {
        GridPoint { row, col }
    }

    /// Whether `self` comes before `other` in reading order, or is the same.
    pub open spec fn at_or_before(self, other: GridPoint) -> bool {
        self.row < other.row || self.row == other.row && self.col <= other.col
    }
}

/// A selection: where the button went down, and where the mouse is.
#[derive(Debug, Clone, Copy, PartialEq, Eq, Structural)]
pub struct Selection {
    pub anchor: GridPoint,
    pub head: GridPoint,
}

impl Selection {
    /// An empty selection.
    pub fn new(at: GridPoint) -> (r: Self)
        ensures
            r == (Selection { anchor: at, head: at }),
    {
        Selection { anchor: at, head: at }
    }

    /// The mouse was dragged to `to`.
    pub fn update(&mut self, to: GridPoint)
        ensures
            *final(self) == (Selection { head: to, ..*old(self) }),
    {
        self.head = to;
    }

    pub fn is_empty(&self) -> (r: bool)
        ensures
            r == (self.anchor == self.head),
    {
        self.anchor.row == self.head.row && self.anchor.col == self.head.col
    }

    /// First and last point in reading order.
    pub open spec fn ordered(self) -> (GridPoint, GridPoint) {
        if self.anchor.at_or_before(self.head) {
            (self.anchor, self.head)
        } else {
            (self.head, self.anchor)
        }
    }

    /// First and last point in reading order. The last one is exclusive.
    pub fn normalized(&self) -> (r: (GridPoint, GridPoint))
        ensures
            r == self.ordered(),
            r.0.at_or_before(r.1),
    {
        if self.anchor.row < self.head.row || (self.anchor.row == self.head.row && self.anchor.col
            <= self.head.col) {
            (self.anchor, self.head)
        } else {
            (self.head, self.anchor)
        }
    }
}

/// What is left of a selection when the mouse button is released.
pub open spec fn released(selection: Option<Selection>) -> Option<Selection> {
    match selection {
        Some(s) => if s.anchor == s.head {
            None
        } else {
            Some(s)
        },
        None => None,
    }
}

/// A selection that was dragged stays as it is; a mere click leaves none, and none comes
/// from nothing.
pub proof fn clicks_leave_no_selection(selection: Option<Selection>, s: Selection)
    ensures
        released(selection) == Some(s) <==> selection == Some(s) && !(s.anchor.row == s.head.row
            && s.anchor.col == s.head.col),
{
}

/// What a release of the mouse button leaves of a selection: an empty one is
/// dropped, so that a mere click leaves no highlight.
pub fn after_release(selection: Option<Selection>) -> (r: Option<Selection>)
    ensures
        r == match selection {
            Some(s) => if s.anchor == s.head {
                None
            } else {
                Some(s)
            },
            None => None,
        },
        r == released(selection),
{
    match selection {
        Some(s) => {
            if s.is_empty() {
                None
            } else {
                Some(s)
            }
        },
        None => None,
    }
}

/// The absolute row of a row of a view that is scrolled back by `offset` rows, as far
/// as the scrollback reaches.
pub open spec fn absolute_row(view_row: int, offset: int, scrollback_len: int) -> int {
    scrollback_len - math::min(offset, scrollback_len) + view_row
}

/// What a row of the view shows is what stands at its absolute row: a selection made in
/// a view that is scrolled back is on the text that is seen there. Scrolling back by a
/// row moves the view by one, until the oldest row is reached.
pub proof fn absolute_rows_follow_the_view(s: Screen, view_row: int, offset: int)
    requires
        s.wf(),
        offset >= 0,
        0 <= view_row < s.rows(),
    ensures
        ({
            let sb = s.scrollback.len() as int;
            let abs = absolute_row(view_row, offset, sb);
            &&& 0 <= abs < laws::history(s).len()
            &&& laws::history(s)[abs] == s.view_row(view_row, offset)
            &&& absolute_row(view_row, 0, sb) == sb + view_row
            &&& absolute_row(view_row + 1, offset, sb) == abs + 1
            &&& offset < sb ==> absolute_row(view_row, offset + 1, sb) == abs - 1
            &&& offset >= sb ==> abs == view_row
        }),
{
}

/// The absolute row of the first row of a view that is scrolled back.
pub fn first_visible_row(scroll_offset: usize, scrollback_len: usize) -> (r: usize)
    ensures
        r == scrollback_len - math::min(scroll_offset as int, scrollback_len as int),
        r == absolute_row(0, scroll_offset as int, scrollback_len as int),
{
    if scroll_offset < scrollback_len {
        scrollback_len - scroll_offset
    } else {
        0
    }
}

/// The absolute row of a row of the view.
pub fn view_row_to_absolute(view_row: usize, scroll_offset: usize, scrollback_len: usize) -> (r:
    usize)
    requires
        scrollback_len + view_row <= usize::MAX,
    ensures
        r == scrollback_len - math::min(scroll_offset as int, scrollback_len as int) + view_row,
        r == absolute_row(view_row as int, scroll_offset as int, scrollback_len as int),
{
    first_visible_row(scroll_offset, scrollback_len) + view_row
}

/// The characters of cells `from..to`, without the right halves of wide glyphs.
pub open spec fn picked(cells: Seq<Cell>, from: int, to: int) -> Seq<char>
    decreases to - from,
{
    if to <= from {
        Seq::empty()
    } else if cells[to - 1].ch == WIDE_CONT {
        picked(cells, from, to - 1)
    } else {
        picked(cells, from, to - 1).push(cells[to - 1].ch)
    }
}

/// The selected text of one row, without white space at its end.
pub open spec fn row_text(s: Screen, start: GridPoint, end: GridPoint, row: int) -> Seq<char> {
    let cells = laws::history(s)[row].cells;
    let from = if row == start.row {
        math::min(start.col as int, cells.len() as int)
    } else {
        0
    };
    let to = if row == end.row {
        math::min(end.col as int, cells.len() as int)
    } else {
        cells.len() as int
    };
    text::trimmed_end(picked(cells, from, to))
}

/// The selected text of the rows up to `row`, one line each.
pub open spec fn text_up_to(s: Screen, start: GridPoint, end: GridPoint, row: int) -> Seq<char>
    decreases row - start.row,
{
    if row < start.row {
        Seq::empty()
    } else if row == start.row {
        row_text(s, start, end, row)
    } else {
        text_up_to(s, start, end, row - 1).push('\n') + row_text(s, start, end, row)
    }
}

/// The selected text: one line for each row that there is.
pub open spec fn selected_text(selection: Selection, s: Screen) -> Seq<char> {
    let (start, end) = selection.ordered();
    text_up_to(s, start, end, math::min(end.row as int, laws::history(s).len() - 1))
}

/// The row at an absolute index.
fn history_row(grid: &Grid, row: usize) -> (r: &[Cell])
    requires
        grid@.wf(),
        row < grid@.scrollback.len() + grid@.rows(),
    ensures
        r@ == laws::history(grid@)[row as int].cells,
{
    let sb: usize = grid.scrollback_len();
    let found = if row < sb {
        grid.row_at(0, sb - row)
    } else {
        grid.row_at(row - sb, 0)
    };
    match found {
        Some(cells) => cells,
        None => {
            assert(false);
            &[]
        },
    }
}

fn push_row_text(grid: &Grid, start: GridPoint, end: GridPoint, row: usize, out: &mut String)
    requires
        grid@.wf(),
        row < grid@.scrollback.len() + grid@.rows(),
    ensures
        final(out)@ == old(out)@ + row_text(grid@, start, end, row as int),
{
    let cells = history_row(grid, row);
    let len: usize = cells.len();
    let from: usize = if row == start.row && start.col < len {
        start.col
    } else if row == start.row {
        len
    } else {
        0
    };
    let to: usize = if row == end.row && end.col < len { end.col } else { len };
    let mut chars: Vec<char> = Vec::new();
    let mut c: usize = from;
    assert(chars@ =~= picked(cells@, from as int, from as int));
    while c < to
        invariant
            from <= c,
            c <= to || c == from,
            to <= cells@.len(),
            chars@ == picked(cells@, from as int, c as int),
        decreases to - c,
    {
        if cells[c].ch != WIDE_CONT {
            chars.push(cells[c].ch);
        }
        c += 1;
    }
    assert(chars@ =~= picked(cells@, from as int, to as int));
    let n: usize = text::trimmed_end_len(&chars);
    for i in 0..n
        invariant
            n <= chars@.len(),
            out@ == old(out)@ + chars@.take(i as int),
    {
        out.push(chars[i]);
        assert(out@ =~= old(out)@ + chars@.take(i + 1));
    }
}

/// The selected text: one line for each row, without white space at its end.
pub fn selection_to_text(selection: &Selection, grid: &Grid) -> (out: String)
    requires
        grid@.wf(),
    ensures
        ({
            let (start, end) = selection.ordered();
            let last = math::min(end.row as int, laws::history(grid@).len() - 1);
            out@ == text_up_to(grid@, start, end, last)
        }),
        out@ == selected_text(*selection, grid@),
{
    let (start, end) = selection.normalized();
    let total: usize = grid.scrollback_len() + grid.rows();
    let last: usize = if end.row < total { end.row } else { total - 1 };
    let mut out: String = String::new();
    if start.row > last {
        return out;
    }
    push_row_text(grid, start, end, start.row, &mut out);
    assert(out@ =~= text_up_to(grid@, start, end, start.row as int));
    let mut row: usize = start.row;
    while row < last
        invariant
            grid@.wf(),
            start.row <= row <= last,
            last < grid@.scrollback.len() + grid@.rows(),
            out@ == text_up_to(grid@, start, end, row as int),
        decreases last - row,
    {
        row += 1;
        out.push('\n');
        push_row_text(grid, start, end, row, &mut out);
    }
    out
}

/// Whether a cell lies between two points in reading order: at or behind the first,
/// and before the last.
pub open spec fn lies_between(start: GridPoint, end: GridPoint, row: int, col: int) -> bool {
    &&& start.row < row || start.row == row && start.col <= col
    &&& row < end.row || row == end.row && col < end.col
}

/// Whether a cell is selected, whichever end of the selection came first.
pub open spec fn is_selected(selection: Selection, row: int, col: int) -> bool {
    lies_between(selection.anchor, selection.head, row, col) || lies_between(
        selection.head,
        selection.anchor,
        row,
        col,
    )
}

/// The characters of the cells in the columns that `keep` says, without the right
/// halves of wide glyphs.
pub open spec fn chars_where(cells: Seq<Cell>, keep: spec_fn(int) -> bool) -> Seq<char>
    decreases cells.len(),
{
    if cells.len() == 0 {
        Seq::empty()
    } else if cells.last().ch != WIDE_CONT && keep(cells.len() - 1) {
        chars_where(cells.drop_last(), keep).push(cells.last().ch)
    } else {
        chars_where(cells.drop_last(), keep)
    }
}

/// The selected characters of a row of the history.
pub open spec fn selected_in_row(selection: Selection, s: Screen, row: int) -> Seq<char> {
    chars_where(laws::history(s)[row].cells, |col: int| is_selected(selection, row, col))
}

/// Lines put together, with a line feed between each two.
pub open spec fn joined_lines(lines: Seq<Seq<char>>) -> Seq<char>
    decreases lines.len(),
{
    if lines.len() == 0 {
        Seq::empty()
    } else if lines.len() == 1 {
        lines[0]
    } else {
        joined_lines(lines.drop_last()) + seq!['\n'] + lines.last()
    }
}

proof fn picked_of_prefix(cells: Seq<Cell>, from: int, to: int)
    requires
        0 <= from,
        to < cells.len(),
    ensures
        picked(cells.drop_last(), from, to) == picked(cells, from, to),
    decreases to - from,
{
    if from < to {
        picked_of_prefix(cells, from, to - 1);
        assert(cells.drop_last()[to - 1] == cells[to - 1]);
    }
}

proof fn picked_where(cells: Seq<Cell>, from: int, to: int, keep: spec_fn(int) -> bool)
    requires
        0 <= from,
        to <= cells.len(),
        forall|c: int| 0 <= c < cells.len() ==> #[trigger] keep(c) == (from <= c < to),
    ensures
        picked(cells, from, to) == chars_where(cells, keep),
    decreases cells.len(),
{
    if cells.len() > 0 {
        let front = cells.drop_last();
        let last = cells.len() - 1;
        assert(keep(last) == (from <= last < to));
        if to == cells.len() && from <= last {
            picked_of_prefix(cells, from, last);
            picked_where(front, from, last, keep);
        } else if to == cells.len() {
            picked_where(front, from, last, keep);
        } else {
            picked_of_prefix(cells, from, to);
            picked_where(front, from, to, keep);
        }
    }
}

proof fn row_text_is_selected(selection: Selection, s: Screen, row: int)
    requires
        selection.ordered().0.row <= row <= selection.ordered().1.row,
    ensures
        ({
            let (start, end) = selection.ordered();
            row_text(s, start, end, row) == text::trimmed_end(selected_in_row(selection, s, row))
        }),
{
    let (start, end) = selection.ordered();
    let cells = laws::history(s)[row].cells;
    let len = cells.len() as int;
    let from = if row == start.row {
        math::min(start.col as int, len)
    } else {
        0
    };
    let to = if row == end.row {
        math::min(end.col as int, len)
    } else {
        len
    };
    picked_where(cells, from, to, |col: int| is_selected(selection, row, col));
}

proof fn text_is_joined(selection: Selection, s: Screen, row: int)
    requires
        selection.ordered().0.row <= row <= selection.ordered().1.row,
    ensures
        ({
            let (start, end) = selection.ordered();
            text_up_to(s, start, end, row) == joined_lines(
                Seq::new(
                    (row - start.row + 1) as nat,
                    |k: int| text::trimmed_end(selected_in_row(selection, s, start.row + k)),
                ),
            )
        }),
    decreases row,
{
    let (start, end) = selection.ordered();
    let line = |k: int| text::trimmed_end(selected_in_row(selection, s, start.row + k));
    let lines = Seq::new((row - start.row + 1) as nat, line);
    row_text_is_selected(selection, s, row);
    if row > start.row {
        text_is_joined(selection, s, row - 1);
        assert(lines.drop_last() =~= Seq::new((row - start.row) as nat, line));
        assert(lines.last() == row_text(s, start, end, row));
        let above = text_up_to(s, start, end, row - 1);
        assert(above.push('\n') + lines.last() =~= above + seq!['\n'] + lines.last());
    }
}

/// The first of the two rows of a selection.
pub open spec fn first_selected_row(selection: Selection) -> int {
    math::min(selection.anchor.row as int, selection.head.row as int)
}

/// The last of the two rows of a selection.
pub open spec fn last_selected_row(selection: Selection) -> int {
    math::max(selection.anchor.row as int, selection.head.row as int)
}

/// The text that is copied is that of the cells that are selected, in reading
/// order: one line for each row from the first to the last, as far as there are
/// rows, each without the white space at its end. A cell is selected exactly where
/// it lies at or behind the first of the two points and before the other.
pub proof fn copied_text_is_what_is_selected(selection: Selection, s: Screen)
    requires
        s.wf(),
    ensures
        ({
            let first = first_selected_row(selection);
            let last = math::min(last_selected_row(selection), s.scrollback.len() + s.rows() - 1);
            selected_text(selection, s) == joined_lines(
                Seq::new(
                    math::max(last - first + 1, 0) as nat,
                    |k: int| text::trimmed_end(selected_in_row(selection, s, first + k)),
                ),
            )
        }),
{
    let (start, end) = selection.ordered();
    let first = first_selected_row(selection);
    let last = math::min(last_selected_row(selection), s.scrollback.len() + s.rows() - 1);
    assert(first == start.row && last_selected_row(selection) == end.row);
    assert(laws::history(s).len() == s.scrollback.len() + s.rows());
    if first <= last {
        text_is_joined(selection, s, last);
    }
}

proof fn chars_where_nothing(cells: Seq<Cell>, keep: spec_fn(int) -> bool)
    requires
        forall|c: int| 0 <= c < cells.len() ==> !#[trigger] keep(c),
    ensures
        chars_where(cells, keep).len() == 0,
    decreases cells.len(),
{
    if cells.len() > 0 {
        assert(!keep(cells.len() - 1));
        chars_where_nothing(cells.drop_last(), keep);
    }
}

/// What is copied of a row comes from selected cells and from no others, and every
/// selected cell that shows a glyph is copied.
pub proof fn copied_characters_are_selected(cells: Seq<Cell>, keep: spec_fn(int) -> bool, ch: char)
    ensures
        chars_where(cells, keep).contains(ch) <==> exists|c: int|
            0 <= c < cells.len() && #[trigger] keep(c) && cells[c].ch == ch && ch != WIDE_CONT,
        chars_where(cells, keep).len() <= cells.len(),
    decreases cells.len(),
{
    let all = chars_where(cells, keep);
    if cells.len() > 0 {
        let front = cells.drop_last();
        let rest = chars_where(front, keep);
        let last = cells.len() - 1;
        copied_characters_are_selected(front, keep, ch);
        if all.contains(ch) {
            let i = choose|i: int| 0 <= i < all.len() && all[i] == ch;
            if i < rest.len() {
                assert(rest[i] == ch);
                assert(rest.contains(ch));
                let c = choose|c: int|
                    0 <= c < front.len() && #[trigger] keep(c) && front[c].ch == ch;
                assert(keep(c) && cells[c].ch == ch);
            } else {
                assert(keep(last) && cells[last].ch == ch);
            }
        }
        if exists|c: int|
            0 <= c < cells.len() && #[trigger] keep(c) && cells[c].ch == ch && ch != WIDE_CONT {
            let c = choose|c: int|
                0 <= c < cells.len() && #[trigger] keep(c) && cells[c].ch == ch && ch != WIDE_CONT;
            if c < last {
                assert(keep(c) && front[c].ch == ch);
                assert(rest.contains(ch));
                let i = choose|i: int| 0 <= i < rest.len() && rest[i] == ch;
                assert(all[i] == ch);
            } else {
                assert(all[all.len() - 1] == ch);
            }
        }
    }
}

/// It does not matter from which end a selection was dragged, and an empty one
/// copies nothing.
pub proof fn direction_does_not_matter(a: GridPoint, b: GridPoint, s: Screen)
    requires
        s.wf(),
    ensures
        selected_text(Selection { anchor: a, head: b }, s) == selected_text(
            Selection { anchor: b, head: a },
            s,
        ),
        selected_text(Selection { anchor: a, head: a }, s).len() == 0,
{
    let one = Selection { anchor: a, head: a };
    copied_text_is_what_is_selected(one, s);
    let last = math::min(a.row as int, s.scrollback.len() + s.rows() - 1);
    if a.row <= last {
        let row = a.row as int;
        let cells = laws::history(s)[row].cells;
        let keep = |col: int| is_selected(one, row, col);
        assert forall|c: int| 0 <= c < cells.len() implies !#[trigger] keep(c) by {}
        chars_where_nothing(cells, keep);
        row_text_is_selected(one, s, row);
        text::trimming_takes_only_the_end(selected_in_row(one, s, row));
    }
}

} // verus!
