//! What a frame shows: the cells with their colors, the cursor, the underline
//! of a link, the selection and the tab bar, in cells rather than pixels.

use vstd::math;
use vstd::prelude::*;

use crate::cell::Cell;
use crate::grid::{Grid, WIDE_CONT};
use crate::screen::Screen;
use crate::selection;
use crate::theme::{Rgb, Theme};
use crate::view;

verus! {

/// A link under the mouse: row of the view, first column, and the column behind.
#[derive(Debug, Clone, Copy, PartialEq, Eq, Structural)]
pub struct LinkSpan {
    pub row: usize,
    pub start: usize,
    pub end: usize,
}

/// One cell as it is drawn.
#[derive(Debug, Clone, Copy, PartialEq, Eq, Structural)]
pub struct CellPaint {
    /// Row of the view.
    pub row: usize,
    pub col: usize,
    pub ch: char,
    pub fg: Rgb,
    /// Drawn in the link color instead.
    pub linked: bool,
    /// `None`: the surface shows through.
    pub bg: Option<Rgb>,
    /// Two cells wide.
    pub wide: bool,
}

/// Whether a cell belongs to the link under the mouse.
pub open spec fn in_link(link: Option<LinkSpan>, row: int, col: int) -> bool {
    match link {
        Some(l) => l.row == row && l.start <= col < l.end,
        None => false,
    }
}

/// The cell at a column of a row as it is drawn. The right half of a wide glyph
/// is drawn with its left half.
pub open spec fn cell_paint(
    theme: Theme,
    cells: Seq<Cell>,
    row: int,
    col: int,
    cols: int,
    link: Option<LinkSpan>,
) -> Option<CellPaint> {
    let cell = cells[col];
    if cell.ch == WIDE_CONT {
        None
    } else {
        Some(
            CellPaint {
                row: row as usize,
                col: col as usize,
                ch: cell.ch,
                fg: theme.colors(cell).0,
                linked: in_link(link, row, col),
                bg: theme.colors(cell).1,
                wide: col + 1 < cols && col + 1 < cells.len() && cells[col + 1].ch == WIDE_CONT,
            },
        )
    }
}

/// The first `n` cells of a row as they are drawn.
pub open spec fn row_paint(
    theme: Theme,
    cells: Seq<Cell>,
    row: int,
    n: int,
    cols: int,
    link: Option<LinkSpan>,
) -> Seq<CellPaint>
    decreases n,
{
    if n <= 0 {
        Seq::empty()
    } else {
        match cell_paint(theme, cells, row, n - 1, cols, link) {
            Some(p) => row_paint(theme, cells, row, n - 1, cols, link).push(p),
            None => row_paint(theme, cells, row, n - 1, cols, link),
        }
    }
}

/// The first `n` rows of a view scrolled back by `offset` rows as they are drawn.
/// Rows of the scrollback that are longer than the screen is wide are cut off.
pub open spec fn frame_paint(
    theme: Theme,
    s: Screen,
    offset: int,
    n: int,
    link: Option<LinkSpan>,
) -> Seq<CellPaint>
    decreases n,
{
    if n <= 0 {
        Seq::empty()
    } else {
        let cells = s.view_row(n - 1, offset).cells;
        frame_paint(theme, s, offset, n - 1, link) + row_paint(
            theme,
            cells,
            n - 1,
            math::min(cells.len() as int, s.cols()),
            s.cols(),
            link,
        )
    }
}

fn paint_row(
    theme: &Theme,
    cells: &[Cell],
    row: usize,
    cols: usize,
    link: Option<LinkSpan>,
    out: &mut Vec<CellPaint>,
)
    ensures
        final(out)@ == old(out)@ + row_paint(
            *theme,
            cells@,
            row as int,
            math::min(cells@.len() as int, cols as int),
            cols as int,
            link,
        ),
{
    let len: usize = cells.len();
    let n: usize = if len < cols { len } else { cols };
    for c in 0..n
        invariant
            len == cells@.len(),
            n == math::min(len as int, cols as int),
            out@ == old(out)@ + row_paint(
                *theme,
                cells@,
                row as int,
                c as int,
                cols as int,
                link,
            ),
    {
        let cell = &cells[c];
        if cell.ch != WIDE_CONT {
            let (fg, bg) = theme.cell_colors(cell);
            let linked = match link {
                Some(l) => l.row == row && l.start <= c && c < l.end,
                None => false,
            };
            let next: usize = c + 1;
            let wide = next < cols && next < len && cells[next].ch == WIDE_CONT;
            out.push(CellPaint { row, col: c, ch: cell.ch, fg, linked, bg, wide });
        }
        assert(out@ =~= old(out)@ + row_paint(
            *theme,
            cells@,
            row as int,
            c + 1,
            cols as int,
            link,
        ));
    }
}

/// The cells of a frame, row by row.
pub fn frame_cells(theme: &Theme, grid: &Grid, offset: usize, link: Option<LinkSpan>) -> (out: Vec<
    CellPaint,
>)
    requires
        grid@.wf(),
    ensures
        out@ == frame_paint(*theme, grid@, offset as int, grid@.rows(), link),
{
    let rows: usize = grid.rows();
    let cols: usize = grid.cols();
    let mut out: Vec<CellPaint> = Vec::new();
    for r in 0..rows
        invariant
            grid@.wf(),
            rows == grid@.rows(),
            cols == grid@.cols(),
            out@ == frame_paint(*theme, grid@, offset as int, r as int, link),
    {
        if let Some(cells) = grid.row_at(r, offset) {
            paint_row(theme, cells, r, cols, link, &mut out);
        }
    }
    out
}

/// Where a view that is scrolled back by `offset` rows shows the cursor.
pub open spec fn cursor_place(s: Screen, offset: int) -> Option<(usize, usize)> {
    if s.cursor_visible && offset == 0 {
        Some((s.cursor.row, s.clamped_col() as usize))
    } else {
        None
    }
}

/// The cursor is shown on the live screen alone, and only where it is switched on: in
/// its own row, and in its own column, or in the last one where it stands past the
/// margin.
pub proof fn cursor_is_shown_in_its_cell(s: Screen, offset: int)
    requires
        s.wf(),
    ensures
        match cursor_place(s, offset) {
            Some((row, col)) => {
                &&& offset == 0 && s.cursor_visible
                &&& row == s.cursor.row
                &&& col < s.cols()
                &&& s.cursor.col < s.cols() ==> col == s.cursor.col
                &&& s.cursor.col >= s.cols() ==> col + 1 == s.cols()
            },
            None => offset != 0 || !s.cursor_visible,
        },
{
}

/// Where the cursor is drawn: only on the live screen, and where it is visible.
pub fn cursor_cell(grid: &Grid, offset: usize) -> (r: Option<(usize, usize)>)
    requires
        grid@.wf(),
    ensures
        r == if grid@.cursor_visible && offset == 0 {
            Some((grid@.cursor.row, grid@.clamped_col() as usize))
        } else {
            None
        },
        r == cursor_place(grid@, offset as int),
{
    if grid.cursor_visible() && offset == 0 {
        let cursor = grid.cursor();
        let last: usize = grid.cols() - 1;
        let col: usize = if cursor.col < last { cursor.col } else { last };
        Some((cursor.row, col))
    } else {
        None
    }
}

/// The part of a link that is underlined.
pub open spec fn underlined(link: Option<LinkSpan>, rows: int, cols: int) -> Option<LinkSpan> {
    match link {
        Some(l) => if l.row < rows && l.start < l.end <= cols {
            link
        } else {
            None
        },
        None => None,
    }
}

/// The underline is that of the link, whole, or none: none where there is no link, where
/// it is empty, or where it does not lie within the view.
pub proof fn links_are_underlined_whole(link: Option<LinkSpan>, rows: int, cols: int, l: LinkSpan)
    ensures
        underlined(link, rows, cols) == Some(l) <==> link == Some(l) && l.row < rows && l.start
            < l.end && l.end <= cols,
{
}

/// The underline of a link: drawn where the span is not empty and lies within
/// the view.
pub fn link_underline(link: Option<LinkSpan>, rows: usize, cols: usize) -> (r: Option<LinkSpan>)
    ensures
        r == match link {
            Some(l) => if l.row < rows && l.start < l.end <= cols {
                link
            } else {
                None
            },
            None => None,
        },
        r == underlined(link, rows as int, cols as int),
{
    match link {
        Some(l) => {
            if l.row < rows && l.start < cols && l.end <= cols && l.end > l.start {
                Some(l)
            } else {
                None
            }
        },
        None => None,
    }
}

/// Where a row of the view is highlighted by a selection from `start` to `end`,
/// `end` being exclusive.
pub open spec fn selection_in_row(
    s: Screen,
    offset: int,
    start: selection::GridPoint,
    end: selection::GridPoint,
    row: int,
) -> Option<(usize, usize, usize)> {
    let abs = view::first_row(s, offset) + row;
    let from = if abs == start.row {
        math::min(start.col as int, s.cols())
    } else {
        0
    };
    let to = if abs == end.row {
        math::min(end.col as int, s.cols())
    } else {
        s.cols()
    };
    if start.row <= abs <= end.row && from < to {
        Some((row as usize, from as usize, to as usize))
    } else {
        None
    }
}

/// The highlighted spans in the first `n` rows of the view.
pub open spec fn selection_spans_in(
    s: Screen,
    offset: int,
    start: selection::GridPoint,
    end: selection::GridPoint,
    n: int,
) -> Seq<(usize, usize, usize)>
    decreases n,
{
    if n <= 0 {
        Seq::empty()
    } else {
        match selection_in_row(s, offset, start, end, n - 1) {
            Some(span) => selection_spans_in(s, offset, start, end, n - 1).push(span),
            None => selection_spans_in(s, offset, start, end, n - 1),
        }
    }
}

/// The spans of the view that are highlighted.
pub open spec fn highlights(s: Screen, offset: int, sel: Option<selection::Selection>) -> Seq<
    (usize, usize, usize),
> {
    match sel {
        Some(x) => if x.anchor == x.head {
            Seq::empty()
        } else {
            selection_spans_in(s, offset, x.ordered().0, x.ordered().1, s.rows())
        },
        None => Seq::empty(),
    }
}

/// The spans of the view that a selection highlights: row, first column, and the
/// column behind. An empty selection highlights nothing.
pub fn selection_spans(grid: &Grid, offset: usize, sel: Option<selection::Selection>) -> (out: Vec<
    (usize, usize, usize),
>)
    requires
        grid@.wf(),
    ensures
        out@ == match sel {
            Some(s) => if s.anchor == s.head {
                Seq::empty()
            } else {
                selection_spans_in(
                    grid@,
                    offset as int,
                    s.ordered().0,
                    s.ordered().1,
                    grid@.rows(),
                )
            },
            None => Seq::empty(),
        },
        out@ == highlights(grid@, offset as int, sel),
{
    let mut out: Vec<(usize, usize, usize)> = Vec::new();
    let sel = match sel {
        Some(s) => s,
        None => {
            return out;
        },
    };
    if sel.is_empty() {
        return out;
    }
    let (start, end) = sel.normalized();
    let rows: usize = grid.rows();
    let cols: usize = grid.cols();
    let first: usize = selection::first_visible_row(offset, grid.scrollback_len());
    for r in 0..rows
        invariant
            grid@.wf(),
            rows == grid@.rows(),
            cols == grid@.cols(),
            first == view::first_row(grid@, offset as int),
            out@ == selection_spans_in(grid@, offset as int, start, end, r as int),
    {
        let abs: usize = first + r;
        if start.row <= abs && abs <= end.row {
            let from: usize = if abs == start.row && start.col < cols {
                start.col
            } else if abs == start.row {
                cols
            } else {
                0
            };
            let to: usize = if abs == end.row && end.col < cols { end.col } else { cols };
            if from < to {
                out.push((r, from, to));
            }
        }
    }
    out
}

/// Whether a tab can be closed from the tab bar: the only tab cannot.
pub fn tab_has_close_button(count: usize) -> (r: bool)
    ensures
        r == (count > 1),
{
    count > 1
}

/// Whether a separator stands between a tab and its right neighbor.
pub open spec fn is_separated(i: int, active: int, count: int) -> bool {
    i + 1 < count && i != active && i + 1 != active
}

/// Separators stand between two tabs only, and neither left nor right of the one that is
/// shown; between any two others there is one.
pub proof fn separators_stand_between_tabs(i: int, active: int, count: int)
    requires
        0 <= i < count,
        0 <= active < count,
    ensures
        !is_separated(count - 1, active, count),
        !is_separated(active, active, count),
        !is_separated(active - 1, active, count),
        i + 1 < count && (i < active - 1 || i > active) ==> is_separated(i, active, count),
{
}

/// Whether a separator is drawn on the right of a tab: between two tabs of which
/// neither is the one that is shown.
pub fn tab_has_separator(i: usize, active: usize, count: usize) -> (r: bool)
    requires
        i < count,
    ensures
        r == (i + 1 < count && i != active && i + 1 != active),
        r == is_separated(i as int, active as int, count as int),
{
    i + 1 < count && i != active && i + 1 != active
}

/// In reading order, and not the same place.
pub open spec fn before(a: CellPaint, b: CellPaint) -> bool {
    a.row < b.row || a.row == b.row && a.col < b.col
}

proof fn row_paint_in_order(
    theme: Theme,
    cells: Seq<Cell>,
    row: int,
    n: int,
    cols: int,
    link: Option<LinkSpan>,
)
    requires
        0 <= row <= usize::MAX,
        n <= cells.len(),
        n <= usize::MAX,
    ensures
        forall|i: int|
            0 <= i < row_paint(theme, cells, row, n, cols, link).len() ==> {
                let p = #[trigger] row_paint(theme, cells, row, n, cols, link)[i];
                p.row == row && p.col < n && p.ch != WIDE_CONT && p.ch == cells[p.col as int].ch
            },
        forall|i: int, j: int|
            0 <= i < j < row_paint(theme, cells, row, n, cols, link).len() ==> before(
                #[trigger] row_paint(theme, cells, row, n, cols, link)[i],
                #[trigger] row_paint(theme, cells, row, n, cols, link)[j],
            ),
    decreases n,
{
    if n > 0 {
        row_paint_in_order(theme, cells, row, n - 1, cols, link);
    }
}

proof fn frame_paint_in_order(theme: Theme, s: Screen, offset: int, n: int, link: Option<LinkSpan>)
    requires
        s.wf(),
        offset >= 0,
        0 <= n <= s.rows(),
    ensures
        forall|i: int|
            0 <= i < frame_paint(theme, s, offset, n, link).len() ==> {
                let p = #[trigger] frame_paint(theme, s, offset, n, link)[i];
                &&& p.row < n
                &&& p.col < s.cols()
                &&& p.ch != WIDE_CONT
                &&& p.ch == s.view_row(p.row as int, offset).cells[p.col as int].ch
            },
        forall|i: int, j: int|
            0 <= i < j < frame_paint(theme, s, offset, n, link).len() ==> before(
                #[trigger] frame_paint(theme, s, offset, n, link)[i],
                #[trigger] frame_paint(theme, s, offset, n, link)[j],
            ),
    decreases n,
{
    if n > 0 {
        frame_paint_in_order(theme, s, offset, n - 1, link);
        let cells = s.view_row(n - 1, offset).cells;
        let k = math::min(cells.len() as int, s.cols());
        row_paint_in_order(theme, cells, n - 1, k, s.cols(), link);
        let above = frame_paint(theme, s, offset, n - 1, link);
        let here = row_paint(theme, cells, n - 1, k, s.cols(), link);
        let all = frame_paint(theme, s, offset, n, link);
        assert(all == above + here);
        assert forall|i: int| 0 <= i < all.len() implies {
            let p = #[trigger] all[i];
            &&& p.row < n
            &&& p.col < s.cols()
            &&& p.ch != WIDE_CONT
            &&& p.ch == s.view_row(p.row as int, offset).cells[p.col as int].ch
        } by {
            if i < above.len() {
                assert(all[i] == above[i]);
            } else {
                assert(all[i] == here[i - above.len()]);
            }
        }
        assert forall|i: int, j: int| 0 <= i < j < all.len() implies before(
            #[trigger] all[i],
            #[trigger] all[j],
        ) by {
            if j < above.len() {
                assert(all[i] == above[i] && all[j] == above[j]);
            } else if i >= above.len() {
                assert(all[i] == here[i - above.len()] && all[j] == here[j - above.len()]);
            } else {
                assert(all[i] == above[i] && all[j] == here[j - above.len()]);
            }
        }
    }
}

/// A frame draws no place twice: it goes through the view in reading order. Each
/// cell shows the character of the view at its place, and the right half of a
/// wide glyph is never drawn on its own.
pub proof fn frame_draws_each_cell_once(
    theme: Theme,
    s: Screen,
    offset: int,
    link: Option<LinkSpan>,
    i: int,
    j: int,
)
    requires
        s.wf(),
        offset >= 0,
        0 <= i < j < frame_paint(theme, s, offset, s.rows(), link).len(),
    ensures
        ({
            let all = frame_paint(theme, s, offset, s.rows(), link);
            &&& before(all[i], all[j])
            &&& all[i].row < s.rows() && all[i].col < s.cols()
            &&& all[i].ch != WIDE_CONT
            &&& all[i].ch == s.view_row(all[i].row as int, offset).cells[all[i].col as int].ch
        }),
{
    frame_paint_in_order(theme, s, offset, s.rows(), link);
}

/// The highlighted span of a row covers the columns that are selected and no
/// others; a row in which nothing is selected has none.
pub proof fn highlight_is_what_is_selected(
    s: Screen,
    offset: int,
    sel: selection::Selection,
    row: int,
    col: int,
)
    requires
        s.wf(),
        offset >= 0,
        0 <= row < s.rows(),
        0 <= col < s.cols(),
    ensures
        ({
            let (start, end) = sel.ordered();
            let abs = s.scrollback.len() - math::min(offset, s.scrollback.len() as int) + row;
            let selected = selection::is_selected(sel, abs, col);
            match selection_in_row(s, offset, start, end, row) {
                Some((r, from, to)) => r == row && (from <= col < to) == selected,
                None => !selected,
            }
        }),
{
}

/// Each row of the view has its span in the list, and nothing else is in it.
pub proof fn highlights_are_listed(
    s: Screen,
    offset: int,
    start: selection::GridPoint,
    end: selection::GridPoint,
    n: int,
    span: (usize, usize, usize),
)
    requires
        s.wf(),
        0 <= n <= s.rows(),
    ensures
        selection_spans_in(s, offset, start, end, n).contains(span) <==> {
            span.0 < n && selection_in_row(s, offset, start, end, span.0 as int) == Some(span)
        },
    decreases n,
{
    let all = selection_spans_in(s, offset, start, end, n);
    if n > 0 {
        highlights_are_listed(s, offset, start, end, n - 1, span);
        let above = selection_spans_in(s, offset, start, end, n - 1);
        let here = selection_in_row(s, offset, start, end, n - 1);
        if all.contains(span) {
            let i = choose|i: int| 0 <= i < all.len() && all[i] == span;
            if i < above.len() {
                assert(above[i] == span);
                assert(above.contains(span));
            } else {
                assert(here == Some(span));
            }
        }
        if span.0 < n - 1 && above.contains(span) {
            let i = choose|i: int| 0 <= i < above.len() && above[i] == span;
            assert(all[i] == span);
        }
        if span.0 == n - 1 && here == Some(span) {
            assert(all[all.len() - 1] == span);
        }
    }
}

/// That a cell is drawn as it is: its character in its place, in the colors that the
/// theme gives it, in the link color where the link covers it, and two cells wide
/// where the next cell is its right half.
pub open spec fn drawn_as_it_is(
    p: CellPaint,
    theme: Theme,
    cells: Seq<Cell>,
    row: int,
    col: int,
    cols: int,
    link: Option<LinkSpan>,
) -> bool {
    let cell = cells[col];
    &&& p.row == row
    &&& p.col == col
    &&& p.ch == cell.ch
    &&& p.fg == theme.colors(cell).0
    &&& p.bg == theme.colors(cell).1
    &&& p.linked == match link {
        Some(l) => l.row == row && l.start <= col && col < l.end,
        None => false,
    }
    &&& p.wide == (col + 1 < cols && col + 1 < cells.len() && cells[col + 1].ch == WIDE_CONT)
}

proof fn row_is_drawn(
    theme: Theme,
    cells: Seq<Cell>,
    row: int,
    n: int,
    cols: int,
    link: Option<LinkSpan>,
    col: int,
) -> (i: int)
    requires
        0 <= row <= usize::MAX,
        0 <= col < n <= cells.len(),
        n <= usize::MAX,
        cells[col].ch != WIDE_CONT,
    ensures
        0 <= i < row_paint(theme, cells, row, n, cols, link).len(),
        drawn_as_it_is(
            row_paint(theme, cells, row, n, cols, link)[i],
            theme,
            cells,
            row,
            col,
            cols,
            link,
        ),
    decreases n,
{
    if col == n - 1 {
        row_paint(theme, cells, row, n, cols, link).len() - 1
    } else {
        row_is_drawn(theme, cells, row, n - 1, cols, link, col)
    }
}

proof fn rows_are_drawn(
    theme: Theme,
    s: Screen,
    offset: int,
    n: int,
    link: Option<LinkSpan>,
    row: int,
    col: int,
) -> (i: int)
    requires
        s.wf(),
        offset >= 0,
        0 <= row < n <= s.rows(),
        0 <= col < s.cols(),
        col < s.view_row(row, offset).cells.len(),
        s.view_row(row, offset).cells[col].ch != WIDE_CONT,
    ensures
        0 <= i < frame_paint(theme, s, offset, n, link).len(),
        drawn_as_it_is(
            frame_paint(theme, s, offset, n, link)[i],
            theme,
            s.view_row(row, offset).cells,
            row,
            col,
            s.cols(),
            link,
        ),
    decreases n,
{
    let above = frame_paint(theme, s, offset, n - 1, link);
    let all = frame_paint(theme, s, offset, n, link);
    if row == n - 1 {
        let cells = s.view_row(row, offset).cells;
        let k = math::min(cells.len() as int, s.cols());
        let i = row_is_drawn(theme, cells, row, k, s.cols(), link, col);
        assert(all[above.len() + i] == row_paint(theme, cells, row, k, s.cols(), link)[i]);
        above.len() + i
    } else {
        let i = rows_are_drawn(theme, s, offset, n - 1, link, row, col);
        assert(all[i] == above[i]);
        i
    }
}

/// A frame misses no cell: every cell of the view but the right halves of wide glyphs
/// is drawn, as it is.
pub proof fn frame_misses_no_cell(
    theme: Theme,
    s: Screen,
    offset: int,
    link: Option<LinkSpan>,
    row: int,
    col: int,
)
    requires
        s.wf(),
        offset >= 0,
        0 <= row < s.rows(),
        0 <= col < s.cols(),
        col < s.view_row(row, offset).cells.len(),
        s.view_row(row, offset).cells[col].ch != WIDE_CONT,
    ensures
        exists|i: int|
            0 <= i < frame_paint(theme, s, offset, s.rows(), link).len() && drawn_as_it_is(
                #[trigger] frame_paint(theme, s, offset, s.rows(), link)[i],
                theme,
                s.view_row(row, offset).cells,
                row,
                col,
                s.cols(),
                link,
            ),
{
    let i = rows_are_drawn(theme, s, offset, s.rows(), link, row, col);
    assert(drawn_as_it_is(
        frame_paint(theme, s, offset, s.rows(), link)[i],
        theme,
        s.view_row(row, offset).cells,
        row,
        col,
        s.cols(),
        link,
    ));
}

/// A cell of the view is highlighted exactly where it is selected; without a selection
/// none is.
pub proof fn selected_cells_are_highlighted(
    s: Screen,
    offset: int,
    sel: Option<selection::Selection>,
    row: int,
    col: int,
)
    requires
        s.wf(),
        offset >= 0,
        0 <= row < s.rows(),
        0 <= col < s.cols(),
    ensures
        ({
            let abs = s.scrollback.len() - math::min(offset, s.scrollback.len() as int) + row;
            let lit = exists|span: (usize, usize, usize)|
                #[trigger] highlights(s, offset, sel).contains(span) && span.0 == row && span.1
                    <= col < span.2;
            match sel {
                Some(x) => lit == selection::is_selected(x, abs, col),
                None => !lit,
            }
        }),
{
    let all = highlights(s, offset, sel);
    if let Some(x) = sel {
        let (start, end) = x.ordered();
        let abs = s.scrollback.len() - math::min(offset, s.scrollback.len() as int) + row;
        highlight_is_what_is_selected(s, offset, x, row, col);
        if x.anchor != x.head {
            if selection::is_selected(x, abs, col) {
                let span = selection_in_row(s, offset, start, end, row)->0;
                highlights_are_listed(s, offset, start, end, s.rows(), span);
                assert(all.contains(span) && span.0 == row && span.1 <= col < span.2);
            }
            assert forall|span: (usize, usize, usize)|
                #[trigger] all.contains(span) && span.0 == row && span.1 <= col < span.2 implies
                selection::is_selected(x, abs, col) by {
                highlights_are_listed(s, offset, start, end, s.rows(), span);
            }
        }
    }
}

} // verus!
