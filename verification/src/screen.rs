//! The mathematical model of a terminal screen.
//!
//! [`Screen`] is what a grid *is*, free of how it is stored: a sequence of
//! rows, a cursor, a pen, the scrollback, the scroll region, and the primary
//! screen that is set aside while the alternate screen is shown. Every
//! operation of the grid is described here as a function from screen to
//! screen.

use vstd::math;
use vstd::prelude::*;

use crate::blocks::{TermBlock, TermBlockState};
use crate::cell::{Attrs, Cell, Color, Pen};
use crate::grid::{Cursor, SavedCursor, Size, DEFAULT_SCROLLBACK, MAX_SIDE, WIDE_CONT};
use crate::reflow;
use crate::width;

verus! {

/// One row: its cells, and whether the text continues on the next row.
#[verifier::ext_equal]
pub struct Line {
    pub cells: Seq<Cell>,
    pub wrapped: bool,
}

/// The primary screen, set aside while the alternate screen is shown.
#[verifier::ext_equal]
pub struct Primary {
    pub lines: Seq<Line>,
    pub cursor: Cursor,
    pub pen: Pen,
    pub saved_cursor: Option<SavedCursor>,
    pub scroll_top: usize,
    pub scroll_bot: usize,
}

/// A terminal screen.
#[verifier::ext_equal]
pub struct Screen {
    pub size: Size,
    /// The visible rows, top to bottom.
    pub lines: Seq<Line>,
    pub cursor: Cursor,
    pub pen: Pen,
    /// Rows that left the top of the screen, oldest first.
    pub scrollback: Seq<Line>,
    /// Top of the scroll region, inclusive.
    pub scroll_top: usize,
    /// Bottom of the scroll region, exclusive.
    pub scroll_bot: usize,
    pub saved_cursor: Option<SavedCursor>,
    pub cursor_visible: bool,
    pub bracketed_paste: bool,
    /// Present exactly while the alternate screen is shown.
    pub primary: Option<Primary>,
    pub cwd: Option<Seq<u8>>,
    pub responses: Seq<Seq<u8>>,
    pub blocks: Seq<TermBlock>,
}

/// A row of `cols` blank cells.
pub open spec fn blank_line(cols: int) -> Line {
    Line { cells: Seq::new(cols as nat, |c: int| Cell::space()), wrapped: false }
}

/// `rows` rows of `cols` blank cells.
pub open spec fn blank_lines(rows: int, cols: int) -> Seq<Line> {
    Seq::new(rows as nat, |r: int| blank_line(cols))
}

/// `rows` rows, each `cols` wide.
pub open spec fn rectangle(lines: Seq<Line>, rows: int, cols: int) -> bool {
    &&& lines.len() == rows
    &&& forall|r: int| 0 <= r < rows ==> (#[trigger] lines[r]).cells.len() == cols
}

/// A cursor inside a grid of the given size. The column may lie past the right
/// margin: the next character then wraps first.
pub open spec fn cursor_inside(cursor: Cursor, rows: int, cols: int) -> bool {
    cursor.row < rows && cursor.col <= cols + 2
}

/// The last `n` items of `s`, or all of them where there are fewer.
pub open spec fn keep_last<T>(s: Seq<T>, n: int) -> Seq<T> {
    if s.len() <= n {
        s
    } else {
        s.skip(s.len() - n)
    }
}

/// Rows `top..bot` moved up by `n`; the rows that become free are blank.
pub open spec fn shift_up(lines: Seq<Line>, top: int, bot: int, n: int, cols: int) -> Seq<Line> {
    Seq::new(
        lines.len(),
        |r: int|
            if top <= r < bot - n {
                lines[r + n]
            } else if top <= r < bot {
                blank_line(cols)
            } else {
                lines[r]
            },
    )
}

/// Rows `top..bot` moved down by `n`; the rows that become free are blank.
pub open spec fn shift_down(lines: Seq<Line>, top: int, bot: int, n: int, cols: int) -> Seq<Line> {
    Seq::new(
        lines.len(),
        |r: int|
            if top + n <= r < bot {
                lines[r - n]
            } else if top <= r < bot {
                blank_line(cols)
            } else {
                lines[r]
            },
    )
}

/// Blocks whose start rows went where `to` says.
pub open spec fn with_rows_moved(blocks: Seq<TermBlock>, to: spec_fn(int) -> int) -> Seq<TermBlock> {
    Seq::new(
        blocks.len(),
        |i: int| TermBlock { start_row: to(blocks[i].start_row as int) as usize, ..blocks[i] },
    )
}

/// Where a row goes when rows `top..bot` move up by `n`. A row that is lost counts
/// as the first one that is not.
pub open spec fn row_up(at: int, top: int, bot: int, n: int) -> int {
    if top <= at < bot {
        math::max(at - n, top)
    } else {
        at
    }
}

/// Where a row goes when rows `top..bot` move down by `n`. A row that is lost
/// counts as the last one that is not.
pub open spec fn row_down(at: int, top: int, bot: int, n: int) -> int {
    if top <= at < bot {
        math::min(at + n, bot - 1)
    } else {
        at
    }
}

/// Cells `from..to` made blank.
pub open spec fn blank_cells(cells: Seq<Cell>, from: int, to: int) -> Seq<Cell> {
    Seq::new(
        cells.len(),
        |c: int|
            if from <= c < to {
                Cell::space()
            } else {
                cells[c]
            },
    )
}

/// Cells `from..to` of a row erased. A row whose last cell is erased no longer
/// runs on.
pub open spec fn erased(line: Line, from: int, to: int) -> Line {
    Line {
        cells: blank_cells(line.cells, from, to),
        wrapped: line.wrapped && to < line.cells.len(),
    }
}

/// Cells from `col` on moved right by `n`; what passes the right edge is lost.
pub open spec fn open_cells(cells: Seq<Cell>, col: int, n: int) -> Seq<Cell> {
    Seq::new(
        cells.len(),
        |c: int|
            if c < col {
                cells[c]
            } else if c < col + n {
                Cell::space()
            } else {
                cells[c - n]
            },
    )
}

/// The `n` cells at `col` taken out; blanks enter at the right edge.
pub open spec fn close_cells(cells: Seq<Cell>, col: int, n: int) -> Seq<Cell> {
    Seq::new(
        cells.len(),
        |c: int|
            if c < col {
                cells[c]
            } else if c < cells.len() - n {
                cells[c + n]
            } else {
                Cell::space()
            },
    )
}

/// Rows cut or padded with blanks to the given size, content kept at the top left.
pub open spec fn cropped(lines: Seq<Line>, rows: int, cols: int) -> Seq<Line> {
    Seq::new(
        rows as nat,
        |r: int|
            if r < lines.len() {
                Line {
                    cells: Seq::new(
                        cols as nat,
                        |c: int|
                            if c < lines[r].cells.len() {
                                lines[r].cells[c]
                            } else {
                                Cell::space()
                            },
                    ),
                    wrapped: lines[r].wrapped,
                }
            } else {
                blank_line(cols)
            },
    )
}

/// The number a count parameter stands for: at least 1, at most `limit`.
pub open spec fn count_between(n: int, limit: int) -> int {
    math::min(math::max(n, 1), limit)
}

/// The color that follows SGR 38 or 48, with the number of parameters it takes.
/// Color components are taken modulo 256.
pub open spec fn extended_color(rest: Seq<u16>) -> Option<(Color, int)> {
    if rest.len() >= 2 && rest[0] == 5 {
        Some((Color::Indexed((rest[1] % 256) as u8), 2))
    } else if rest.len() >= 4 && rest[0] == 2 {
        Some(
            (
                Color::Rgb((rest[1] % 256) as u8, (rest[2] % 256) as u8, (rest[3] % 256) as u8),
                4,
            ),
        )
    } else {
        None
    }
}

/// The pen after one SGR code that stands alone.
pub open spec fn sgr_single(pen: Pen, code: u16) -> Pen {
    if code == 0 {
        Pen::plain()
    } else if code == 1 {
        Pen { attrs: pen.attrs.with(Attrs::BOLD), ..pen }
    } else if code == 2 {
        Pen { attrs: pen.attrs.with(Attrs::DIM), ..pen }
    } else if code == 3 {
        Pen { attrs: pen.attrs.with(Attrs::ITALIC), ..pen }
    } else if code == 4 {
        Pen { attrs: pen.attrs.with(Attrs::UNDERLINE), ..pen }
    } else if code == 7 {
        Pen { attrs: pen.attrs.with(Attrs::REVERSE), ..pen }
    } else if code == 8 {
        Pen { attrs: pen.attrs.with(Attrs::HIDDEN), ..pen }
    } else if code == 9 {
        Pen { attrs: pen.attrs.with(Attrs::STRIKE), ..pen }
    } else if code == 22 {
        Pen { attrs: pen.attrs.without(Attrs::BOLD | Attrs::DIM), ..pen }
    } else if code == 23 {
        Pen { attrs: pen.attrs.without(Attrs::ITALIC), ..pen }
    } else if code == 24 {
        Pen { attrs: pen.attrs.without(Attrs::UNDERLINE), ..pen }
    } else if code == 27 {
        Pen { attrs: pen.attrs.without(Attrs::REVERSE), ..pen }
    } else if code == 28 {
        Pen { attrs: pen.attrs.without(Attrs::HIDDEN), ..pen }
    } else if code == 29 {
        Pen { attrs: pen.attrs.without(Attrs::STRIKE), ..pen }
    } else if 30 <= code <= 37 {
        Pen { fg: Color::Indexed((code - 30) as u8), ..pen }
    } else if code == 39 {
        Pen { fg: Color::Default, ..pen }
    } else if 40 <= code <= 47 {
        Pen { bg: Color::Indexed((code - 40) as u8), ..pen }
    } else if code == 49 {
        Pen { bg: Color::Default, ..pen }
    } else if 90 <= code <= 97 {
        Pen { fg: Color::Indexed((code - 90 + 8) as u8), ..pen }
    } else if 100 <= code <= 107 {
        Pen { bg: Color::Indexed((code - 100 + 8) as u8), ..pen }
    } else {
        pen
    }
}

/// The pen after a list of SGR codes, taken left to right.
pub open spec fn sgr_pen(pen: Pen, codes: Seq<u16>) -> Pen
    decreases codes.len(),
{
    if codes.len() == 0 {
        pen
    } else {
        let rest = codes.skip(1);
        if codes[0] == 38 || codes[0] == 48 {
            match extended_color(rest) {
                Some((color, taken)) => {
                    let next = if codes[0] == 38 {
                        Pen { fg: color, ..pen }
                    } else {
                        Pen { bg: color, ..pen }
                    };
                    sgr_pen(next, rest.skip(taken))
                },
                None => sgr_pen(pen, rest),
            }
        } else {
            sgr_pen(sgr_single(pen, codes[0]), rest)
        }
    }
}

impl Screen {
    /// What holds of every screen: the visible rows form a rectangle of the
    /// screen's size, the cursor lies inside, the scroll region is not empty,
    /// the scrollback is bounded, blocks start in rows that there are, and the
    /// same holds of a primary screen that is set aside.
    pub open spec fn wf(self) -> bool {
        let rows = self.size.rows as int;
        let cols = self.size.cols as int;
        &&& 1 <= rows <= MAX_SIDE
        &&& 1 <= cols <= MAX_SIDE
        &&& rectangle(self.lines, rows, cols)
        &&& cursor_inside(self.cursor, rows, cols)
        &&& self.scroll_top < self.scroll_bot <= rows
        &&& self.scrollback.len() <= DEFAULT_SCROLLBACK
        &&& forall|i: int|
            0 <= i < self.blocks.len() ==> (#[trigger] self.blocks[i]).start_row
                < self.scrollback.len() + rows
        &&& self.primary matches Some(p) ==> {
            &&& rectangle(p.lines, rows, cols)
            &&& cursor_inside(p.cursor, rows, cols)
            &&& p.scroll_top < p.scroll_bot <= rows
        }
    }

    pub open spec fn rows(self) -> int {
        self.size.rows as int
    }

    pub open spec fn cols(self) -> int {
        self.size.cols as int
    }

    /// Whether the alternate screen is shown.
    pub open spec fn alt(self) -> bool {
        self.primary is Some
    }

    /// The cell at a row and column.
    pub open spec fn cell(self, row: int, col: int) -> Cell {
        self.lines[row].cells[col]
    }

    /// The cursor's column, or the last column where it lies past the margin.
    pub open spec fn clamped_col(self) -> int {
        math::min(self.cursor.col as int, self.cols() - 1)
    }

    /// The row at `view_idx` of a view that is scrolled back by `offset` rows,
    /// as far as the scrollback reaches.
    pub open spec fn view_row(self, view_idx: int, offset: int) -> Line {
        let sb = self.scrollback.len();
        let abs = sb - math::min(offset, sb as int) + view_idx;
        if abs < sb {
            self.scrollback[abs]
        } else {
            self.lines[abs - sb]
        }
    }

    /// A fresh screen.
    pub open spec fn fresh(rows: usize, cols: usize) -> Screen {
        let rows = math::max(rows as int, 1) as usize;
        let cols = math::max(cols as int, 1) as usize;
        Screen {
            size: Size { rows, cols },
            lines: blank_lines(rows as int, cols as int),
            cursor: Cursor::origin(),
            pen: Pen::plain(),
            scrollback: Seq::empty(),
            scroll_top: 0,
            scroll_bot: rows,
            saved_cursor: None,
            cursor_visible: true,
            bracketed_paste: false,
            primary: None,
            cwd: None,
            responses: Seq::empty(),
            blocks: Seq::empty(),
        }
    }

    /// All visible cells blank, the cursor at the origin.
    pub open spec fn cleared(self) -> Screen {
        Screen {
            lines: blank_lines(self.rows(), self.cols()),
            cursor: Cursor::origin(),
            ..self
        }
    }

    /// The cursor at `(row, col)`, each clamped to the grid.
    pub open spec fn cursor_at(self, row: int, col: int) -> Screen {
        Screen {
            cursor: Cursor {
                row: math::min(row, self.rows() - 1) as usize,
                col: math::min(col, self.cols() - 1) as usize,
            },
            ..self
        }
    }

    pub open spec fn at_row(self, row: int) -> Screen {
        Screen { cursor: Cursor { row: row as usize, ..self.cursor }, ..self }
    }

    pub open spec fn at_col(self, col: int) -> Screen {
        Screen { cursor: Cursor { col: col as usize, ..self.cursor }, ..self }
    }

    pub open spec fn backspaced(self) -> Screen {
        self.at_col(math::max(self.cursor.col - 1, 0))
    }

    /// The cursor at the next multiple of 8, or in the last column.
    pub open spec fn tabbed(self) -> Screen {
        self.at_col(math::min((self.cursor.col as int / 8 + 1) * 8, self.cols() - 1))
    }

    /// The cursor `n` rows up. A cursor at or below the top of the scroll
    /// region does not leave the region.
    pub open spec fn moved_up(self, n: int) -> Screen {
        let floor: int = if self.cursor.row >= self.scroll_top {
            self.scroll_top as int
        } else {
            0
        };
        self.at_row(math::max(self.cursor.row - math::max(n, 1), floor))
    }

    /// The cursor `n` rows down. A cursor above the bottom of the scroll
    /// region does not leave the region.
    pub open spec fn moved_down(self, n: int) -> Screen {
        let ceiling = if self.cursor.row < self.scroll_bot {
            self.scroll_bot - 1
        } else {
            self.rows() - 1
        };
        self.at_row(math::min(self.cursor.row + math::max(n, 1), ceiling))
    }

    pub open spec fn moved_forward(self, n: int) -> Screen {
        self.at_col(math::min(self.cursor.col + math::max(n, 1), self.cols() - 1))
    }

    pub open spec fn moved_back(self, n: int) -> Screen {
        self.at_col(math::max(self.cursor.col - math::max(n, 1), 0))
    }

    pub open spec fn to_col(self, col: int) -> Screen {
        self.at_col(math::min(col, self.cols() - 1))
    }

    pub open spec fn to_row(self, row: int) -> Screen {
        self.at_row(math::min(row, self.rows() - 1))
    }

    /// The blocks, when rows `top..bot` of the screen move up by `n` and none of
    /// them is kept. Blocks stand on the primary screen.
    pub open spec fn blocks_up(self, top: int, bot: int, n: int) -> Seq<TermBlock> {
        let sb = self.scrollback.len() as int;
        if self.alt() {
            self.blocks
        } else {
            with_rows_moved(self.blocks, |at: int| row_up(at, sb + top, sb + bot, n))
        }
    }

    /// The blocks, when rows `top..bot` of the screen move down by `n`.
    pub open spec fn blocks_down(self, top: int, bot: int, n: int) -> Seq<TermBlock> {
        let sb = self.scrollback.len() as int;
        if self.alt() {
            self.blocks
        } else {
            with_rows_moved(self.blocks, |at: int| row_down(at, sb + top, sb + bot, n))
        }
    }

    /// How many rows the scrollback has no room for when `n` rows enter it.
    pub open spec fn dropped_by(self, n: int) -> int {
        math::max(self.scrollback.len() + n - DEFAULT_SCROLLBACK, 0)
    }

    /// Where a row, counted from the oldest scrollback row, stands when the `n`
    /// topmost rows of the screen enter the scrollback and the rows from `bot` on
    /// stay in place. A row that the scrollback has no room for counts as the
    /// oldest one.
    pub open spec fn row_kept(self, at: int, bot: int, n: int) -> int {
        if at < self.scrollback.len() + bot {
            math::max(at - self.dropped_by(n), 0)
        } else {
            at + n - self.dropped_by(n)
        }
    }

    /// The scroll region moved up by `n` rows. Rows that leave the top of the
    /// primary screen enter the scrollback.
    pub open spec fn scrolled_up(self, n: int) -> Screen {
        let top = self.scroll_top as int;
        let bot = self.scroll_bot as int;
        let n = math::min(n, bot - top);
        Screen {
            lines: shift_up(self.lines, top, bot, n, self.cols()),
            scrollback: if top == 0 && !self.alt() {
                keep_last(self.scrollback + self.lines.take(n), DEFAULT_SCROLLBACK as int)
            } else {
                self.scrollback
            },
            blocks: if top == 0 && !self.alt() {
                with_rows_moved(self.blocks, |at: int| self.row_kept(at, bot, n))
            } else {
                self.blocks_up(top, bot, n)
            },
            ..self
        }
    }

    /// The scroll region moved down by `n` rows; what leaves it is lost.
    pub open spec fn scrolled_down(self, n: int) -> Screen {
        let top = self.scroll_top as int;
        let bot = self.scroll_bot as int;
        let n = math::min(n, bot - top);
        Screen {
            lines: shift_down(self.lines, top, bot, n, self.cols()),
            blocks: self.blocks_down(top, bot, n),
            ..self
        }
    }

    /// The cursor one row down; at the bottom of the scroll region the region
    /// scrolls instead.
    pub open spec fn advanced_row(self) -> Screen {
        if self.cursor.row + 1 == self.scroll_bot {
            self.scrolled_up(1)
        } else if self.cursor.row + 1 < self.rows() {
            self.at_row(self.cursor.row + 1)
        } else {
            self
        }
    }

    /// The cursor one row up; at the top of the scroll region the region
    /// scrolls down instead.
    pub open spec fn reversed_row(self) -> Screen {
        if self.cursor.row == self.scroll_top {
            self.scrolled_down(1)
        } else {
            self.at_row(math::max(self.cursor.row - 1, 0))
        }
    }

    /// The row's text runs on in the next row, to whose start the cursor moves.
    pub open spec fn wrapped(self) -> Screen {
        let row = self.cursor.row as int;
        let marked = Screen {
            lines: self.lines.update(row, Line { wrapped: true, ..self.lines[row] }),
            ..self
        };
        marked.at_col(0).advanced_row()
    }

    /// The cell at a position replaced. A row whose last cell is overwritten no
    /// longer runs on.
    pub open spec fn with_cell(self, row: int, col: int, cell: Cell) -> Screen {
        let line = self.lines[row];
        Screen {
            lines: self.lines.update(
                row,
                Line {
                    cells: line.cells.update(col, cell),
                    wrapped: line.wrapped && col + 1 < self.cols(),
                },
            ),
            ..self
        }
    }

    /// The cell under the cursor replaced, and the one behind it by a
    /// continuation where the glyph is two cells wide; the cursor behind the
    /// glyph. On a screen of one column the cell behind is that of the next row.
    /// A glyph that reaches the margin ends its row's line.
    pub open spec fn stamped(self, ch: char, width: int) -> Screen {
        let row = self.cursor.row as int;
        let col = self.cursor.col as int;
        let first = self.with_cell(row, col, self.pen.draws(ch));
        let both = if width != 2 {
            first
        } else if col + 1 < self.cols() {
            first.with_cell(row, col + 1, self.pen.draws(WIDE_CONT))
        } else {
            first.with_cell(row + 1, 0, self.pen.draws(WIDE_CONT))
        };
        let line = both.lines[row];
        Screen {
            lines: both.lines.update(
                row,
                Line { wrapped: line.wrapped && col + width < self.cols(), ..line },
            ),
            ..both
        }.at_col(col + width)
    }

    /// The screen ready for a glyph of `width` cells: the text wraps where the
    /// cursor lies past the margin, and where the two cells of a wide glyph would
    /// not fit.
    pub open spec fn wrapped_for(self, width: int) -> Screen {
        let a = if self.cursor.col >= self.cols() {
            self.wrapped()
        } else {
            self
        };
        if width == 2 && a.cursor.col + 1 >= self.cols() {
            a.wrapped()
        } else {
            a
        }
    }

    /// Whether a glyph of `width` cells has a place. On a screen of one column a
    /// wide glyph takes a cell of the next row too, so the row it wraps to must
    /// not be the last.
    pub open spec fn takes(self, width: int) -> bool {
        width == 2 && self.cols() == 1 ==> self.wrapped_for(2).cursor.row + 1 < self.rows()
    }

    /// `ch`, which is `width` cells wide, printed at the cursor, after the text
    /// has wrapped where it must. A character without width leaves no trace.
    pub open spec fn printed(self, ch: char, width: int) -> Screen {
        if width == 0 {
            self
        } else {
            self.wrapped_for(width).stamped(ch, width)
        }
    }

    /// `ch` printed where it has a place.
    pub open spec fn typed(self, ch: char) -> Screen {
        if self.takes(width::cells_taken(ch)) {
            self.printed(ch, width::cells_taken(ch))
        } else {
            self
        }
    }

    pub open spec fn cursor_in_region(self) -> bool {
        self.scroll_top <= self.cursor.row < self.scroll_bot
    }

    /// The row above the cursor no longer runs on, and the cursor stands in
    /// the first column.
    pub open spec fn broken_above(self) -> Screen {
        let row = self.cursor.row as int;
        Screen {
            lines: if row > 0 {
                self.lines.update(row - 1, Line { wrapped: false, ..self.lines[row - 1] })
            } else {
                self.lines
            },
            ..self
        }.at_col(0)
    }

    /// `n` blank rows inserted at the cursor, inside the scroll region only.
    pub open spec fn inserted_lines(self, n: int) -> Screen {
        let top = self.cursor.row as int;
        let bot = self.scroll_bot as int;
        let n = count_between(n, bot - top);
        if self.cursor_in_region() {
            Screen {
                lines: shift_down(self.lines, top, bot, n, self.cols()),
                blocks: self.blocks_down(top, bot, n),
                ..self
            }.broken_above()
        } else {
            self
        }
    }

    /// `n` rows taken out at the cursor, inside the scroll region only.
    pub open spec fn deleted_lines(self, n: int) -> Screen {
        let top = self.cursor.row as int;
        let bot = self.scroll_bot as int;
        let n = count_between(n, bot - top);
        if self.cursor_in_region() {
            Screen {
                lines: shift_up(self.lines, top, bot, n, self.cols()),
                blocks: self.blocks_up(top, bot, n),
                ..self
            }.broken_above()
        } else {
            self
        }
    }

    /// The cells of the cursor's row replaced.
    pub open spec fn with_cursor_row(self, cells: Seq<Cell>) -> Screen {
        let row = self.cursor.row as int;
        Screen { lines: self.lines.update(row, Line { cells, ..self.lines[row] }), ..self }
    }

    pub open spec fn inserted_chars(self, n: int) -> Screen {
        let col = self.clamped_col();
        self.with_cursor_row(
            open_cells(
                self.lines[self.cursor.row as int].cells,
                col,
                count_between(n, self.cols() - col),
            ),
        )
    }

    pub open spec fn deleted_chars(self, n: int) -> Screen {
        let col = self.clamped_col();
        self.with_cursor_row(
            close_cells(
                self.lines[self.cursor.row as int].cells,
                col,
                count_between(n, self.cols() - col),
            ),
        )
    }

    /// Cells `from..to` of the cursor's row erased.
    pub open spec fn erased_in_row(self, from: int, to: int) -> Screen {
        let row = self.cursor.row as int;
        Screen { lines: self.lines.update(row, erased(self.lines[row], from, to)), ..self }
    }

    pub open spec fn erased_chars(self, n: int) -> Screen {
        let col = self.clamped_col();
        self.erased_in_row(col, col + count_between(n, self.cols() - col))
    }

    /// Erase in line: 0 from the cursor on, 1 up to and with the cursor, 2 all.
    pub open spec fn erased_line(self, mode: u16) -> Screen {
        let col = self.clamped_col();
        if mode == 0 {
            self.erased_in_row(col, self.cols())
        } else if mode == 1 {
            self.erased_in_row(0, col + 1)
        } else if mode == 2 {
            self.erased_in_row(0, self.cols())
        } else {
            self
        }
    }

    /// Rows `from..to` blank.
    pub open spec fn blanked_rows(self, from: int, to: int) -> Screen {
        Screen {
            lines: Seq::new(
                self.lines.len(),
                |r: int|
                    if from <= r < to {
                        blank_line(self.cols())
                    } else {
                        self.lines[r]
                    },
            ),
            ..self
        }
    }

    /// Erase in display: 0 from the cursor on, 1 up to and with the cursor,
    /// 2 and 3 everything.
    pub open spec fn erased_display(self, mode: u16) -> Screen {
        let row = self.cursor.row as int;
        if mode == 0 {
            self.erased_line(0).blanked_rows(row + 1, self.rows())
        } else if mode == 1 {
            self.erased_line(1).blanked_rows(0, row)
        } else if mode == 2 || mode == 3 {
            self.blanked_rows(0, self.rows())
        } else {
            self
        }
    }

    /// The scroll region `[top, bot)`, or the whole screen where that is not a
    /// region of at least two rows; the cursor at the origin.
    pub open spec fn with_scroll_region(self, top: int, bot: int) -> Screen {
        let bot = math::min(bot, self.rows());
        let valid = bot - top >= 2;
        Screen {
            scroll_top: if valid {
                top as usize
            } else {
                0
            },
            scroll_bot: if valid {
                bot as usize
            } else {
                self.size.rows
            },
            cursor: Cursor::origin(),
            ..self
        }
    }

    pub open spec fn with_full_region(self) -> Screen {
        Screen { scroll_top: 0, scroll_bot: self.size.rows, ..self }
    }

    pub open spec fn saved(self) -> Screen {
        Screen {
            saved_cursor: Some(SavedCursor { cursor: self.cursor, pen: self.pen }),
            ..self
        }
    }

    /// The saved cursor, clamped to the grid, and the saved pen taken up again.
    pub open spec fn restored(self) -> Screen {
        match self.saved_cursor {
            Some(sc) => Screen { pen: sc.pen, ..self }.cursor_at(
                sc.cursor.row as int,
                sc.cursor.col as int,
            ),
            None => self,
        }
    }

    /// The primary screen set aside, and a blank alternate screen shown.
    pub open spec fn entered_alt(self) -> Screen {
        if self.alt() {
            self
        } else {
            Screen {
                lines: blank_lines(self.rows(), self.cols()),
                cursor: Cursor::origin(),
                pen: Pen::plain(),
                saved_cursor: None,
                scroll_top: 0,
                scroll_bot: self.size.rows,
                primary: Some(
                    Primary {
                        lines: self.lines,
                        cursor: self.cursor,
                        pen: self.pen,
                        saved_cursor: self.saved_cursor,
                        scroll_top: self.scroll_top,
                        scroll_bot: self.scroll_bot,
                    },
                ),
                ..self
            }
        }
    }

    /// The primary screen shown again as it was set aside.
    pub open spec fn left_alt(self) -> Screen {
        match self.primary {
            Some(p) => Screen {
                lines: p.lines,
                cursor: p.cursor,
                pen: p.pen,
                saved_cursor: p.saved_cursor,
                scroll_top: p.scroll_top,
                scroll_bot: p.scroll_bot,
                primary: None,
                ..self
            },
            None => self,
        }
    }

    /// Where a row, counted from the oldest scrollback row, stands when the
    /// primary screen `p` behind the alternate one is reflowed.
    pub open spec fn row_behind(self, p: Primary, rows: int, cols: int, at: int) -> int {
        let sb = self.scrollback.len() as int;
        let r = reflow::reflowed(Seq::empty(), p.lines, p.cursor, self.cols(), rows, cols);
        let dropped = self.dropped_by(r.scrollback.len() as int);
        let to = if at < sb {
            at
        } else {
            sb + reflow::moved_row(Seq::empty(), p.lines, p.cursor, rows, cols, at - sb)
        };
        math::max(to - dropped, 0)
    }

    /// The screen at another size; a side of 0 counts as 1. The primary screen
    /// is reflowed together with the scrollback. The alternate screen is cut or
    /// padded, and the primary screen behind it is reflowed on its own: its rows
    /// that no longer fit enter the scrollback, which is not reflowed.
    pub open spec fn resized(self, rows: usize, cols: usize) -> Screen {
        let rows = math::max(rows as int, 1) as usize;
        let cols = math::max(cols as int, 1) as usize;
        if rows == self.size.rows && cols == self.size.cols {
            self
        } else {
            match self.primary {
                Some(p) => {
                    let r = reflow::reflowed(
                        Seq::empty(),
                        p.lines,
                        p.cursor,
                        self.cols(),
                        rows as int,
                        cols as int,
                    );
                    Screen {
                        size: Size { rows, cols },
                        lines: cropped(self.lines, rows as int, cols as int),
                        scrollback: keep_last(
                            self.scrollback + r.scrollback,
                            DEFAULT_SCROLLBACK as int,
                        ),
                        primary: Some(
                            Primary {
                                lines: r.lines,
                                cursor: r.cursor,
                                scroll_top: 0,
                                scroll_bot: rows,
                                ..p
                            },
                        ),
                        scroll_top: 0,
                        scroll_bot: rows,
                        blocks: with_rows_moved(
                            self.blocks,
                            |at: int| self.row_behind(p, rows as int, cols as int, at),
                        ),
                        ..self
                    }.cursor_at(self.cursor.row as int, self.cursor.col as int)
                },
                None => {
                    let r = reflow::reflowed(
                        self.scrollback,
                        self.lines,
                        self.cursor,
                        self.cols(),
                        rows as int,
                        cols as int,
                    );
                    Screen {
                        size: Size { rows, cols },
                        lines: r.lines,
                        scrollback: r.scrollback,
                        cursor: r.cursor,
                        scroll_top: 0,
                        scroll_bot: rows,
                        blocks: with_rows_moved(
                            self.blocks,
                            |at: int|
                                reflow::moved_row(
                                    self.scrollback,
                                    self.lines,
                                    self.cursor,
                                    rows as int,
                                    cols as int,
                                    at,
                                ),
                        ),
                        ..self
                    }
                },
            }
        }
    }

    /// The pen after a list of SGR codes; an empty list resets it.
    pub open spec fn with_sgr(self, codes: Seq<u16>) -> Screen {
        Screen {
            pen: if codes.len() == 0 {
                Pen::plain()
            } else {
                sgr_pen(self.pen, codes)
            },
            ..self
        }
    }

    pub open spec fn with_response(self, bytes: Seq<u8>) -> Screen {
        Screen { responses: self.responses.push(bytes), ..self }
    }

    pub open spec fn with_cwd(self, path: Seq<u8>) -> Screen {
        Screen { cwd: Some(path), ..self }
    }

    /// The absolute row of the cursor, counted from the oldest scrollback row.
    pub open spec fn cursor_abs_row(self) -> int {
        self.scrollback.len() + self.cursor.row
    }

    /// A prompt begins in the cursor's row: a new block.
    pub open spec fn with_block(self) -> Screen {
        Screen {
            blocks: self.blocks.push(
                TermBlock {
                    start_row: self.cursor_abs_row() as usize,
                    state: TermBlockState::Input,
                },
            ),
            ..self
        }
    }

    /// The newest block, where there is one, in another state.
    pub open spec fn with_block_state(self, state: TermBlockState) -> Screen {
        let last = self.blocks.len() - 1;
        Screen {
            blocks: if self.blocks.len() == 0 {
                self.blocks
            } else {
                self.blocks.update(last, TermBlock { state, ..self.blocks[last] })
            },
            ..self
        }
    }
}

/// Scrolling keeps a screen well-formed.
pub proof fn scrolling_keeps_wf(s: Screen, n: int)
    requires
        s.wf(),
        n >= 0,
    ensures
        s.scrolled_up(n).wf(),
        s.scrolled_down(n).wf(),
{
    let up = s.scrolled_up(n);
    let bot = s.scroll_bot as int;
    let m = math::min(n, bot - s.scroll_top);
    assert(rectangle(up.lines, s.rows(), s.cols()));
    assert(rectangle(s.scrolled_down(n).lines, s.rows(), s.cols()));
    assert forall|i: int| 0 <= i < up.blocks.len() implies (#[trigger] up.blocks[i]).start_row
        < up.scrollback.len() + s.rows() by {
        assert(s.blocks[i].start_row < s.scrollback.len() + s.rows());
        if s.scroll_top == 0 && !s.alt() {
            let to = s.row_kept(s.blocks[i].start_row as int, bot, m);
            assert(0 <= to < up.scrollback.len() + s.rows());
            assert(up.blocks[i].start_row == to);
        }
    }
    let down = s.scrolled_down(n);
    assert forall|i: int| 0 <= i < down.blocks.len() implies (#[trigger] down.blocks[i]).start_row
        < down.scrollback.len() + s.rows() by {
        assert(s.blocks[i].start_row < s.scrollback.len() + s.rows());
    }
}

/// Moving up by `i` rows and then by one more is moving up by `i + 1`.
pub proof fn shift_up_step(lines: Seq<Line>, top: int, bot: int, i: int, cols: int)
    requires
        0 <= top,
        0 <= i < bot - top,
        bot <= lines.len(),
    ensures
        shift_up(shift_up(lines, top, bot, i, cols), top, bot, 1, cols) == shift_up(
            lines,
            top,
            bot,
            i + 1,
            cols,
        ),
        shift_up(lines, top, bot, i, cols)[top] == lines[top + i],
{
    assert(shift_up(shift_up(lines, top, bot, i, cols), top, bot, 1, cols) =~= shift_up(
        lines,
        top,
        bot,
        i + 1,
        cols,
    ));
}

/// Moving down by `i` rows and then by one more is moving down by `i + 1`.
pub proof fn shift_down_step(lines: Seq<Line>, top: int, bot: int, i: int, cols: int)
    requires
        0 <= top,
        0 <= i < bot - top,
        bot <= lines.len(),
    ensures
        shift_down(shift_down(lines, top, bot, i, cols), top, bot, 1, cols) == shift_down(
            lines,
            top,
            bot,
            i + 1,
            cols,
        ),
{
    assert(shift_down(shift_down(lines, top, bot, i, cols), top, bot, 1, cols) =~= shift_down(
        lines,
        top,
        bot,
        i + 1,
        cols,
    ));
}

/// Dropping surplus items at each step or at the end comes to the same.
pub proof fn keep_last_push<T>(s: Seq<T>, x: T, n: int)
    requires
        n >= 1,
    ensures
        keep_last(keep_last(s, n).push(x), n) == keep_last(s.push(x), n),
{
    assert(keep_last(keep_last(s, n).push(x), n) =~= keep_last(s.push(x), n));
}

} // verus!
