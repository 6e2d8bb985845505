//! Blocks as the viewport shows them.

use vstd::math;
use vstd::prelude::*;

use crate::blocks::TermBlockState;
use crate::grid::Grid;
use crate::screen::Screen;
use crate::selection;

verus! {

/// A block as far as the viewport shows it.
#[derive(Debug, Clone, Copy, PartialEq, Eq, Structural)]
pub struct RenderBlock {
    /// The first row of the view that belongs to the block.
    pub start_view_row: usize,
    /// The row of the view behind the block's last.
    pub end_view_row: usize,
    /// How the block is drawn: 0 running, 1 done, 2 failed, 3 at the prompt.
    pub state: u8,
}

/// How a block is drawn.
pub open spec fn look(state: TermBlockState) -> u8 {
    match state {
        TermBlockState::Input => 3,
        TermBlockState::Running => 0,
        TermBlockState::Done { exit_code } => if exit_code == 0 {
            1
        } else {
            2
        },
    }
}

/// The absolute row of the first row of a scrolled view.
pub open spec fn first_row(s: Screen, offset: int) -> int {
    s.scrollback.len() - math::min(offset, s.scrollback.len() as int)
}

/// The absolute row behind a block: where the next block starts, or behind the
/// cursor.
pub open spec fn block_end(s: Screen, i: int) -> int {
    if i + 1 < s.blocks.len() {
        s.blocks[i + 1].start_row as int
    } else {
        s.cursor_abs_row() + 1
    }
}

/// Block `i` as a view scrolled back by `offset` rows shows it, where it does.
pub open spec fn block_view(s: Screen, i: int, offset: int) -> Option<RenderBlock> {
    let first = first_row(s, offset);
    let start = math::min(math::max(s.blocks[i].start_row - first, 0), s.rows());
    let end = math::min(math::max(block_end(s, i) - first, 0), s.rows());
    if start < end {
        Some(
            RenderBlock {
                start_view_row: start as usize,
                end_view_row: end as usize,
                state: look(s.blocks[i].state),
            },
        )
    } else {
        None
    }
}

/// The first `n` blocks, as far as the view shows them.
pub open spec fn block_views(s: Screen, n: int, offset: int) -> Seq<RenderBlock>
    decreases n,
{
    if n <= 0 {
        Seq::empty()
    } else {
        match block_view(s, n - 1, offset) {
            Some(b) => block_views(s, n - 1, offset).push(b),
            None => block_views(s, n - 1, offset),
        }
    }
}

/// The rows of the view at which a block starts, the top row aside, of the first
/// `n` blocks.
pub open spec fn boundaries(s: Screen, n: int, offset: int) -> Seq<int>
    decreases n,
{
    if n <= 0 {
        Seq::empty()
    } else {
        let row = s.blocks[n - 1].start_row - first_row(s, offset);
        if 0 < row < s.rows() {
            boundaries(s, n - 1, offset).push(row)
        } else {
            boundaries(s, n - 1, offset)
        }
    }
}

/// How many boundaries lie at or above a row.
pub open spec fn crossed(bounds: Seq<int>, row: int) -> int
    decreases bounds.len(),
{
    if bounds.len() == 0 {
        0
    } else if 0 < bounds.last() <= row {
        crossed(bounds.drop_last(), row) + 1
    } else {
        crossed(bounds.drop_last(), row)
    }
}

fn clamp_to_view(abs: usize, first: usize, rows: usize) -> (r: usize)
    ensures
        r == math::min(math::max(abs - first, 0), rows as int),
{
    let d: usize = abs.saturating_sub(first);
    if d < rows {
        d
    } else {
        rows
    }
}

fn block_look(state: TermBlockState) -> (r: u8)
    ensures
        r == look(state),
{
    match state {
        TermBlockState::Input => 3,
        TermBlockState::Running => 0,
        TermBlockState::Done { exit_code } => {
            if exit_code == 0 {
                1
            } else {
                2
            }
        },
    }
}

/// The blocks that a view scrolled back by `offset` rows shows, top to bottom.
pub fn render_blocks(grid: &Grid, offset: usize) -> (out: Vec<RenderBlock>)
    requires
        grid@.wf(),
    ensures
        out@ == block_views(grid@, grid@.blocks.len() as int, offset as int),
{
    let first: usize = selection::first_visible_row(offset, grid.scrollback_len());
    let rows: usize = grid.rows();
    let behind: usize = grid.scrollback_len() + grid.cursor().row + 1;
    let blocks = grid.blocks();
    let mut out: Vec<RenderBlock> = Vec::new();
    for i in 0..blocks.len()
        invariant
            blocks@ == grid@.blocks,
            first == first_row(grid@, offset as int),
            rows == grid@.rows(),
            behind == grid@.cursor_abs_row() + 1,
            out@ == block_views(grid@, i as int, offset as int),
    {
        let end_abs: usize = if i + 1 < blocks.len() { blocks[i + 1].start_row } else { behind };
        let start: usize = clamp_to_view(blocks[i].start_row, first, rows);
        let end: usize = clamp_to_view(end_abs, first, rows);
        if start < end {
            out.push(
                RenderBlock {
                    start_view_row: start,
                    end_view_row: end,
                    state: block_look(blocks[i].state),
                },
            );
        }
    }
    out
}

/// The model of a list of rows.
pub open spec fn rows_of(rows: Seq<usize>) -> Seq<int> {
    Seq::new(rows.len(), |i: int| rows[i] as int)
}

/// The rows of the view at which a block starts, the top row aside.
pub fn view_boundaries(grid: &Grid, offset: usize) -> (out: Vec<usize>)
    requires
        grid@.wf(),
    ensures
        rows_of(out@) == boundaries(grid@, grid@.blocks.len() as int, offset as int),
{
    let first: usize = selection::first_visible_row(offset, grid.scrollback_len());
    let rows: usize = grid.rows();
    let blocks = grid.blocks();
    let mut out: Vec<usize> = Vec::new();
    assert(rows_of(out@) =~= Seq::<int>::empty());
    for i in 0..blocks.len()
        invariant
            blocks@ == grid@.blocks,
            first == first_row(grid@, offset as int),
            rows == grid@.rows(),
            rows_of(out@) == boundaries(grid@, i as int, offset as int),
    {
        let start: usize = blocks[i].start_row;
        if start > first && start - first < rows {
            let ghost before = out@;
            out.push(start - first);
            assert(rows_of(out@) =~= rows_of(before).push(start - first));
        }
    }
    out
}

/// How many boundaries lie at or above a row: the row is drawn that many gaps
/// lower.
pub fn boundaries_before(bounds: &[usize], row: usize) -> (n: usize)
    ensures
        n == crossed(rows_of(bounds@), row as int),
        n <= bounds@.len(),
{
    let ghost all = rows_of(bounds@);
    let mut n: usize = 0;
    for i in 0..bounds.len()
        invariant
            all == rows_of(bounds@),
            n <= i,
            n == crossed(all.take(i as int), row as int),
    {
        assert(all.take(i + 1).drop_last() =~= all.take(i as int));
        if 0 < bounds[i] && bounds[i] <= row {
            n += 1;
        }
    }
    assert(all.take(all.len() as int) =~= all);
    n
}

/// The grid is moved up by all gaps of its last row, so the rows below the last
/// boundary, and the cursor's with them, stand where they would without gaps.
pub proof fn bottom_rows_stay_in_place(bounds: Seq<int>, row: int, last: int)
    requires
        row <= last,
        forall|i: int| 0 <= i < bounds.len() ==> !(row < #[trigger] bounds[i] <= last),
    ensures
        crossed(bounds, row) == crossed(bounds, last),
    decreases bounds.len(),
{
    if bounds.len() > 0 {
        let front = bounds.drop_last();
        assert forall|i: int| 0 <= i < front.len() implies !(row < #[trigger] front[i] <= last) by {
            assert(front[i] == bounds[i]);
        }
        bottom_rows_stay_in_place(front, row, last);
        assert(!(row < bounds[bounds.len() - 1] <= last));
    }
}

/// A lower row is never drawn with fewer gaps above it.
pub proof fn gaps_grow_downwards(bounds: Seq<int>, row: int, lower: int)
    requires
        row <= lower,
    ensures
        crossed(bounds, row) <= crossed(bounds, lower),
    decreases bounds.len(),
{
    if bounds.len() > 0 {
        gaps_grow_downwards(bounds.drop_last(), row, lower);
    }
}

proof fn views_within(s: Screen, n: int, offset: int)
    requires
        0 <= n <= s.blocks.len(),
        0 <= s.rows(),
    ensures
        forall|i: int|
            0 <= i < block_views(s, n, offset).len() ==> {
                let b = #[trigger] block_views(s, n, offset)[i];
                b.start_view_row < b.end_view_row <= s.rows()
            },
    decreases n,
{
    if n > 0 {
        views_within(s, n - 1, offset);
        let above = block_views(s, n - 1, offset);
        let all = block_views(s, n, offset);
        assert forall|i: int| 0 <= i < all.len() implies {
            let b = #[trigger] all[i];
            b.start_view_row < b.end_view_row <= s.rows()
        } by {
            if i < above.len() {
                assert(all[i] == above[i]);
            } else {
                assert(block_view(s, n - 1, offset) == Some(all[i]));
            }
        }
    }
}

/// Every block that is drawn takes at least one row, and lies within the view.
pub proof fn drawn_blocks_are_visible(s: Screen, offset: int, i: int)
    requires
        s.wf(),
        0 <= i < block_views(s, s.blocks.len() as int, offset).len(),
    ensures
        ({
            let b = block_views(s, s.blocks.len() as int, offset)[i];
            b.start_view_row < b.end_view_row <= s.rows()
        }),
{
    views_within(s, s.blocks.len() as int, offset);
}

/// A block is drawn over exactly the rows of the view that belong to it: from its own
/// first row to before the next block's, or to the cursor's where it is the newest.
/// One that no row of the view belongs to is not drawn.
pub proof fn blocks_cover_their_rows(s: Screen, i: int, offset: int, v: int)
    requires
        s.wf(),
        offset >= 0,
        0 <= i < s.blocks.len(),
        0 <= v < s.rows(),
    ensures
        ({
            let abs = s.scrollback.len() - math::min(offset, s.scrollback.len() as int) + v;
            let behind = if i + 1 < s.blocks.len() {
                s.blocks[i + 1].start_row as int
            } else {
                s.scrollback.len() + s.cursor.row + 1
            };
            let belongs = s.blocks[i].start_row <= abs < behind;
            match block_view(s, i, offset) {
                Some(b) => (b.start_view_row <= v < b.end_view_row) == belongs,
                None => !belongs,
            }
        }),
{
}

/// A block looks as its state is: at the prompt, running, done, or failed where the
/// exit code is not 0. The four look different.
pub proof fn blocks_look_as_they_are(s: Screen, i: int, offset: int)
    requires
        block_view(s, i, offset) is Some,
    ensures
        ({
            let drawn = block_view(s, i, offset)->0.state;
            match s.blocks[i].state {
                TermBlockState::Running => drawn == 0,
                TermBlockState::Done { exit_code } => drawn == if exit_code == 0 {
                    1u8
                } else {
                    2u8
                },
                TermBlockState::Input => drawn == 3,
            }
        }),
{
}

/// Every block that the view shows is drawn, in order, and no other.
pub proof fn visible_blocks_are_drawn(s: Screen, n: int, offset: int, i: int)
    requires
        0 <= i < n <= s.blocks.len(),
    ensures
        block_view(s, i, offset) matches Some(b) ==> block_views(s, n, offset).contains(b),
        block_views(s, n, offset).len() <= n,
    decreases n,
{
    let all = block_views(s, n, offset);
    let above = block_views(s, n - 1, offset);
    if n > 1 {
        visible_blocks_are_drawn(s, n - 1, offset, if i < n - 1 { i } else { 0 });
    } else {
        assert(above.len() == 0);
    }
    if let Some(b) = block_view(s, i, offset) {
        if i == n - 1 {
            assert(all[all.len() - 1] == b);
        } else {
            let k = choose|k: int| 0 <= k < above.len() && above[k] == b;
            assert(all[k] == b);
        }
    }
}

/// A gap lies above a row of the view exactly where a block starts in it, the top row
/// aside.
pub proof fn gaps_lie_where_blocks_start(s: Screen, n: int, offset: int, row: int)
    requires
        s.wf(),
        offset >= 0,
        0 <= n <= s.blocks.len(),
    ensures
        boundaries(s, n, offset).contains(row) <==> 0 < row < s.rows() && exists|i: int|
            0 <= i < n && (#[trigger] s.blocks[i]).start_row == s.scrollback.len() - math::min(
                offset,
                s.scrollback.len() as int,
            ) + row,
    decreases n,
{
    let all = boundaries(s, n, offset);
    let first = s.scrollback.len() - math::min(offset, s.scrollback.len() as int);
    if n > 0 {
        gaps_lie_where_blocks_start(s, n - 1, offset, row);
        let above = boundaries(s, n - 1, offset);
        if all.contains(row) {
            let k = choose|k: int| 0 <= k < all.len() && all[k] == row;
            if k < above.len() {
                assert(above[k] == row);
                assert(above.contains(row));
            } else {
                assert(s.blocks[n - 1].start_row == first + row);
            }
        }
        if 0 < row < s.rows() && exists|i: int|
            0 <= i < n && (#[trigger] s.blocks[i]).start_row == first + row {
            let i = choose|i: int| 0 <= i < n && (#[trigger] s.blocks[i]).start_row == first + row;
            if i < n - 1 {
                assert(above.contains(row));
                let k = choose|k: int| 0 <= k < above.len() && above[k] == row;
                assert(all[k] == row);
            } else {
                assert(all[all.len() - 1] == row);
            }
        }
    }
}

/// A row is drawn lower by one gap for each boundary at it or above it.
pub proof fn each_boundary_adds_a_gap(bounds: Seq<int>, bound: int, row: int)
    ensures
        crossed(Seq::empty(), row) == 0,
        crossed(bounds.push(bound), row) == crossed(bounds, row) + if 0 < bound <= row {
            1int
        } else {
            0
        },
{
    assert(bounds.push(bound).drop_last() =~= bounds);
}

/// Blocks are drawn in the order in which they came: a newer one is drawn behind all
/// older ones.
pub proof fn blocks_are_drawn_in_order(s: Screen, n: int, offset: int)
    requires
        0 <= n < s.blocks.len(),
    ensures
        ({
            let older = block_views(s, n, offset);
            let all = block_views(s, n + 1, offset);
            &&& all.len() == older.len() + if block_view(s, n, offset) is Some {
                1int
            } else {
                0
            }
            &&& all.take(older.len() as int) == older
            &&& block_view(s, n, offset) matches Some(b) ==> all.last() == b
        }),
{
    let older = block_views(s, n, offset);
    let all = block_views(s, n + 1, offset);
    assert(all.take(older.len() as int) =~= older);
}

} // verus!
