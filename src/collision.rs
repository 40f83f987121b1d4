use vstd::prelude::*;
use crate::grid::{BlockGrid, damaged, no_gain};

verus! {

/// How a ball's edge fares at the cell boundary it has just reached.
#[derive(PartialEq, Eq, Structural, Clone, Copy, Debug)]
pub enum Bounce {
    /// Nothing solid beyond the boundary: the ball keeps its direction.
    Through,
    /// The boundary is the arena's edge: the ball reflects, nothing is damaged.
    Wall,
    /// A block beyond the boundary: the ball reflects and the block loses a point.
    Block,
}

/// Index one step beyond `i` in the direction of travel, among `n`
/// indices, if there is one.
pub open spec fn step_beyond(i: int, forward: bool, n: int) -> Option<int> {
    if forward {
        if i + 1 < n { Some(i + 1) } else { None }
    } else {
        if i > 0 { Some(i - 1) } else { None }
    }
}

/// `g` with one point of durability taken from the cell at (`r`, `c`).
pub open spec fn struck(g: Seq<Seq<i32>>, r: int, c: int) -> Seq<Seq<i32>> {
    g.update(r, g[r].update(c, damaged(g[r][c])))
}

/// Outcome of reaching a boundary whose far side, if it exists, is looked
/// at in two cells: the one aligned with the ball's centre first, then the
/// one aligned with its leading edge (a corner is taken as an edge).
pub open spec fn strike(
    g: Seq<Seq<i32>>,
    beyond_exists: bool,
    first: (int, int),
    second: (int, int),
) -> (Seq<Seq<i32>>, Bounce) {
    if !beyond_exists {
        (g, Bounce::Wall)
    } else if g[first.0][first.1] > 0 {
        (struck(g, first.0, first.1), Bounce::Block)
    } else if g[second.0][second.1] > 0 {
        (struck(g, second.0, second.1), Bounce::Block)
    } else {
        (g, Bounce::Through)
    }
}

/// Reaching a vertical boundary (travel along a row): the ball's centre is
/// in row `row`, its leading edge in (`lead_row`, `lead_col`).
pub open spec fn column_strike(
    g: Seq<Seq<i32>>,
    width: int,
    row: int,
    lead_row: int,
    lead_col: int,
    rightward: bool,
) -> (Seq<Seq<i32>>, Bounce) {
    let next = step_beyond(lead_col, rightward, width);
    let nc = if next is Some { next->0 } else { 0 };
    strike(g, next is Some, (row, nc), (lead_row, nc))
}

/// Reaching a horizontal boundary (travel along a column): the ball's centre
/// is in column `col`, its leading edge in (`lead_row`, `lead_col`).
pub open spec fn row_strike(
    g: Seq<Seq<i32>>,
    col: int,
    lead_row: int,
    lead_col: int,
    downward: bool,
) -> (Seq<Seq<i32>>, Bounce) {
    let next = step_beyond(lead_row, downward, g.len() as int);
    let nr = if next is Some { next->0 } else { 0 };
    strike(g, next is Some, (nr, col), (nr, lead_col))
}

impl BlockGrid {
    fn strike_pair(&mut self, r1: usize, c1: usize, r2: usize, c2: usize) -> (b: Bounce)
        requires
            old(self).wf(),
            old(self).in_bounds(r1 as int, c1 as int),
            old(self).in_bounds(r2 as int, c2 as int),
        ensures
            final(self).wf(),
            final(self).spec_width() == old(self).spec_width(),
            (final(self)@, b) == strike(old(self)@, true, (r1 as int, c1 as int), (r2 as int, c2 as int)),
            no_gain(old(self)@, final(self)@),
    {
        let first = self.cell_at(r1, c1).unwrap();
        if first > 0 {
            self.damage(r1, c1);
            return Bounce::Block;
        }
        let second = self.cell_at(r2, c2).unwrap();
        if second > 0 {
            self.damage(r2, c2);
            return Bounce::Block;
        }
        Bounce::Through
    }

    /// Resolves a ball's edge reaching a vertical cell boundary: a wall at
    /// the arena's side, else the first block found beyond the boundary (in
    /// the centre's row, then in the leading edge's row) is damaged.
    pub fn hit_column_boundary(&mut self, row: usize, lead_row: usize, lead_col: usize, rightward: bool) -> (b: Bounce)
        requires
            old(self).wf(),
            old(self).in_bounds(row as int, lead_col as int),
            old(self).in_bounds(lead_row as int, lead_col as int),
        ensures
            final(self).wf(),
            final(self).spec_width() == old(self).spec_width(),
            (final(self)@, b) == column_strike(
                old(self)@,
                old(self).spec_width() as int,
                row as int,
                lead_row as int,
                lead_col as int,
                rightward,
            ),
            no_gain(old(self)@, final(self)@),
    {
        let w = self.width();
        if rightward {
            if lead_col + 1 < w {
                self.strike_pair(row, lead_col + 1, lead_row, lead_col + 1)
            } else {
                Bounce::Wall
            }
        } else {
            if lead_col > 0 {
                self.strike_pair(row, lead_col - 1, lead_row, lead_col - 1)
            } else {
                Bounce::Wall
            }
        }
    }

    /// Resolves a ball's edge reaching a horizontal cell boundary: a wall at
    /// the arena's top or bottom, else the first block found beyond the
    /// boundary (in the centre's column, then in the leading edge's column)
    /// is damaged.
    pub fn hit_row_boundary(&mut self, col: usize, lead_row: usize, lead_col: usize, downward: bool) -> (b: Bounce)
        requires
            old(self).wf(),
            old(self).in_bounds(lead_row as int, col as int),
            old(self).in_bounds(lead_row as int, lead_col as int),
        ensures
            final(self).wf(),
            final(self).spec_width() == old(self).spec_width(),
            (final(self)@, b) == row_strike(old(self)@, col as int, lead_row as int, lead_col as int, downward),
            no_gain(old(self)@, final(self)@),
    {
        let h = self.height();
        if downward {
            if lead_row + 1 < h {
                self.strike_pair(lead_row + 1, col, lead_row + 1, lead_col)
            } else {
                Bounce::Wall
            }
        } else {
            if lead_row > 0 {
                self.strike_pair(lead_row - 1, col, lead_row - 1, lead_col)
            } else {
                Bounce::Wall
            }
        }
    }

    /// Whether a ball whose leading edge is in row `lead_row` and which has
    /// reached a horizontal boundary is crossing the bottom line.
    pub fn exits_bottom(&self, lead_row: usize, downward: bool) -> (r: bool)
        ensures
            r == (downward && lead_row + 1 == self@.len()),
    {
        downward && self.height() > 0 && lead_row == self.height() - 1
    }
}

} // verus!
