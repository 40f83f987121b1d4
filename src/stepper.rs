use vstd::prelude::*;
use crate::collision::{Bounce, column_strike, row_strike};
use crate::grid::{BlockGrid, no_gain, row_total, BONUS};
use crate::wave::{BallState, Wave, WaveView, arrive_spec};

verus! {

/// Where a ball stands at the start of a sub-step, in grid cells, and what
/// the sub-step reached.
#[derive(PartialEq, Eq, Structural, Clone, Copy, Debug)]
pub struct SubStep {
    /// Row of the ball's centre.
    pub row: usize,
    /// Column of the ball's centre.
    pub col: usize,
    /// Row of the ball's leading edge.
    pub lead_row: usize,
    /// Column of the ball's leading edge.
    pub lead_col: usize,
    /// The ball travels toward higher columns.
    pub rightward: bool,
    /// The ball travels toward higher rows (toward the bottom line).
    pub downward: bool,
    /// The sub-step ends on a vertical cell boundary.
    pub reach_x: bool,
    /// The sub-step ends on a horizontal cell boundary.
    pub reach_y: bool,
}

/// What a sub-step asks of the ball's motion.
#[derive(PartialEq, Eq, Structural, Clone, Copy, Debug)]
pub struct Outcome {
    /// A bonus pickup under the ball's centre was consumed.
    pub bonus: bool,
    /// Reverse the horizontal direction and remaining displacement.
    pub flip_x: bool,
    /// Reverse the vertical direction and remaining displacement.
    pub flip_y: bool,
    /// The ball has reached the bottom line: it moves no further this tick.
    pub stop: bool,
    /// The ball was the first of its wave to reach the bottom line.
    pub first_arrival: bool,
}

/// The grid once a bonus under the ball's centre, if any, is consumed.
pub open spec fn after_pickup(g: Seq<Seq<i32>>, s: SubStep) -> Seq<Seq<i32>> {
    if g[s.row as int][s.col as int] == BONUS {
        g.update(s.row as int, g[s.row as int].update(s.col as int, 0i32))
    } else {
        g
    }
}

/// Grid and bounce of the vertical boundary, if one was reached.
pub open spec fn x_part(g: Seq<Seq<i32>>, width: int, s: SubStep) -> (Seq<Seq<i32>>, Bounce) {
    if s.reach_x {
        column_strike(g, width, s.row as int, s.lead_row as int, s.lead_col as int, s.rightward)
    } else {
        (g, Bounce::Through)
    }
}

/// Grid and bounce of the horizontal boundary, if one was reached.
pub open spec fn y_part(g: Seq<Seq<i32>>, s: SubStep) -> (Seq<Seq<i32>>, Bounce) {
    if s.reach_y {
        row_strike(g, s.col as int, s.lead_row as int, s.lead_col as int, s.downward)
    } else {
        (g, Bounce::Through)
    }
}

/// The sub-step brings the ball onto the bottom line.
pub open spec fn reaches_bottom(height: int, s: SubStep) -> bool {
    s.reach_y && s.downward && s.lead_row + 1 == height
}

/// Every cell that a sub-step reads lies in the grid.
pub open spec fn substep_in_grid(g: BlockGrid, s: SubStep) -> bool {
    &&& g.in_bounds(s.row as int, s.col as int)
    &&& g.in_bounds(s.lead_row as int, s.lead_col as int)
    &&& g.in_bounds(s.row as int, s.lead_col as int)
    &&& g.in_bounds(s.lead_row as int, s.col as int)
}

/// Damage accumulates: if no row gains durability over one step, nor over
/// the next, none gains over both, so a whole tick of sub-steps raises no
/// row's total durability.
pub proof fn lemma_no_gain_trans(a: Seq<Seq<i32>>, b: Seq<Seq<i32>>, c: Seq<Seq<i32>>)
    requires
        no_gain(a, b),
        no_gain(b, c),
    ensures
        no_gain(a, c),
{
    assert forall|r: int| 0 <= r < a.len() implies #[trigger] row_total(c[r])
        <= row_total(a[r]) by {
        assert(row_total(c[r]) <= row_total(b[r]));
    }
}

/// Resolves the end of one sub-step of a running ball: consumes a bonus
/// under its centre, resolves the boundary (or boundaries) reached, and, on
/// the bottom line, records the ball's arrival in its wave.
pub fn resolve_substep(grid: &mut BlockGrid, wave: &mut Wave, ball: usize, s: SubStep) -> (o: Outcome)
    requires
        old(grid).wf(),
        old(wave).wf(),
        substep_in_grid(*old(grid), s),
        ball < old(wave)@.states.len(),
        old(wave)@.states[ball as int] == BallState::Running,
    ensures
        final(grid).wf(),
        final(wave).wf(),
        final(grid).spec_width() == old(grid).spec_width(),
        ({
            let g0 = old(grid)@;
            let g1 = after_pickup(g0, s);
            let xr = x_part(g1, old(grid).spec_width() as int, s);
            let yr = y_part(xr.0, s);
            let bottom = reaches_bottom(g0.len() as int, s);
            &&& o.bonus == (g0[s.row as int][s.col as int] == BONUS)
            &&& o.flip_x == (xr.1 != Bounce::Through)
            &&& o.flip_y == (yr.1 != Bounce::Through)
            &&& final(grid)@ == yr.0
            &&& o.stop == bottom
            &&& o.first_arrival == (bottom && old(wave)@.rendezvous is None)
            &&& final(wave)@ == if bottom { arrive_spec(old(wave)@, ball as nat) } else { old(wave)@ }
        }),
        no_gain(old(grid)@, final(grid)@),
{
    let ghost g0 = grid@;
    let bonus = grid.take_bonus(s.row, s.col);
    let ghost g1 = grid@;
    let mut flip_x = false;
    if s.reach_x {
        let b = grid.hit_column_boundary(s.row, s.lead_row, s.lead_col, s.rightward);
        flip_x = b != Bounce::Through;
    }
    let ghost g2 = grid@;
    proof { lemma_no_gain_trans(g0, g1, g2); }
    let mut flip_y = false;
    let mut stop = false;
    let mut first_arrival = false;
    if s.reach_y {
        let b = grid.hit_row_boundary(s.col, s.lead_row, s.lead_col, s.downward);
        flip_y = b != Bounce::Through;
        proof { lemma_no_gain_trans(g0, g2, grid@); }
        if grid.exits_bottom(s.lead_row, s.downward) {
            stop = true;
            first_arrival = wave.arrive(ball);
        }
    }
    Outcome { bonus, flip_x, flip_y, stop, first_arrival }
}

} // verus!
