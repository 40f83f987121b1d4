use vstd::prelude::*;
use rand::rngs::StdRng;
use crate::grid::{BlockGrid, has_block};
use crate::rows::{block_count_allowed, row_template};
use crate::random::seeded;
use crate::wave::{Wave, WaveView, in_flight};

verus! {

/// One game: the grid, the current wave, the level, the number of balls a
/// wave launches, and whether the game is over.
pub struct Game {
    pub grid: BlockGrid,
    pub wave: Wave,
    pub level: u32,
    pub balls: u32,
    pub over: bool,
    pub rng: StdRng,
}

impl Game {
    pub open spec fn wf(&self) -> bool {
        self.grid.wf() && self.wave.wf() && self.level <= i32::MAX
    }

    /// A new game on a grid `width` cells wide and `height` rows high, at
    /// level 1 with one ball and a first row injected; rows are drawn from a
    /// generator seeded with `seed`.
    pub fn new(width: usize, height: usize, seed: u64) -> (g: Game)
        requires
            width >= 2,
            height >= 1,
        ensures
            g.wf(),
            g.grid.spec_width() == width,
            g.grid@.len() == height,
            g.level == 1,
            g.balls == 1,
            !g.over,
            !in_flight(g.wave@),
            exists|n: int, bonus: bool|
                block_count_allowed(1, width as int, n)
                && g.grid@[0].to_multiset() == #[trigger] row_template(1, width as nat, n, bonus).to_multiset(),
            forall|r: int, c: int| 1 <= r < height && 0 <= c < width ==> g.grid.cell(r, c) == 0,
    {
        let mut grid = BlockGrid::new(width, height);
        let mut rng = seeded(seed);
        assert(!has_block(grid@.last())) by {
            assert forall|c: int| 0 <= c < grid@.last().len() implies !(grid@.last()[c] > 0) by {
                assert(grid.in_bounds(height - 1, c));
            }
        }
        let ghost empty = grid@;
        assert forall|r: int, c: int| 0 <= r < height && 0 <= c < width implies #[trigger] empty[r][c] == 0 by {
            assert(grid.in_bounds(r, c));
            assert(grid.cell(r, c) == 0);
        }
        let reached = grid.inject_row(1, &mut rng);
        assert forall|r: int, c: int| 1 <= r < height && 0 <= c < width implies grid.cell(r, c) == 0 by {
            assert(grid@.drop_first()[r - 1] == grid@[r]);
            assert(empty.drop_last()[r - 1] == empty[r - 1]);
        }
        Game { grid, wave: Wave::new(), level: 1, balls: 1, over: reached, rng }
    }

    /// Starts a wave of all the game's balls. Refused, with nothing changed,
    /// when the game is over or a wave is still in flight.
    pub fn launch(&mut self) -> (started: bool)
        requires
            old(self).wf(),
        ensures
            final(self).wf(),
            started == (!old(self).over && !in_flight(old(self).wave@)),
            started ==> final(self).wave@ == (WaveView {
                states: Seq::empty(),
                waiting: old(self).balls as nat,
                countdown: 0,
                rendezvous: None,
            }),
            !started ==> final(self).wave@ == old(self).wave@,
            final(self).grid@ == old(self).grid@,
            final(self).grid.spec_width() == old(self).grid.spec_width(),
            final(self).level == old(self).level,
            final(self).balls == old(self).balls,
            final(self).over == old(self).over,
    {
        if self.over {
            return false;
        }
        self.wave.launch(self.balls)
    }

    /// Adds the bonus balls collected during a wave to the next waves.
    pub fn add_balls(&mut self, k: u32)
        requires
            old(self).balls + k <= u32::MAX,
        ensures
            final(self).balls == old(self).balls + k,
            final(self).grid@ == old(self).grid@,
            final(self).grid.spec_width() == old(self).grid.spec_width(),
            final(self).wave@ == old(self).wave@,
            final(self).level == old(self).level,
            final(self).over == old(self).over,
    {
        self.balls = self.balls + k;
    }

    /// Moves to the next level: a new row enters the grid, and the game is
    /// over if the row it pushed out still held a block. Returns that.
    pub fn advance_level(&mut self) -> (reached: bool)
        requires
            old(self).wf(),
            old(self).level < i32::MAX,
        ensures
            final(self).wf(),
            final(self).level == old(self).level + 1,
            reached == has_block(old(self).grid@.last()),
            final(self).over == (old(self).over || reached),
            final(self).grid.spec_width() == old(self).grid.spec_width(),
            final(self).grid@.len() == old(self).grid@.len(),
            final(self).grid@.drop_first() == old(self).grid@.drop_last(),
            final(self).wave@ == old(self).wave@,
            final(self).balls == old(self).balls,
    {
        self.level = self.level + 1;
        let reached = self.grid.inject_row(self.level, &mut self.rng);
        self.over = self.over || reached;
        reached
    }
}

} // verus!
