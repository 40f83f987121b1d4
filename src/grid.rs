use vstd::prelude::*;
use rand::rngs::StdRng;
use crate::rows::{block_count_allowed, random_row, row_template};

verus! {

/// Cell value of a bonus pickup: consumed on contact, never damaged.
pub const BONUS: i32 = -1;

/// What a cell becomes when a ball strikes it: a block loses one point of
/// durability, anything else is left as it is.
pub open spec fn damaged(c: i32) -> i32 {
    if c > 0 { (c - 1) as i32 } else { c }
}

/// Durability that a cell contributes to its row (bonus cells contribute none).
pub open spec fn durability(c: i32) -> int {
    if c > 0 { c as int } else { 0 }
}

/// Total durability of a row.
pub open spec fn row_total(s: Seq<i32>) -> int
    decreases s.len(),
{
    if s.len() == 0 {
        0
    } else {
        row_total(s.drop_last()) + durability(s.last())
    }
}

/// `after` has the rows of `before`, none of them with more total durability.
pub open spec fn no_gain(before: Seq<Seq<i32>>, after: Seq<Seq<i32>>) -> bool {
    &&& after.len() == before.len()
    &&& forall|r: int| 0 <= r < before.len() ==> #[trigger] row_total(after[r]) <= row_total(before[r])
}

/// Replacing one cell changes the row's total by the change in that cell's durability.
pub proof fn lemma_row_total_update(s: Seq<i32>, i: int, v: i32)
    requires
        0 <= i < s.len(),
    ensures
        row_total(s.update(i, v)) == row_total(s) - durability(s[i]) + durability(v),
    decreases s.len(),
{
    let t = s.update(i, v);
    if i == s.len() - 1 {
        assert(t.drop_last() =~= s.drop_last());
    } else {
        assert(t.drop_last() =~= s.drop_last().update(i, v));
        lemma_row_total_update(s.drop_last(), i, v);
    }
}

/// Lowering the durability of one cell gains no row any durability.
pub proof fn lemma_update_no_gain(g: Seq<Seq<i32>>, row: int, col: int, v: i32)
    requires
        0 <= row < g.len(),
        0 <= col < g[row].len(),
        durability(v) <= durability(g[row][col]),
    ensures
        no_gain(g, g.update(row, g[row].update(col, v))),
{
    lemma_row_total_update(g[row], col, v);
    let h = g.update(row, g[row].update(col, v));
    assert forall|r: int| 0 <= r < g.len() implies #[trigger] row_total(h[r]) <= row_total(g[r]) by {
        if r == row {
        }
    }
}

/// Whether a row holds a block.
pub open spec fn has_block(row: Seq<i32>) -> bool {
    exists|c: int| 0 <= c < row.len() && row[c] > 0
}

/// Every row of `rows` holds exactly `width` cells.
pub open spec fn rows_have_width(rows: Seq<Seq<i32>>, width: nat) -> bool {
    forall|r: int| 0 <= r < rows.len() ==> #[trigger] rows[r].len() == width
}

/// The destructible grid: an ordered queue of rows, the front (index 0)
/// nearest the top, the back nearest the launch line.
pub struct BlockGrid {
    rows: Vec<Vec<i32>>,
    width: usize,
}

impl View for BlockGrid {
    type V = Seq<Seq<i32>>;

    closed spec fn view(&self) -> Seq<Seq<i32>> {
        self.rows@.map_values(|r: Vec<i32>| r@)
    }
}

impl BlockGrid {
    /// Number of cells in each row.
    pub closed spec fn spec_width(&self) -> nat {
        self.width as nat
    }

    /// A grid has at least one row, at least two columns, and rows of equal width.
    pub open spec fn wf(&self) -> bool {
        &&& self@.len() >= 1
        &&& self.spec_width() >= 2
        &&& rows_have_width(self@, self.spec_width())
    }

    /// Value of the cell at (`row`, `col`) of the view.
    pub open spec fn cell(&self, row: int, col: int) -> i32 {
        self@[row][col]
    }

    /// (`row`, `col`) names a cell of the grid.
    pub open spec fn in_bounds(&self, row: int, col: int) -> bool {
        0 <= row < self@.len() && 0 <= col < self.spec_width()
    }

    /// An empty grid of `height` rows of `width` cells.
    pub fn new(width: usize, height: usize) -> (g: BlockGrid)
        requires
            width >= 2,
            height >= 1,
        ensures
            g.wf(),
            g.spec_width() == width,
            g@.len() == height,
            forall|r: int, c: int| g.in_bounds(r, c) ==> g.cell(r, c) == 0,
    {
        let mut rows: Vec<Vec<i32>> = Vec::new();
        let mut i: usize = 0;
        while i < height
            invariant
                i <= height,
                rows@.len() == i,
                forall|r: int| 0 <= r < i ==> #[trigger] rows@[r]@ == Seq::new(width as nat, |c: int| 0i32),
            decreases height - i,
        {
            rows.push(vec_of_zeros(width));
            i = i + 1;
        }
        let g = BlockGrid { rows, width };
        assert(rows_have_width(g@, width as nat));
        g
    }

    pub fn width(&self) -> (w: usize)
        ensures
            w == self.spec_width(),
    {
        self.width
    }

    pub fn height(&self) -> (h: usize)
        ensures
            h == self@.len(),
    {
        self.rows.len()
    }

    /// Bounds-checked read of one cell.
    pub fn cell_at(&self, row: usize, col: usize) -> (r: Option<i32>)
        requires
            self.wf(),
        ensures
            self.in_bounds(row as int, col as int) ==> r == Some(self.cell(row as int, col as int)),
            !self.in_bounds(row as int, col as int) ==> r is None,
    {
        if row < self.rows.len() && col < self.width {
            assert(self.rows@[row as int]@ == self@[row as int]);
            Some(self.rows[row][col])
        } else {
            None
        }
    }

    /// Strikes one cell: a block loses one point, a bonus is consumed (and
    /// `true` returned), an empty cell is left alone.
    pub fn damage(&mut self, row: usize, col: usize) -> (bonus: bool)
        requires
            old(self).wf(),
            old(self).in_bounds(row as int, col as int),
        ensures
            final(self).wf(),
            final(self).spec_width() == old(self).spec_width(),
            bonus == (old(self).cell(row as int, col as int) == BONUS),
            final(self)@ == old(self)@.update(
                row as int,
                old(self)@[row as int].update(
                    col as int,
                    if bonus { 0i32 } else { damaged(old(self).cell(row as int, col as int)) },
                ),
            ),
            no_gain(old(self)@, final(self)@),
    {
        proof {
            let c = self.cell(row as int, col as int);
            lemma_update_no_gain(self@, row as int, col as int, if c == BONUS { 0i32 } else { damaged(c) });
        }
        let c = self.cell_at(row, col).unwrap();
        if c == BONUS {
            self.set_cell(row, col, 0);
            true
        } else {
            if c > 0 {
                self.set_cell(row, col, c - 1);
            } else {
                assert(old(self)@[row as int].update(col as int, c) =~= old(self)@[row as int]);
                assert(old(self)@.update(row as int, old(self)@[row as int]) =~= old(self)@);
            }
            false
        }
    }

    /// Consumes a bonus pickup at (`row`, `col`) if one is there; any other
    /// cell is left unchanged.
    pub fn take_bonus(&mut self, row: usize, col: usize) -> (taken: bool)
        requires
            old(self).wf(),
            old(self).in_bounds(row as int, col as int),
        ensures
            final(self).wf(),
            final(self).spec_width() == old(self).spec_width(),
            taken == (old(self).cell(row as int, col as int) == BONUS),
            taken ==> final(self)@ == old(self)@.update(
                row as int,
                old(self)@[row as int].update(col as int, 0i32),
            ),
            !taken ==> final(self)@ == old(self)@,
            no_gain(old(self)@, final(self)@),
    {
        proof {
            lemma_update_no_gain(self@, row as int, col as int, 0i32);
            let c = self.cell(row as int, col as int);
            if c != BONUS {
                assert(self@[row as int].update(col as int, c) =~= self@[row as int]);
                assert(self@.update(row as int, self@[row as int]) =~= self@);
            }
        }
        let c = self.cell_at(row, col).unwrap();
        if c == BONUS {
            self.set_cell(row, col, 0);
            true
        } else {
            false
        }
    }

    /// Evicts the back row and inserts `row` at the front. Returns whether
    /// the evicted row still held a block, i.e. an uncleared row reached the
    /// bottom.
    pub fn inject_row_with(&mut self, row: Vec<i32>) -> (reached: bool)
        requires
            old(self).wf(),
            row@.len() == old(self).spec_width(),
        ensures
            final(self).wf(),
            final(self).spec_width() == old(self).spec_width(),
            final(self)@ == seq![row@] + old(self)@.drop_last(),
            reached == has_block(old(self)@.last()),
    {
        let ghost before = self@;
        let back = self.rows.pop().unwrap();
        assert(back@ == before.last());
        let reached = any_block(&back);
        self.rows.insert(0, row);
        assert(self@ =~= seq![row@] + before.drop_last());
        reached
    }

    /// Advances the grid by one row for `level`: the back row is evicted and
    /// a random new row (see `random_row`) enters at the front. Returns
    /// whether the evicted row still held a block.
    pub fn inject_row(&mut self, level: u32, rng: &mut StdRng) -> (reached: bool)
        requires
            old(self).wf(),
            level <= i32::MAX,
        ensures
            final(self).wf(),
            final(self).spec_width() == old(self).spec_width(),
            final(self)@.len() == old(self)@.len(),
            final(self)@.drop_first() == old(self)@.drop_last(),
            reached == has_block(old(self)@.last()),
            exists|n: int, bonus: bool|
                block_count_allowed(level as int, final(self).spec_width() as int, n)
                && final(self)@[0].to_multiset() == #[trigger] row_template(
                    level as i32,
                    final(self).spec_width(),
                    n,
                    bonus,
                ).to_multiset(),
    {
        let row = random_row(level, self.width, rng);
        let ghost before = self@;
        let reached = self.inject_row_with(row);
        assert(self@.drop_first() =~= before.drop_last());
        reached
    }

    fn set_cell(&mut self, row: usize, col: usize, v: i32)
        requires
            old(self).wf(),
            old(self).in_bounds(row as int, col as int),
        ensures
            final(self).wf(),
            final(self).spec_width() == old(self).spec_width(),
            final(self)@ == old(self)@.update(row as int, old(self)@[row as int].update(col as int, v)),
    {
        let ghost before = self@;
        assert(self.rows@[row as int]@ == before[row as int]);
        self.rows[row][col] = v;
        assert(self@ =~= before.update(row as int, before[row as int].update(col as int, v)));
    }
}

fn any_block(row: &Vec<i32>) -> (r: bool)
    ensures
        r == has_block(row@),
{
    let mut i: usize = 0;
    while i < row.len()
        invariant
            i <= row@.len(),
            forall|c: int| 0 <= c < i ==> row@[c] <= 0,
        decreases row@.len() - i,
    {
        if row[i] > 0 {
            return true;
        }
        i = i + 1;
    }
    false
}

fn vec_of_zeros(n: usize) -> (v: Vec<i32>)
    ensures
        v@ == Seq::new(n as nat, |c: int| 0i32),
{
    let mut v: Vec<i32> = Vec::new();
    let mut i: usize = 0;
    while i < n
        invariant
            i <= n,
            v@ == Seq::new(i as nat, |c: int| 0i32),
        decreases n - i,
    {
        v.push(0);
        i = i + 1;
        assert(v@ =~= Seq::new(i as nat, |c: int| 0i32));
    }
    v
}

} // verus!
