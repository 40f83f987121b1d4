use vstd::prelude::*;
use rand::rngs::StdRng;
use crate::grid::BONUS;
use crate::random::{draw_in_range, draw_ratio, shuffle_cells};

verus! {

/// The smaller of two integers.
pub open spec fn min_of(a: int, b: int) -> int {
    if a <= b { a } else { b }
}

/// Least number of blocks in a new row at `level` on a grid `width` cells wide.
pub open spec fn block_count_low(level: int, width: int) -> int {
    min_of(level / 15 + 1, width / 3)
}

/// Bound above the number of blocks in a new row (excluded when it lies
/// above the least number).
pub open spec fn block_count_high(level: int, width: int) -> int {
    min_of(level / 6 + min_of(level, 3) + 2, width - 2)
}

/// `n` is a number of blocks that a new row may hold: drawn from
/// `low..high`, or `low` itself where that range is empty.
pub open spec fn block_count_allowed(level: int, width: int, n: int) -> bool {
    let low = block_count_low(level, width);
    let high = block_count_high(level, width);
    if low < high { low <= n < high } else { n == low }
}

/// Cell `i` of a new row before it is shuffled: the first `n` cells are
/// blocks of durability `level`, the cell right after them a bonus when
/// `bonus` holds, the rest empty.
pub open spec fn template_cell(level: i32, n: int, bonus: bool, i: int) -> i32 {
    if i < n {
        level
    } else if i == n && bonus {
        BONUS
    } else {
        0
    }
}

/// A new row before it is shuffled.
pub open spec fn row_template(level: i32, width: nat, n: int, bonus: bool) -> Seq<i32> {
    Seq::new(width, |i: int| template_cell(level, n, bonus, i))
}

/// The range from which the number of blocks of a new row is drawn, as
/// (least, bound above).
pub fn block_count_bounds(level: u32, width: usize) -> (r: (usize, usize))
    requires
        width >= 2,
    ensures
        r.0 == block_count_low(level as int, width as int),
        r.1 == block_count_high(level as int, width as int),
{
    let lv = level as usize;
    let a = lv / 15 + 1;
    let b = width / 3;
    let low = if a <= b { a } else { b };
    let c = if lv <= 3 { lv } else { 3 };
    let d = lv / 6 + c + 2;
    let e = width - 2;
    let high = if d <= e { d } else { e };
    (low, high)
}

/// A new row before it is shuffled: `n` blocks of durability `level`, then
/// a bonus if `bonus` holds, then empty cells.
pub fn build_row(level: i32, width: usize, n: usize, bonus: bool) -> (r: Vec<i32>)
    ensures
        r@ == row_template(level, width as nat, n as int, bonus),
{
    let mut r: Vec<i32> = Vec::new();
    let mut i: usize = 0;
    while i < width
        invariant
            i <= width,
            r@ == Seq::new(i as nat, |k: int| template_cell(level, n as int, bonus, k)),
        decreases width - i,
    {
        let c = if i < n {
            level
        } else if i == n && bonus {
            BONUS
        } else {
            0
        };
        r.push(c);
        i = i + 1;
        assert(r@ =~= Seq::new(i as nat, |k: int| template_cell(level, n as int, bonus, k)));
    }
    r
}

/// A random new row for `level` on a grid `width` cells wide: a number of
/// blocks drawn from the allowed range, a bonus after them four times in
/// five, all in a random order.
pub fn random_row(level: u32, width: usize, rng: &mut StdRng) -> (r: Vec<i32>)
    requires
        width >= 2,
        level <= i32::MAX,
    ensures
        r@.len() == width,
        exists|n: int, bonus: bool|
            block_count_allowed(level as int, width as int, n)
            && r@.to_multiset() == #[trigger] row_template(level as i32, width as nat, n, bonus).to_multiset(),
{
    let (low, high) = block_count_bounds(level, width);
    let n = if low < high {
        draw_in_range(rng, low, high)
    } else {
        low
    };
    let bonus = draw_ratio(rng, 4, 5);
    let mut row = build_row(level as i32, width, n, bonus);
    shuffle_cells(rng, &mut row);
    assert(block_count_allowed(level as int, width as int, n as int));
    assert(row@.to_multiset() == row_template(level as i32, width as nat, n as int, bonus).to_multiset());
    row
}

} // verus!
