//! Reference patterns of the Life rule, proved against the step
//! specification: the 2x2 block still life and the period-2 blinker.

use crate::sparse::{live_neighbors, next_alive, step_spec};
use vstd::assert_sets_equal;
use vstd::prelude::*;

verus! {

/// The world `n` generations after `s`.
pub open spec fn iterate_step(s: Set<(int, int)>, n: nat) -> Set<(int, int)>
    decreases n,
{
    if n == 0 {
        s
    } else {
        step_spec(iterate_step(s, (n - 1) as nat))
    }
}

/// The four cells of a 2x2 block with corner (0, 0): a still life.
pub open spec fn block_cells() -> Set<(int, int)> {
    set![(0int, 0int), (1int, 0int), (0int, 1int), (1int, 1int)]
}

/// The three cells of the horizontal blinker.
pub open spec fn blinker_horizontal() -> Set<(int, int)> {
    set![(1int, 0int), (1int, 1int), (1int, 2int)]
}

/// The three cells of the vertical blinker.
pub open spec fn blinker_vertical() -> Set<(int, int)> {
    set![(0int, 1int), (1int, 1int), (2int, 1int)]
}

/// A cell far from the bounding box of every live cell has no live
/// neighbor, so the rule leaves it dead.
proof fn lemma_far_from_box(
    s: Set<(int, int)>,
    x0: int,
    y0: int,
    x1: int,
    y1: int,
    x: int,
    y: int,
)
    requires
        forall|p: (int, int)| #[trigger] s.contains(p) ==> x0 <= p.0 <= x1 && y0 <= p.1 <= y1,
        x < x0 - 1 || x > x1 + 1 || y < y0 - 1 || y > y1 + 1,
    ensures
        live_neighbors(s, x, y) == 0,
        !s.contains((x, y)),
        !next_alive(s, x, y),
{
}

/// One generation leaves the 2x2 block exactly as it was: every block
/// cell has 3 live neighbors and survives, and no dead cell sees more
/// than 2.
pub proof fn lemma_block_one_step()
    ensures
        step_spec(block_cells()) == block_cells(),
{
    let b = block_cells();
    assert forall|p: (int, int)|
        step_spec(b).contains(p) == b.contains(p) by {
        if -1 <= p.0 <= 2 && -1 <= p.1 <= 2 {
            assert(next_alive(b, p.0, p.1) == b.contains(p));
        } else {
            lemma_far_from_box(b, 0, 0, 1, 1, p.0, p.1);
        }
    }
    assert_sets_equal!(step_spec(b) == b);
}

/// The block is a still life: it is unchanged after any number of
/// generations.
pub proof fn lemma_block_still_life(n: nat)
    ensures
        iterate_step(block_cells(), n) == block_cells(),
    decreases n,
{
    if n > 0 {
        lemma_block_still_life((n - 1) as nat);
        lemma_block_one_step();
    }
}

/// One generation turns the horizontal blinker into the vertical one.
pub proof fn lemma_blinker_flips()
    ensures
        step_spec(blinker_horizontal()) == blinker_vertical(),
{
    let b = blinker_horizontal();
    assert forall|p: (int, int)|
        step_spec(b).contains(p) == blinker_vertical().contains(p) by {
        if 0 <= p.0 <= 2 && -1 <= p.1 <= 3 {
            assert(next_alive(b, p.0, p.1) == blinker_vertical().contains(p));
        } else {
            lemma_far_from_box(b, 1, 0, 1, 2, p.0, p.1);
        }
    }
    assert_sets_equal!(step_spec(b) == blinker_vertical());
}

/// One generation turns the vertical blinker back into the horizontal
/// one.
pub proof fn lemma_blinker_flips_back()
    ensures
        step_spec(blinker_vertical()) == blinker_horizontal(),
{
    let b = blinker_vertical();
    assert forall|p: (int, int)|
        step_spec(b).contains(p) == blinker_horizontal().contains(p) by {
        if -1 <= p.0 <= 3 && 0 <= p.1 <= 2 {
            assert(next_alive(b, p.0, p.1) == blinker_horizontal().contains(p));
        } else {
            lemma_far_from_box(b, 0, 1, 2, 1, p.0, p.1);
        }
    }
    assert_sets_equal!(step_spec(b) == blinker_horizontal());
}

/// The blinker oscillates with period 2: two generations bring the
/// horizontal blinker back.
pub proof fn lemma_blinker_period_two()
    ensures
        iterate_step(blinker_horizontal(), 2) == blinker_horizontal(),
{
    let h = blinker_horizontal();
    lemma_blinker_flips();
    lemma_blinker_flips_back();
    assert(iterate_step(h, 0) == h);
    assert(iterate_step(h, 1) == step_spec(iterate_step(h, 0)));
    assert(iterate_step(h, 2) == step_spec(iterate_step(h, 1)));
}

} // verus!
