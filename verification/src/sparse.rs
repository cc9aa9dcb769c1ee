//! The unbounded sparse world: only live cells occupy storage, membership
//! is aliveness, and the world extends over the whole signed-integer plane.
//!
//! The model of a board is the set of coordinates of its live cells, as a
//! `Set<(int, int)>`. The generation update is specified against a frozen
//! snapshot of that set, so writes of the current tick can never influence
//! neighbor counts of the same tick.

use vstd::assert_sets_equal;
use vstd::prelude::*;

verus! {

/// The mathematical coordinate of a stored cell.
pub open spec fn cell_of(c: (i32, i32)) -> (int, int) {
    (c.0 as int, c.1 as int)
}

/// Whether a stored sequence of cells mentions the coordinate `p`.
pub open spec fn has_cell(cells: Seq<(i32, i32)>, p: (int, int)) -> bool {
    exists|i: int| 0 <= i < cells.len() && cell_of(#[trigger] cells[i]) == p
}

/// The standard B3/S23 transition rule as a single pure function: a live
/// cell survives with 2 or 3 live neighbors, a dead cell is born with
/// exactly 3, and every other cell is dead in the next generation.
pub open spec fn life_rule(alive: bool, neighbors: int) -> bool {
    if alive {
        2 <= neighbors <= 3
    } else {
        neighbors == 3
    }
}

/// Executable form of the transition rule.
pub fn next_cell_state(alive: bool, neighbors: i32) -> (next: bool)
    ensures
        next == life_rule(alive, neighbors as int),
{
    if alive {
        neighbors == 2 || neighbors == 3
    } else {
        neighbors == 3
    }
}

/// 1 when the world `s` has a live cell at (x, y), else 0.
pub open spec fn live_one(s: Set<(int, int)>, x: int, y: int) -> int {
    if s.contains((x, y)) {
        1
    } else {
        0
    }
}

/// How many of the 8 cells at Chebyshev distance 1 from (x, y) are alive
/// in the world `s`; always between 0 and 8.
pub open spec fn live_neighbors(s: Set<(int, int)>, x: int, y: int) -> int {
    live_one(s, x - 1, y - 1) + live_one(s, x, y - 1) + live_one(s, x + 1, y - 1) + live_one(
        s,
        x - 1,
        y,
    ) + live_one(s, x + 1, y) + live_one(s, x - 1, y + 1) + live_one(s, x, y + 1) + live_one(
        s,
        x + 1,
        y + 1,
    )
}

/// Whether (x, y) is alive in the generation that follows the snapshot `s`.
pub open spec fn next_alive(s: Set<(int, int)>, x: int, y: int) -> bool {
    life_rule(s.contains((x, y)), live_neighbors(s, x, y))
}

/// The generation after `s`: every coordinate of the plane, decided
/// simultaneously against the same frozen snapshot `s`.
pub open spec fn step_spec(s: Set<(int, int)>) -> Set<(int, int)> {
    Set::new(|p: (int, int)| next_alive(s, p.0, p.1))
}

/// The 3x3 block of coordinates centered on (x, y): the cell itself and
/// its 8 neighbors.
pub open spec fn neighborhood(x: int, y: int) -> Set<(int, int)> {
    Set::new(|p: (int, int)| x - 1 <= p.0 <= x + 1 && y - 1 <= p.1 <= y + 1)
}

/// Birth: a dead cell of `s` is alive after one step exactly when it has
/// exactly 3 live neighbors — there is no other way a dead cell comes
/// alive.
pub proof fn lemma_birth(s: Set<(int, int)>, x: int, y: int)
    requires
        !s.contains((x, y)),
    ensures
        step_spec(s).contains((x, y)) <==> live_neighbors(s, x, y) == 3,
{
    assert(step_spec(s).contains((x, y)) == next_alive(s, x, y));
}

/// Survival: a live cell of `s` is still alive after one step exactly when
/// it has 2 or 3 live neighbors; with fewer than 2 or more than 3 it dies.
pub proof fn lemma_survival(s: Set<(int, int)>, x: int, y: int)
    requires
        s.contains((x, y)),
    ensures
        step_spec(s).contains((x, y)) <==> 2 <= live_neighbors(s, x, y) <= 3,
{
    assert(step_spec(s).contains((x, y)) == next_alive(s, x, y));
}

/// A coordinate far enough from the edge of the i32 range that the step
/// engine can form its neighborhood and count neighbors of that
/// neighborhood without arithmetic overflow.
pub open spec fn cell_steppable(p: (int, int)) -> bool {
    &&& i32::MIN + 2 <= p.0 <= i32::MAX - 2
    &&& i32::MIN + 2 <= p.1 <= i32::MAX - 2
}

/// A world whose live cells all sit far enough from the edge of the i32
/// range for one generation update.
pub open spec fn world_steppable(s: Set<(int, int)>) -> bool {
    forall|p: (int, int)| s.contains(p) ==> #[trigger] cell_steppable(p)
}

/// The sparse board: a duplicate-free list of the coordinates of the live
/// cells, in no particular order.
pub struct SparseBoard {
    cells: Vec<(i32, i32)>,
}

impl View for SparseBoard {
    type V = Set<(int, int)>;

    /// The set of live coordinates.
    closed spec fn view(&self) -> Set<(int, int)> {
        Set::new(|p: (int, int)| has_cell(self.cells@, p))
    }
}

impl SparseBoard {
    /// No coordinate is stored twice, so removing one entry removes the
    /// cell.
    pub closed spec fn well_formed(&self) -> bool {
        forall|i: int, j: int|
            0 <= i < j < self.cells@.len() ==> #[trigger] self.cells@[i] != #[trigger] self.cells@[j]
    }

    /// The all-dead world.
    pub fn new() -> (board: SparseBoard)
        ensures
            board.well_formed(),
            board@ == Set::<(int, int)>::empty(),
    {
        let board = SparseBoard { cells: Vec::new() };
        proof {
            assert(board@ =~= Set::<(int, int)>::empty());
        }
        board
    }

    /// Back to the all-dead initial state.
    pub fn clear(&mut self)
        ensures
            final(self).well_formed(),
            final(self)@ == Set::<(int, int)>::empty(),
    {
        self.cells = Vec::new();
        proof {
            assert(self@ =~= Set::<(int, int)>::empty());
        }
    }

    /// Whether the cell at (x, y) is alive; absent coordinates are dead.
    #[verifier::loop_isolation(false)]
    pub fn get(&self, x: i32, y: i32) -> (alive: bool)
        ensures
            alive == self@.contains((x as int, y as int)),
    {
        let ghost p = (x as int, y as int);
        let mut k: usize = 0;
        while k < self.cells.len()
            invariant
                p == (x as int, y as int),
                k <= self.cells@.len(),
                forall|i: int| 0 <= i < k ==> cell_of(#[trigger] self.cells@[i]) != p,
            decreases self.cells@.len() - k,
        {
            let c = self.cells[k];
            if c.0 == x && c.1 == y {
                proof {
                    assert(cell_of(self.cells@[k as int]) == p);
                }
                return true;
            }
            k = k + 1;
        }
        false
    }

    /// Make the cell at (x, y) alive or dead: insert the coordinate when
    /// `alive` is true, drop it when `alive` is false; a no-op when the
    /// cell already has the desired state.
    #[verifier::loop_isolation(false)]
    pub fn set(&mut self, x: i32, y: i32, alive: bool)
        requires
            old(self).well_formed(),
        ensures
            final(self).well_formed(),
            final(self)@ == if alive {
                old(self)@.insert((x as int, y as int))
            } else {
                old(self)@.remove((x as int, y as int))
            },
    {
        let ghost p = (x as int, y as int);
        if alive {
            if !self.get(x, y) {
                let ghost before = self.cells@;
                self.cells.push((x, y));
                proof {
                    assert forall|q: (int, int)| has_cell(self.cells@, q) == old(
                        self,
                    )@.insert(p).contains(q) by {
                        if has_cell(self.cells@, q) {
                            let i = choose|i: int|
                                0 <= i < self.cells@.len() && cell_of(#[trigger] self.cells@[i])
                                    == q;
                            if i < before.len() {
                                assert(cell_of(before[i]) == q);
                            }
                        }
                        if old(self)@.insert(p).contains(q) {
                            if q == p {
                                assert(cell_of(self.cells@[before.len() as int]) == q);
                            } else {
                                let i = choose|i: int|
                                    0 <= i < before.len() && cell_of(#[trigger] before[i]) == q;
                                assert(cell_of(self.cells@[i]) == q);
                            }
                        }
                    }
                    assert(self@ =~= old(self)@.insert(p));
                }
            } else {
                proof {
                    assert(self@ =~= old(self)@.insert(p));
                }
            }
        } else {
            let mut k: usize = 0;
            while k < self.cells.len()
                invariant
                    p == (x as int, y as int),
                    self.well_formed(),
                    self.cells@ == old(self).cells@,
                    k <= self.cells@.len(),
                    forall|i: int| 0 <= i < k ==> cell_of(#[trigger] self.cells@[i]) != p,
                decreases self.cells@.len() - k,
            {
                let c = self.cells[k];
                if c.0 == x && c.1 == y {
                    let ghost before = self.cells@;
                    self.cells.swap_remove(k);
                    proof {
                        lemma_swap_remove_drops_cell(before, k as int, self.cells@, p);
                        assert(self@ =~= old(self)@.remove(p));
                    }
                    return ;
                }
                k = k + 1;
            }
            proof {
                assert(!self@.contains(p));
                assert(self@ =~= old(self)@.remove(p));
            }
        }
    }

    /// All currently-alive coordinates, each exactly once, in unspecified
    /// order.
    #[verifier::loop_isolation(false)]
    pub fn iterate_alive(&self) -> (alive_cells: Vec<(i32, i32)>)
        requires
            self.well_formed(),
        ensures
            forall|i: int|
                0 <= i < alive_cells@.len() ==> self@.contains(cell_of(
                    #[trigger] alive_cells@[i],
                )),
            forall|p: (int, int)| self@.contains(p) ==> has_cell(alive_cells@, p),
            forall|i: int, j: int|
                0 <= i < j < alive_cells@.len() ==> alive_cells@[i] != alive_cells@[j],
    {
        let mut out: Vec<(i32, i32)> = Vec::new();
        let mut k: usize = 0;
        while k < self.cells.len()
            invariant
                k <= self.cells@.len(),
                out@ == self.cells@.take(k as int),
            decreases self.cells@.len() - k,
        {
            out.push(self.cells[k]);
            k = k + 1;
        }
        proof {
            assert(out@ == self.cells@);
            assert forall|i: int| 0 <= i < out@.len() implies self@.contains(cell_of(
                #[trigger] out@[i],
            )) by {
                assert(cell_of(self.cells@[i]) == cell_of(out@[i]));
            }
        }
        out
    }

    /// How many of the 8 neighbors of (x, y) are alive, against this board
    /// as the frozen snapshot.
    pub fn count_adjacent(&self, x: i32, y: i32) -> (count: i32)
        requires
            i32::MIN < x < i32::MAX,
            i32::MIN < y < i32::MAX,
        ensures
            count == live_neighbors(self@, x as int, y as int),
            0 <= count <= 8,
    {
        let mut count: i32 = 0;
        if self.get(x - 1, y - 1) {
            count = count + 1;
        }
        if self.get(x, y - 1) {
            count = count + 1;
        }
        if self.get(x + 1, y - 1) {
            count = count + 1;
        }
        if self.get(x - 1, y) {
            count = count + 1;
        }
        if self.get(x + 1, y) {
            count = count + 1;
        }
        if self.get(x - 1, y + 1) {
            count = count + 1;
        }
        if self.get(x, y + 1) {
            count = count + 1;
        }
        if self.get(x + 1, y + 1) {
            count = count + 1;
        }
        count
    }
}

impl SparseBoard {
    /// One generation: decide every candidate cell against this board as
    /// the frozen snapshot, collect births and survivals in a fresh
    /// buffer, and commit the buffer only after every decision is made.
    /// Candidates are the live cells and their 3x3 neighborhoods; cells
    /// further from any live cell stay dead by the rule, so the result is
    /// the full simultaneous update of the plane.
    #[verifier::loop_isolation(false)]
    pub fn step(&mut self)
        requires
            old(self).well_formed(),
            world_steppable(old(self)@),
        ensures
            final(self).well_formed(),
            final(self)@ == step_spec(old(self)@),
    {
        let ghost s = self@;
        let mut next = SparseBoard::new();
        let mut k: usize = 0;
        while k < self.cells.len()
            invariant
                k <= self.cells@.len(),
                next.well_formed(),
                next@ == step_spec(s).intersect(prefix_candidates(self.cells@, k as int)),
            decreases self.cells@.len() - k,
        {
            let c = self.cells[k];
            let x = c.0;
            let y = c.1;
            proof {
                assert(cell_of(self.cells@[k as int]) == (x as int, y as int));
                assert(s.contains((x as int, y as int)));
                assert(cell_steppable((x as int, y as int)));
            }
            apply_neighborhood(&mut next, self, x, y);
            proof {
                assert(prefix_candidates(self.cells@, k as int + 1) == prefix_candidates(
                    self.cells@,
                    k as int,
                ).union(neighborhood(x as int, y as int)));
                assert_sets_equal!(
                    next@ == step_spec(s).intersect(
                        prefix_candidates(self.cells@, k as int + 1))
                );
            }
            k = k + 1;
        }
        proof {
            let n = self.cells@.len() as int;
            assert forall|p: (int, int)| step_spec(s).contains(p) implies prefix_candidates(
                self.cells@,
                n,
            ).contains(p) by {
                lemma_next_generation_in_frontier(s, p.0, p.1);
                let q = choose|q: (int, int)|
                    #[trigger] s.contains(q) && neighborhood(q.0, q.1).contains(p);
                let i = choose|i: int|
                    0 <= i < self.cells@.len() && cell_of(#[trigger] self.cells@[i]) == q;
                lemma_prefix_candidates_cover(self.cells@, n, i);
            }
            assert(next@ =~= step_spec(s));
        }
        self.cells = next.cells;
    }

    /// One generation, guarded: first check that every live cell is far
    /// enough from the edge of the coordinate range for overflow-free
    /// neighbor arithmetic; then step and report true, or leave the world
    /// unchanged and report false.
    #[verifier::loop_isolation(false)]
    pub fn try_step(&mut self) -> (stepped: bool)
        requires
            old(self).well_formed(),
        ensures
            final(self).well_formed(),
            stepped ==> world_steppable(old(self)@) && final(self)@ == step_spec(old(self)@),
            !stepped ==> !world_steppable(old(self)@) && final(self)@ == old(self)@,
    {
        let mut k: usize = 0;
        while k < self.cells.len()
            invariant
                k <= self.cells@.len(),
                forall|i: int| 0 <= i < k ==> cell_steppable(cell_of(#[trigger] self.cells@[i])),
            decreases self.cells@.len() - k,
        {
            let c = self.cells[k];
            if c.0 < i32::MIN + 2 || c.0 > i32::MAX - 2 || c.1 < i32::MIN + 2 || c.1 > i32::MAX
                - 2 {
                proof {
                    assert(self@.contains(cell_of(self.cells@[k as int])));
                    assert(!cell_steppable(cell_of(self.cells@[k as int])));
                }
                return false;
            }
            k = k + 1;
        }
        proof {
            assert forall|p: (int, int)| self@.contains(p) implies #[trigger] cell_steppable(
                p,
            ) by {
                let i = choose|i: int|
                    0 <= i < self.cells@.len() && cell_of(#[trigger] self.cells@[i]) == p;
            }
        }
        self.step();
        true
    }
}

/// Decide the whole 3x3 neighborhood of one live cell of the snapshot:
/// after the call, the next-generation buffer holds its old contents plus
/// every cell of that neighborhood that the rule makes or keeps alive.
#[verifier::rlimit(100)]
fn apply_neighborhood(next: &mut SparseBoard, snapshot: &SparseBoard, x: i32, y: i32)
    requires
        old(next).well_formed(),
        cell_steppable((x as int, y as int)),
    ensures
        final(next).well_formed(),
        final(next)@ == old(next)@.union(
            step_spec(snapshot@).intersect(neighborhood(x as int, y as int)),
        ),
{
    apply_rule_at(next, snapshot, x - 1, y - 1);
    apply_rule_at(next, snapshot, x, y - 1);
    apply_rule_at(next, snapshot, x + 1, y - 1);
    apply_rule_at(next, snapshot, x - 1, y);
    apply_rule_at(next, snapshot, x, y);
    apply_rule_at(next, snapshot, x + 1, y);
    apply_rule_at(next, snapshot, x - 1, y + 1);
    apply_rule_at(next, snapshot, x, y + 1);
    apply_rule_at(next, snapshot, x + 1, y + 1);
    proof {
        assert_sets_equal!(
            next@ == old(next)@.union(
                step_spec(snapshot@).intersect(neighborhood(x as int, y as int))),
            p => {
                if neighborhood(x as int, y as int).contains(p) {
                    assert(x as int - 1 <= p.0 <= x as int + 1);
                    assert(y as int - 1 <= p.1 <= y as int + 1);
                }
            }
        );
    }
}

/// Decide one candidate coordinate against the frozen snapshot and record
/// a birth or survival in the next-generation buffer; deciding the same
/// candidate twice is harmless.
fn apply_rule_at(next: &mut SparseBoard, snapshot: &SparseBoard, cx: i32, cy: i32)
    requires
        old(next).well_formed(),
        i32::MIN < cx < i32::MAX,
        i32::MIN < cy < i32::MAX,
    ensures
        final(next).well_formed(),
        final(next)@ == if next_alive(snapshot@, cx as int, cy as int) {
            old(next)@.insert((cx as int, cy as int))
        } else {
            old(next)@
        },
{
    let neighbors = snapshot.count_adjacent(cx, cy);
    let alive = snapshot.get(cx, cy);
    if next_cell_state(alive, neighbors) {
        next.set(cx, cy, true);
    }
}

/// The union of the 3x3 neighborhoods of the first `k` stored cells: the
/// candidates the step engine has considered after `k` live cells.
spec fn prefix_candidates(cells: Seq<(i32, i32)>, k: int) -> Set<(int, int)>
    decreases k,
{
    if k <= 0 {
        Set::<(int, int)>::empty()
    } else {
        prefix_candidates(cells, k - 1).union(
            neighborhood(cells[k - 1].0 as int, cells[k - 1].1 as int),
        )
    }
}

/// Every stored cell's neighborhood is inside the candidate union that
/// covers it.
proof fn lemma_prefix_candidates_cover(cells: Seq<(i32, i32)>, k: int, i: int)
    requires
        0 <= i < k <= cells.len(),
    ensures
        neighborhood(cells[i].0 as int, cells[i].1 as int).subset_of(prefix_candidates(cells, k)),
    decreases k,
{
    if i < k - 1 {
        lemma_prefix_candidates_cover(cells, k - 1, i);
    }
}

/// The frontier property behind the sparse evaluation domain: a cell that
/// is alive after the step has a live cell of the snapshot in its own 3x3
/// neighborhood — itself if it survives, or one of the 3 live neighbors
/// that give birth to it. Cells outside every live cell's neighborhood
/// cannot change, so the step engine may skip them.
pub proof fn lemma_next_generation_in_frontier(s: Set<(int, int)>, x: int, y: int)
    requires
        next_alive(s, x, y),
    ensures
        exists|q: (int, int)| #[trigger] s.contains(q) && neighborhood(q.0, q.1).contains((x, y)),
{
    if s.contains((x, y)) {
        assert(s.contains((x, y)) && neighborhood(x, y).contains((x, y)));
    } else if s.contains((x - 1, y - 1)) {
        assert(s.contains((x - 1, y - 1)) && neighborhood(x - 1, y - 1).contains((x, y)));
    } else if s.contains((x, y - 1)) {
        assert(s.contains((x, y - 1)) && neighborhood(x, y - 1).contains((x, y)));
    } else if s.contains((x + 1, y - 1)) {
        assert(s.contains((x + 1, y - 1)) && neighborhood(x + 1, y - 1).contains((x, y)));
    } else if s.contains((x - 1, y)) {
        assert(s.contains((x - 1, y)) && neighborhood(x - 1, y).contains((x, y)));
    } else if s.contains((x + 1, y)) {
        assert(s.contains((x + 1, y)) && neighborhood(x + 1, y).contains((x, y)));
    } else if s.contains((x - 1, y + 1)) {
        assert(s.contains((x - 1, y + 1)) && neighborhood(x - 1, y + 1).contains((x, y)));
    } else if s.contains((x, y + 1)) {
        assert(s.contains((x, y + 1)) && neighborhood(x, y + 1).contains((x, y)));
    } else if s.contains((x + 1, y + 1)) {
        assert(s.contains((x + 1, y + 1)) && neighborhood(x + 1, y + 1).contains((x, y)));
    } else {
        assert(live_neighbors(s, x, y) == 0);
        assert(false);
    }
}

/// After `swap_remove(k)` on a duplicate-free sequence whose entry `k`
/// holds the coordinate `p`, the remaining entries mention exactly the
/// coordinates of `before` except `p`, and stay duplicate-free.
proof fn lemma_swap_remove_drops_cell(
    before: Seq<(i32, i32)>,
    k: int,
    after: Seq<(i32, i32)>,
    p: (int, int),
)
    requires
        0 <= k < before.len(),
        cell_of(before[k]) == p,
        forall|i: int, j: int| 0 <= i < j < before.len() ==> #[trigger] before[i] != #[trigger] before[j],
        after == before.update(k, before.last()).drop_last(),
    ensures
        forall|q: (int, int)| has_cell(after, q) <==> has_cell(before, q) && q != p,
        forall|i: int, j: int| 0 <= i < j < after.len() ==> #[trigger] after[i] != #[trigger] after[j],
{
    let last = before.len() - 1;
    assert forall|q: (int, int)| has_cell(after, q) <==> has_cell(before, q) && q != p by {
        if has_cell(after, q) {
            let i = choose|i: int| 0 <= i < after.len() && cell_of(#[trigger] after[i]) == q;
            if i == k {
                assert(after[i] == before[last]);
                assert(cell_of(before[last]) == q);
                if q == p {
                    assert(before[last] != before[k] || last == k);
                }
            } else {
                assert(after[i] == before[i]);
                assert(cell_of(before[i]) == q);
                if q == p {
                    assert(before[i] != before[k]);
                }
            }
        }
        if has_cell(before, q) && q != p {
            let i = choose|i: int| 0 <= i < before.len() && cell_of(#[trigger] before[i]) == q;
            if i == last {
                if k < last {
                    assert(after[k] == before[last]);
                    assert(cell_of(after[k]) == q);
                } else {
                    assert(cell_of(before[k]) == q);
                }
            } else {
                assert(after[i] == before[i]);
                assert(cell_of(after[i]) == q);
            }
        }
    }
}

} // verus!
