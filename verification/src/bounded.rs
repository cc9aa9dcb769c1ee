//! The dense bounded world: a fixed `width x height` grid with toroidal
//! topology. Out-of-range coordinates wrap onto the torus by the
//! canonical modulo operation, so the grid has no boundary effect on
//! neighbor counts — a cell in column 0 has column `width - 1` as its
//! left neighbor.

use crate::sparse::{life_rule, next_cell_state};
use vstd::prelude::*;

verus! {

/// The canonical toroidal wrap of a coordinate onto [0, dim): the
/// Euclidean remainder, which is nonnegative for the positive dimension.
pub open spec fn wrap_spec(c: int, dim: int) -> int
    recommends
        0 < dim,
{
    c % dim
}

/// Wrap any coordinate onto the torus.
pub fn wrap_index(c: i32, dim: i32) -> (w: i32)
    requires
        0 < dim,
    ensures
        w == wrap_spec(c as int, dim as int),
        0 <= w < dim,
{
    proof {
        vstd::arithmetic::div_mod::lemma_mod_division_less_than_divisor(c as int, dim as int);
    }
    match c.checked_rem_euclid(dim) {
        Some(r) => r,
        None => 0,  // unreachable: the divisor is positive
    }
}

/// The bounded board: row-major cell storage of fixed dimensions.
pub struct BoundedBoard {
    width: usize,
    height: usize,
    cells: Vec<bool>,
}

impl BoundedBoard {
    /// Columns of the grid.
    pub closed spec fn spec_width(&self) -> int {
        self.width as int
    }

    /// Rows of the grid.
    pub closed spec fn spec_height(&self) -> int {
        self.height as int
    }

    /// The dimensions are positive, fit in signed 32-bit coordinates,
    /// and the storage holds exactly one cell per coordinate.
    pub closed spec fn well_formed(&self) -> bool {
        &&& 0 < self.width <= 0x7fff_ffff
        &&& 0 < self.height <= 0x7fff_ffff
        &&& self.cells@.len() == self.spec_width() * self.spec_height()
    }

    /// The cell in column x, row y, for in-range coordinates.
    pub closed spec fn cell_at(&self, x: int, y: int) -> bool
        recommends
            0 <= x < self.spec_width(),
            0 <= y < self.spec_height(),
    {
        self.cells@[y * self.spec_width() + x]
    }

    /// An all-dead board of the given dimensions.
    pub fn new(width: usize, height: usize) -> (board: BoundedBoard)
        requires
            0 < width <= 0x7fff_ffff,
            0 < height <= 0x7fff_ffff,
            width * height <= usize::MAX,
        ensures
            board.well_formed(),
            board.spec_width() == width,
            board.spec_height() == height,
            forall|x: int, y: int|
                0 <= x < width && 0 <= y < height ==> !board.cell_at(x, y),
    {
        let count: usize = width * height;
        let board = BoundedBoard { width, height, cells: vec![false; count] };
        proof {
            assert forall|x: int, y: int|
                0 <= x < width && 0 <= y < height implies !board.cell_at(x, y) by {
                lemma_row_major_index(width as int, height as int, x, y);
            }
        }
        board
    }

    /// Row-major position of the wrapped coordinate, with the proof that
    /// it indexes the storage.
    fn storage_index(&self, x: i32, y: i32) -> (idx: usize)
        requires
            self.well_formed(),
        ensures
            idx == wrap_spec(y as int, self.spec_height()) * self.spec_width() + wrap_spec(
                x as int,
                self.spec_width(),
            ),
            idx < self.cells@.len(),
    {
        let wx = wrap_index(x, self.width as i32);
        let wy = wrap_index(y, self.height as i32);
        let total: usize = self.cells.len();
        proof {
            lemma_row_major_index(self.spec_width(), self.spec_height(), wx as int, wy as int);
            assert((wy as int) * self.spec_width() + (wx as int) < total as int);
        }
        let row: usize = wy as usize * self.width;
        row + wx as usize
    }

    /// Whether the cell at (x, y) is alive; any coordinate wraps onto
    /// the torus first.
    pub fn get(&self, x: i32, y: i32) -> (alive: bool)
        requires
            self.well_formed(),
        ensures
            alive == self.cell_at(
                wrap_spec(x as int, self.spec_width()),
                wrap_spec(y as int, self.spec_height()),
            ),
    {
        let idx = self.storage_index(x, y);
        self.cells[idx]
    }

    /// Overwrite the cell at (x, y); any coordinate wraps onto the torus
    /// first. Every other cell keeps its state.
    pub fn set(&mut self, x: i32, y: i32, alive: bool)
        requires
            old(self).well_formed(),
        ensures
            final(self).well_formed(),
            final(self).spec_width() == old(self).spec_width(),
            final(self).spec_height() == old(self).spec_height(),
            final(self).cell_at(
                wrap_spec(x as int, old(self).spec_width()),
                wrap_spec(y as int, old(self).spec_height()),
            ) == alive,
            forall|i: int, j: int|
                0 <= i < old(self).spec_width() && 0 <= j < old(self).spec_height() && !(i
                    == wrap_spec(x as int, old(self).spec_width()) && j == wrap_spec(
                    y as int,
                    old(self).spec_height(),
                )) ==> final(self).cell_at(i, j) == old(self).cell_at(i, j),
    {
        let idx = self.storage_index(x, y);
        self.cells[idx] = alive;
        proof {
            let w = self.spec_width();
            let h = self.spec_height();
            let wx = wrap_spec(x as int, w);
            let wy = wrap_spec(y as int, h);
            vstd::arithmetic::div_mod::lemma_mod_division_less_than_divisor(x as int, w);
            vstd::arithmetic::div_mod::lemma_mod_division_less_than_divisor(y as int, h);
            assert forall|i: int, j: int|
                0 <= i < w && 0 <= j < h && !(i == wx && j == wy) implies final(self).cell_at(i, j)
                == old(self).cell_at(i, j) by {
                lemma_row_major_index(w, h, i, j);
                lemma_row_major_index(w, h, wx, wy);
                if j * w + i == wy * w + wx {
                    lemma_row_major_injective(w, i, j, wx, wy);
                }
            }
        }
    }

    /// Back to the all-dead state, keeping the dimensions.
    pub fn clear(&mut self)
        requires
            old(self).well_formed(),
        ensures
            final(self).well_formed(),
            final(self).spec_width() == old(self).spec_width(),
            final(self).spec_height() == old(self).spec_height(),
            forall|x: int, y: int|
                0 <= x < old(self).spec_width() && 0 <= y < old(self).spec_height()
                    ==> !final(self).cell_at(x, y),
    {
        let count: usize = self.cells.len();
        self.cells = vec![false; count];
        proof {
            assert forall|x: int, y: int|
                0 <= x < self.spec_width() && 0 <= y < self.spec_height() implies !self.cell_at(
                x,
                y,
            ) by {
                lemma_row_major_index(self.spec_width(), self.spec_height(), x, y);
            }
        }
    }

    /// All currently-alive coordinates, each exactly once, in
    /// unspecified order.
    #[verifier::loop_isolation(false)]
    pub fn iterate_alive(&self) -> (alive_cells: Vec<(i32, i32)>)
        requires
            self.well_formed(),
        ensures
            forall|k: int| #![trigger alive_cells@[k]]
                0 <= k < alive_cells@.len() ==> {
                    &&& 0 <= alive_cells@[k].0 < self.spec_width()
                    &&& 0 <= alive_cells@[k].1 < self.spec_height()
                    &&& self.cell_at(alive_cells@[k].0 as int, alive_cells@[k].1 as int)
                },
            forall|x: int, y: int|
                0 <= x < self.spec_width() && 0 <= y < self.spec_height() && self.cell_at(x, y)
                    ==> crate::sparse::has_cell(alive_cells@, (x, y)),
            forall|k1: int, k2: int|
                0 <= k1 < k2 < alive_cells@.len() ==> alive_cells@[k1] != alive_cells@[k2],
    {
        let ghost w = self.spec_width();
        let ghost h = self.spec_height();
        let mut out: Vec<(i32, i32)> = Vec::new();
        let mut y: usize = 0;
        while y < self.height
            invariant
                y <= self.height,
                forall|k: int| #![trigger out@[k]]
                    0 <= k < out@.len() ==> {
                        &&& 0 <= out@[k].0 < w
                        &&& out@[k].1 < y
                        &&& 0 <= out@[k].1
                        &&& self.cell_at(out@[k].0 as int, out@[k].1 as int)
                    },
                forall|i: int, j: int|
                    0 <= i < w && 0 <= j < y && self.cell_at(i, j) ==> crate::sparse::has_cell(
                        out@,
                        (i, j),
                    ),
                forall|k1: int, k2: int| 0 <= k1 < k2 < out@.len() ==> out@[k1] != out@[k2],
            decreases self.spec_height() - y,
        {
            let mut x: usize = 0;
            while x < self.width
                invariant
                    y < self.height,
                    x <= self.width,
                    forall|k: int| #![trigger out@[k]]
                        0 <= k < out@.len() ==> {
                            &&& 0 <= out@[k].0 < w
                            &&& 0 <= out@[k].1 <= y
                            &&& (out@[k].1 == y ==> out@[k].0 < x)
                            &&& self.cell_at(out@[k].0 as int, out@[k].1 as int)
                        },
                    forall|i: int, j: int|
                        0 <= i < w && 0 <= j < y && self.cell_at(i, j)
                            ==> crate::sparse::has_cell(out@, (i, j)),
                    forall|i: int|
                        0 <= i < x && self.cell_at(i, y as int) ==> crate::sparse::has_cell(
                            out@,
                            (i, y as int),
                        ),
                    forall|k1: int, k2: int| 0 <= k1 < k2 < out@.len() ==> out@[k1] != out@[k2],
                decreases self.spec_width() - x,
            {
                proof {
                    vstd::arithmetic::div_mod::lemma_small_mod(x as nat, self.width as nat);
                    vstd::arithmetic::div_mod::lemma_small_mod(y as nat, self.height as nat);
                }
                if self.get(x as i32, y as i32) {
                    let ghost prev = out@;
                    out.push((x as i32, y as i32));
                    proof {
                        assert(crate::sparse::cell_of(out@[prev.len() as int]) == (
                            x as int,
                            y as int,
                        ));
                        assert forall|i: int, j: int|
                            0 <= i < w && 0 <= j < y && self.cell_at(i, j)
                            implies crate::sparse::has_cell(out@, (i, j)) by {
                            let k0 = choose|k0: int|
                                0 <= k0 < prev.len() && crate::sparse::cell_of(
                                    #[trigger] prev[k0],
                                ) == (i, j);
                            assert(crate::sparse::cell_of(out@[k0]) == (i, j));
                        }
                        assert forall|i: int|
                            0 <= i < x + 1 && self.cell_at(i, y as int)
                            implies crate::sparse::has_cell(out@, (i, y as int)) by {
                            if i < x {
                                let k0 = choose|k0: int|
                                    0 <= k0 < prev.len() && crate::sparse::cell_of(
                                        #[trigger] prev[k0],
                                    ) == (i, y as int);
                                assert(crate::sparse::cell_of(out@[k0]) == (i, y as int));
                            } else {
                                assert(crate::sparse::cell_of(out@[prev.len() as int]) == (
                                    i,
                                    y as int,
                                ));
                            }
                        }
                    }
                }
                x = x + 1;
            }
            y = y + 1;
        }
        out
    }

    /// How many of the 8 neighbors of (x, y) on the torus are alive.
    pub fn count_adjacent(&self, x: i32, y: i32) -> (count: i32)
        requires
            self.well_formed(),
            i32::MIN < x < i32::MAX,
            i32::MIN < y < i32::MAX,
        ensures
            count == toroidal_neighbors(self, x as int, y as int),
            0 <= count <= 8,
    {
        let mut count: i32 = 0;
        if self.get(x - 1, y - 1) {
            count = count + 1;
        }
        if self.get(x, y - 1) {
            count = count + 1;
        }
        if self.get(x + 1, y - 1) {
            count = count + 1;
        }
        if self.get(x - 1, y) {
            count = count + 1;
        }
        if self.get(x + 1, y) {
            count = count + 1;
        }
        if self.get(x - 1, y + 1) {
            count = count + 1;
        }
        if self.get(x, y + 1) {
            count = count + 1;
        }
        if self.get(x + 1, y + 1) {
            count = count + 1;
        }
        count
    }

    /// One generation: every coordinate of the grid is decided exactly
    /// once against the frozen snapshot, and the new grid is committed
    /// only after the last decision.
    #[verifier::loop_isolation(false)]
    pub fn step(&mut self)
        requires
            old(self).well_formed(),
        ensures
            final(self).well_formed(),
            final(self).spec_width() == old(self).spec_width(),
            final(self).spec_height() == old(self).spec_height(),
            forall|x: int, y: int|
                0 <= x < old(self).spec_width() && 0 <= y < old(self).spec_height()
                    ==> final(self).cell_at(x, y) == life_rule(
                    old(self).cell_at(x, y),
                    toroidal_neighbors(old(self), x, y),
                ),
    {
        let ghost w = self.spec_width();
        let ghost h = self.spec_height();
        let mut next: Vec<bool> = Vec::new();
        let mut y: usize = 0;
        while y < self.height
            invariant
                y <= self.height,
                next@.len() == y * w,
                forall|i: int, j: int|
                    0 <= i < w && 0 <= j < y ==> next@[j * w + i] == life_rule(
                        self.cell_at(i, j),
                        toroidal_neighbors(self, i, j),
                    ),
            decreases self.spec_height() - y,
        {
            let mut x: usize = 0;
            while x < self.width
                invariant
                    y < self.height,
                    x <= self.width,
                    next@.len() == y * w + x,
                    forall|i: int, j: int|
                        0 <= i < w && 0 <= j < y ==> next@[j * w + i] == life_rule(
                            self.cell_at(i, j),
                            toroidal_neighbors(self, i, j),
                        ),
                    forall|i: int|
                        0 <= i < x ==> next@[y * w + i] == life_rule(
                            self.cell_at(i, y as int),
                            toroidal_neighbors(self, i, y as int),
                        ),
                decreases self.spec_width() - x,
            {
                proof {
                    lemma_row_major_index(w, h, x as int, y as int);
                    vstd::arithmetic::div_mod::lemma_small_mod(x as nat, self.width as nat);
                    vstd::arithmetic::div_mod::lemma_small_mod(y as nat, self.height as nat);
                }
                let alive = self.get(x as i32, y as i32);
                let neighbors = self.count_adjacent(x as i32, y as i32);
                next.push(next_cell_state(alive, neighbors));
                proof {
                    assert forall|i: int, j: int|
                        0 <= i < w && 0 <= j < y implies next@[j * w + i] == life_rule(
                        self.cell_at(i, j),
                        toroidal_neighbors(self, i, j),
                    ) by {
                        lemma_row_major_index(w, y as int, i, j);
                    }
                }
                x = x + 1;
            }
            proof {
                assert((y + 1) * w == y * w + w) by (nonlinear_arith);
            }
            y = y + 1;
        }
        self.cells = next;
        proof {
            assert(h * w == w * h) by (nonlinear_arith);
            assert forall|x: int, y: int|
                0 <= x < w && 0 <= y < h implies self.cell_at(x, y) == life_rule(
                old(self).cell_at(x, y),
                toroidal_neighbors(old(self), x, y),
            ) by {
                lemma_row_major_index(w, h, x, y);
            }
        }
    }
}

/// 1 when the wrapped coordinate holds a live cell, else 0.
pub open spec fn toroidal_live_one(b: &BoundedBoard, x: int, y: int) -> int {
    if b.cell_at(wrap_spec(x, b.spec_width()), wrap_spec(y, b.spec_height())) {
        1
    } else {
        0
    }
}

/// How many of the 8 neighbors of (x, y) are alive, with every neighbor
/// coordinate wrapped onto the torus first.
pub open spec fn toroidal_neighbors(b: &BoundedBoard, x: int, y: int) -> int {
    toroidal_live_one(b, x - 1, y - 1) + toroidal_live_one(b, x, y - 1) + toroidal_live_one(
        b,
        x + 1,
        y - 1,
    ) + toroidal_live_one(b, x - 1, y) + toroidal_live_one(b, x + 1, y) + toroidal_live_one(
        b,
        x - 1,
        y + 1,
    ) + toroidal_live_one(b, x, y + 1) + toroidal_live_one(b, x + 1, y + 1)
}

/// A row-major position stays inside storage of `w * h` cells, and
/// inside the first `j + 1` rows.
proof fn lemma_row_major_index(w: int, h: int, i: int, j: int)
    requires
        0 <= i < w,
        0 <= j < h,
    ensures
        0 <= j * w + i < h * w,
        j * w + i < w * h,
        w * h == h * w,
        j * w + i < (j + 1) * w,
        (j + 1) * w <= w * h,
{
    assert(j * w + i < h * w && w * h == h * w && j * w + i < (j + 1) * w && (j + 1) * w <= w
        * h) by (nonlinear_arith)
        requires
            0 <= i < w,
            0 <= j < h,
    ;
}

/// Two distinct in-range coordinates never share a row-major position.
proof fn lemma_row_major_injective(w: int, i1: int, j1: int, i2: int, j2: int)
    requires
        0 <= i1 < w,
        0 <= i2 < w,
        j1 * w + i1 == j2 * w + i2,
    ensures
        i1 == i2,
        j1 == j2,
{
    assert(i1 == i2 && j1 == j2) by (nonlinear_arith)
        requires
            0 <= i1 < w,
            0 <= i2 < w,
            j1 * w + i1 == j2 * w + i2,
    ;
}

/// Toroidal wraparound at the corner: on any bounded board, the opposite
/// corner (width - 1, height - 1) is among the neighbors of (0, 0) —
/// its offset (-1, -1) wraps there — so a board whose opposite corner is
/// alive gives the corner (0, 0) a positive neighbor count.
pub proof fn lemma_toroidal_corner(b: &BoundedBoard)
    requires
        b.well_formed(),
        b.cell_at(b.spec_width() - 1, b.spec_height() - 1),
    ensures
        toroidal_neighbors(b, 0, 0) >= 1,
{
    let w = b.spec_width();
    let h = b.spec_height();
    vstd::arithmetic::div_mod::lemma_fundamental_div_mod_converse_mod(-1, w, -1, w - 1);
    vstd::arithmetic::div_mod::lemma_fundamental_div_mod_converse_mod(-1, h, -1, h - 1);
    assert(wrap_spec(-1, w) == w - 1);
    assert(wrap_spec(-1, h) == h - 1);
    assert(toroidal_live_one(b, -1, -1) == 1);
}

} // verus!
