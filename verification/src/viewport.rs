//! The viewport: maps between world cell coordinates and screen pixel
//! coordinates, and pans by whole pixels. Translation only, no zoom.
//!
//! Screen-to-world uses floor division throughout, so the cell grid stays
//! consistent across negative pixel coordinates while panning; ghost `/`
//! on `int` is Euclidean division, which coincides with floor division
//! for the positive tile size.

use vstd::prelude::*;

verus! {

/// A screen-space rectangle: top-left corner, then width and height, all
/// in pixels.
pub struct TileRect {
    pub x: i32,
    pub y: i32,
    pub width: u32,
    pub height: u32,
}

/// The world pixel coordinate shown at the screen's top-left corner,
/// plus the fixed tile geometry (pixels per cell and the gutter kept
/// around each drawn tile).
pub struct Viewport {
    pub origin_x: i32,
    pub origin_y: i32,
    pub tile_size: u32,
    pub inset: u32,
}

/// Euclidean division by a positive divisor keeps the quotient between
/// the dividend and zero.
proof fn lemma_div_stays_between(a: int, d: int)
    requires
        0 < d,
    ensures
        a >= 0 ==> 0 <= a / d <= a,
        a < 0 ==> a <= a / d <= 0,
{
    vstd::arithmetic::div_mod::lemma_fundamental_div_mod(a, d);
    vstd::arithmetic::div_mod::lemma_mod_division_less_than_divisor(a, d);
    let q = a / d;
    let r = a % d;
    if a >= 0 {
        vstd::arithmetic::div_mod::lemma_div_pos_is_pos(a, d);
        vstd::arithmetic::div_mod::lemma_div_nonincreasing(a, d);
    } else {
        if q >= 1 {
            assert(d * q >= d) by (nonlinear_arith)
                requires
                    q >= 1,
                    d > 0,
            ;
            assert(false);
        }
        if q <= a - 1 {
            assert(d * q <= d * (a - 1)) by (nonlinear_arith)
                requires
                    q <= a - 1,
                    d > 0,
            ;
            assert(a * (1 - d) >= 0) by (nonlinear_arith)
                requires
                    a < 0,
                    d >= 1,
            ;
            assert(d * (a - 1) == d * a - d) by (nonlinear_arith);
            assert(r == a - d * q);
            assert(a * (1 - d) == a - d * a) by (nonlinear_arith);
            assert(false);
        }
    }
}

/// When the dividend lies between two given multiples of a positive
/// divisor, the quotient lies between the two factors.
pub proof fn lemma_div_between(lo: int, hi: int, a: int, d: int)
    requires
        0 < d,
        lo * d <= a <= hi * d,
    ensures
        lo <= a / d <= hi,
{
    vstd::arithmetic::div_mod::lemma_div_multiples_vanish(lo, d);
    vstd::arithmetic::div_mod::lemma_div_multiples_vanish(hi, d);
    assert(lo * d == d * lo) by (nonlinear_arith);
    assert(hi * d == d * hi) by (nonlinear_arith);
    vstd::arithmetic::div_mod::lemma_div_is_ordered(lo * d, a, d);
    vstd::arithmetic::div_mod::lemma_div_is_ordered(a, hi * d, d);
}

impl Viewport {
    /// The tile is at least one pixel wide after both gutters are taken
    /// off, and the tile size fits in the signed pixel arithmetic.
    pub open spec fn well_formed(self) -> bool {
        &&& 0 < self.tile_size
        &&& self.tile_size <= 0x7fff_ffffu32
        &&& 2 * self.inset < self.tile_size
    }

    /// A viewport with the given top-left world pixel and tile geometry.
    pub fn new(origin_x: i32, origin_y: i32, tile_size: u32, inset: u32) -> (vp: Viewport)
        requires
            0 < tile_size <= 0x7fff_ffffu32,
            2 * inset < tile_size,
        ensures
            vp.well_formed(),
            vp.origin_x == origin_x,
            vp.origin_y == origin_y,
            vp.tile_size == tile_size,
            vp.inset == inset,
    {
        Viewport { origin_x, origin_y, tile_size, inset }
    }

    /// The screen x pixel of the drawn rectangle of the cell column `cx`.
    pub open spec fn screen_x_spec(self, cx: int) -> int {
        cx * self.tile_size - self.origin_x + self.inset
    }

    /// The screen y pixel of the drawn rectangle of the cell row `cy`.
    pub open spec fn screen_y_spec(self, cy: int) -> int {
        cy * self.tile_size - self.origin_y + self.inset
    }

    /// The cell column under the screen pixel column `px`: floor of the
    /// world pixel divided by the tile size.
    pub open spec fn world_x_spec(self, px: int) -> int {
        (px + self.origin_x) / (self.tile_size as int)
    }

    /// The cell row under the screen pixel row `py`.
    pub open spec fn world_y_spec(self, py: int) -> int {
        (py + self.origin_y) / (self.tile_size as int)
    }

    /// The screen rectangle that draws the cell (cx, cy): the tile's
    /// corner shifted by the pan origin, inset by the gutter on every
    /// side.
    pub fn world_to_screen(&self, cx: i32, cy: i32) -> (rect: TileRect)
        requires
            self.well_formed(),
            i32::MIN <= self.screen_x_spec(cx as int) <= i32::MAX,
            i32::MIN <= self.screen_y_spec(cy as int) <= i32::MAX,
        ensures
            rect.x == self.screen_x_spec(cx as int),
            rect.y == self.screen_y_spec(cy as int),
            rect.width == self.tile_size - 2 * self.inset,
            rect.height == self.tile_size - 2 * self.inset,
    {
        proof {
            assert((-0x4000_0000_0000_0000int) <= (cx as int) * (self.tile_size as int)
                <= 0x4000_0000_0000_0000int) by (nonlinear_arith)
                requires
                    -0x8000_0000 <= cx as int <= 0x7fff_ffff,
                    0 <= self.tile_size as int <= 0x7fff_ffff,
            ;
        }
        let sx: i64 = cx as i64 * self.tile_size as i64 - self.origin_x as i64
            + self.inset as i64;
        let sy: i64 = cy as i64 * self.tile_size as i64 - self.origin_y as i64
            + self.inset as i64;
        proof {
            assert((cy as int) * (self.tile_size as int) == (cy as i64) * (self.tile_size
                as i64));
        }
        let side: u32 = self.tile_size - 2 * self.inset;
        TileRect { x: sx as i32, y: sy as i32, width: side, height: side }
    }

    /// The cell under the screen pixel (px, py): the pan origin is added
    /// back and the world pixel is floor-divided by the tile size.
    pub fn screen_to_world(&self, px: i32, py: i32) -> (cell: (i32, i32))
        requires
            self.well_formed(),
            i32::MIN <= self.world_x_spec(px as int) <= i32::MAX,
            i32::MIN <= self.world_y_spec(py as int) <= i32::MAX,
        ensures
            cell.0 == self.world_x_spec(px as int),
            cell.1 == self.world_y_spec(py as int),
    {
        let sum_x: i64 = px as i64 + self.origin_x as i64;
        let sum_y: i64 = py as i64 + self.origin_y as i64;
        let tile: i64 = self.tile_size as i64;
        proof {
            lemma_div_stays_between(sum_x as int, tile as int);
            lemma_div_stays_between(sum_y as int, tile as int);
        }
        let wx: i64 = match sum_x.checked_div_euclid(tile) {
            Some(q) => q,
            None => 0,  // unreachable: the quotient stays between the sum and zero
        };
        let wy: i64 = match sum_y.checked_div_euclid(tile) {
            Some(q) => q,
            None => 0,
        };
        (wx as i32, wy as i32)
    }

    /// Whether the cell (cx, cy) is drawn: its world pixel corner lies
    /// inside the window that starts at the pan origin.
    pub open spec fn cell_visible_spec(
        self,
        cx: int,
        cy: int,
        window_width: int,
        window_height: int,
    ) -> bool {
        &&& self.origin_x <= cx * self.tile_size < self.origin_x + window_width
        &&& self.origin_y <= cy * self.tile_size < self.origin_y + window_height
    }

    /// Culling predicate: restricts rendering to the cells whose tile
    /// corner falls inside the visible window.
    pub fn cell_visible(&self, cx: i32, cy: i32, window_width: u32, window_height: u32) -> (vis:
        bool)
        requires
            self.well_formed(),
        ensures
            vis == self.cell_visible_spec(
                cx as int,
                cy as int,
                window_width as int,
                window_height as int,
            ),
    {
        proof {
            assert((-0x4000_0000_0000_0000int) <= (cx as int) * (self.tile_size as int)
                <= 0x4000_0000_0000_0000int) by (nonlinear_arith)
                requires
                    -0x8000_0000 <= cx as int <= 0x7fff_ffff,
                    0 <= self.tile_size as int <= 0x7fff_ffff,
            ;
            assert((-0x4000_0000_0000_0000int) <= (cy as int) * (self.tile_size as int)
                <= 0x4000_0000_0000_0000int) by (nonlinear_arith)
                requires
                    -0x8000_0000 <= cy as int <= 0x7fff_ffff,
                    0 <= self.tile_size as int <= 0x7fff_ffff,
            ;
        }
        let wpx: i64 = cx as i64 * self.tile_size as i64;
        let wpy: i64 = cy as i64 * self.tile_size as i64;
        let ox: i64 = self.origin_x as i64;
        let oy: i64 = self.origin_y as i64;
        ox <= wpx && wpx < ox + window_width as i64 && oy <= wpy && wpy < oy + window_height
            as i64
    }

    /// Pan by the distance the pointer moved since the last frame: the
    /// origin moves opposite to the pointer, so the world follows the
    /// drag.
    pub fn pan(&mut self, drag_start_x: i32, drag_start_y: i32, pointer_x: i32, pointer_y: i32)
        requires
            i32::MIN <= old(self).origin_x + (drag_start_x - pointer_x) <= i32::MAX,
            i32::MIN <= old(self).origin_y + (drag_start_y - pointer_y) <= i32::MAX,
        ensures
            final(self).origin_x == old(self).origin_x + (drag_start_x - pointer_x),
            final(self).origin_y == old(self).origin_y + (drag_start_y - pointer_y),
            final(self).tile_size == old(self).tile_size,
            final(self).inset == old(self).inset,
    {
        let dir_x: i64 = drag_start_x as i64 - pointer_x as i64;
        let dir_y: i64 = drag_start_y as i64 - pointer_y as i64;
        self.origin_x = (self.origin_x as i64 + dir_x) as i32;
        self.origin_y = (self.origin_y as i64 + dir_y) as i32;
    }
}

/// Round trip: the screen rectangle of a cell, mapped back through
/// `screen_to_world` at its top-left corner, names the same cell again,
/// for every pan offset — the gutter inset never pushes the corner into a
/// neighboring cell because it is smaller than the tile.
pub proof fn lemma_viewport_round_trip(vp: Viewport, cx: int, cy: int)
    requires
        vp.well_formed(),
    ensures
        vp.world_x_spec(vp.screen_x_spec(cx)) == cx,
        vp.world_y_spec(vp.screen_y_spec(cy)) == cy,
{
    let tile = vp.tile_size as int;
    assert(vp.screen_x_spec(cx) + vp.origin_x == cx * tile + vp.inset);
    assert(vp.screen_y_spec(cy) + vp.origin_y == cy * tile + vp.inset);
    vstd::arithmetic::div_mod::lemma_fundamental_div_mod_converse_div(
        cx * tile + vp.inset,
        tile,
        cx,
        vp.inset as int,
    );
    vstd::arithmetic::div_mod::lemma_fundamental_div_mod_converse_div(
        cy * tile + vp.inset,
        tile,
        cy,
        vp.inset as int,
    );
}

} // verus!
