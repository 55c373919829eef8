//! Mapping between grid cells and an integer drawing surface: centring the
//! board in a viewport, hit-testing, toroidal tiling and grid lines.
//!
//! Surface coordinates are whole units; a host that draws in pixels scales by
//! [`UNITS_PER_PIXEL`].
use vstd::prelude::*;
use vstd::arithmetic::div_mod::{lemma_fundamental_div_mod, lemma_mod_bound};
use crate::pos::Pos;
use crate::rules::on_board;

verus! {

/// Surface units in one pixel.
pub const UNITS_PER_PIXEL: i64 = 100;

/// Smallest cell size, in surface units.
pub const CELL_MIN: u32 = 10;

/// Largest cell size, in surface units.
pub const CELL_MAX: u32 = 5000;

/// Cell size of a fresh board, in surface units.
pub const DEFAULT_CELL_SIZE: u32 = 1000;

/// Grid line thickness at the smallest cell size, in surface units.
pub const LINE_MIN: u32 = 10;

/// Grid line thickness at the largest cell size, in surface units.
pub const LINE_MAX: u32 = 150;

/// Largest magnitude of a viewport coordinate.
pub const COORD_LIMIT: i64 = 1099511627776;

/// Largest magnitude of a board-copy shift.
pub const SHIFT_LIMIT: i64 = 4503599627370496;

/// Largest magnitude of the shift that centres the board.
pub const OFFSET_LIMIT: i64 = 35184372088832;

/// Largest magnitude of a panned viewport edge, relative to the board.
pub const TILE_LIMIT: i64 = 140737488355328;

/// Largest magnitude of a placed cell's corner.
pub const PLACE_LIMIT: i64 = 72057594037927936;

/// Bound on the intermediate values of a hit test.
pub const WIDE_LIMIT: i128 = 1267650600228229401496703205376;

/// A point of the drawing surface.
#[derive(Clone, Copy, Debug, PartialEq, Eq, Structural)]
pub struct ScreenPoint {
    pub x: i64,
    pub y: i64,
}

/// An axis-aligned rectangle of the drawing surface, from `min` to `max`.
#[derive(Clone, Copy, Debug, PartialEq, Eq, Structural)]
pub struct ScreenRect {
    pub min: ScreenPoint,
    pub max: ScreenPoint,
}

/// A straight line from `from` to `to`.
#[derive(Clone, Copy, Debug, PartialEq, Eq, Structural)]
pub struct LineSegment {
    pub from: ScreenPoint,
    pub to: ScreenPoint,
}

/// The rectangle with corner `(x, y)` and side `c`.
pub open spec fn square(x: int, y: int, c: int) -> ScreenRect {
    ScreenRect {
        min: ScreenPoint { x: x as i64, y: y as i64 },
        max: ScreenPoint { x: (x + c) as i64, y: (y + c) as i64 },
    }
}

/// Whether two rectangles touch or overlap (edges count).
pub open spec fn overlaps(a: ScreenRect, b: ScreenRect) -> bool {
    a.min.x <= b.max.x && b.min.x <= a.max.x && a.min.y <= b.max.y && b.min.y <= a.max.y
}

/// The midpoint of a rectangle, rounded down.
pub open spec fn midpoint(r: ScreenRect) -> ScreenPoint {
    ScreenPoint { x: ((r.min.x + r.max.x) / 2) as i64, y: ((r.min.y + r.max.y) / 2) as i64 }
}

/// Quotient rounded up, for a positive divisor.
pub open spec fn ceil_div(a: int, b: int) -> int {
    -((-a) / b)
}

/// Whether a viewport is usable: ordered corners, coordinates within
/// [`COORD_LIMIT`].
pub open spec fn viewport_ok(v: ScreenRect) -> bool {
    &&& -COORD_LIMIT <= v.min.x <= v.max.x <= COORD_LIMIT
    &&& -COORD_LIMIT <= v.min.y <= v.max.y <= COORD_LIMIT
}

/// Whether an integer fits in `i32`.
pub open spec fn fits_i32(v: int) -> bool {
    i32::MIN <= v <= i32::MAX
}

/// Whether a rectangle and the viewport touch.
pub fn intersects(v: &ScreenRect, r: &ScreenRect) -> (b: bool)
    ensures
        b == overlaps(*v, *r),
{
    v.min.x <= r.max.x && r.min.x <= v.max.x && v.min.y <= r.max.y && r.min.y <= v.max.y
}

/// The midpoint of `r`, rounded down.
pub fn center(r: &ScreenRect) -> (p: ScreenPoint)
    ensures
        p == midpoint(*r),
{
    let x = (r.min.x as i128 + r.max.x as i128).checked_div_euclid(2).unwrap();
    let y = (r.min.y as i128 + r.max.y as i128).checked_div_euclid(2).unwrap();
    ScreenPoint { x: x as i64, y: y as i64 }
}

proof fn lemma_floor(a: int, b: int)
    requires
        b > 0,
    ensures
        b * (a / b) <= a < b * (a / b) + b,
{
    lemma_fundamental_div_mod(a, b);
    lemma_mod_bound(a, b);
}

proof fn lemma_div_magnitude(a: int, b: int, l: int)
    requires
        b >= 1,
        l >= 0,
        -l <= a <= l,
    ensures
        -l <= a / b <= l,
{
    lemma_floor(a, b);
    let q = a / b;
    assert(-l <= q <= l) by (nonlinear_arith)
        requires b >= 1, l >= 0, -l <= a <= l, b * q <= a, a < b * q + b;
}

proof fn lemma_mul_le(a: int, b: int, c: int)
    requires
        a <= b,
        c > 0,
    ensures
        a * c <= b * c,
{
    assert(a * c <= b * c) by (nonlinear_arith)
        requires a <= b, c > 0;
}

proof fn lemma_mul_abs(a: int, b: int, bound_a: int, bound_b: int)
    requires
        -bound_a <= a <= bound_a,
        0 <= b <= bound_b,
    ensures
        -(bound_a * bound_b) <= a * b <= bound_a * bound_b,
{
    assert(-(bound_a * bound_b) <= a * b <= bound_a * bound_b) by (nonlinear_arith)
        requires -bound_a <= a <= bound_a, 0 <= b <= bound_b;
}

/// Quotient of `a` by a positive `b`, rounded down.
fn floor_quotient(a: i128, b: i128) -> (q: i128)
    requires
        b > 0,
        -WIDE_LIMIT <= a <= WIDE_LIMIT,
    ensures
        q == a as int / b as int,
        -WIDE_LIMIT <= q <= WIDE_LIMIT,
{
    proof {
        lemma_div_magnitude(a as int, b as int, WIDE_LIMIT as int);
    }
    a.checked_div_euclid(b).unwrap()
}

/// The first and last board copy along an axis whose viewport runs from `lo`
/// to `hi`, relative to the board's centred position, for a board of `bp`
/// units: one spare copy on each side.
fn tile_bounds(lo: i64, hi: i64, bp: i64) -> (r: (i64, i64))
    requires
        0 < bp <= i32::MAX as int * CELL_MAX,
        -TILE_LIMIT <= lo <= hi <= TILE_LIMIT,
    ensures
        r.0 == lo / bp - 1,
        r.1 == ceil_div(hi as int, bp as int) + 1,
        r.0 <= r.1,
        -SHIFT_LIMIT <= r.0,
        r.1 <= SHIFT_LIMIT,
        forall|t: int| r.0 <= t <= r.1 ==> lo - 2 * bp <= #[trigger] (t * bp) <= hi + 2 * bp,
{
    proof {
        lemma_floor(lo as int, bp as int);
        lemma_floor(-hi, bp as int);
        lemma_div_magnitude(lo as int, bp as int, TILE_LIMIT as int);
        lemma_div_magnitude(-hi, bp as int, TILE_LIMIT as int);
        let q1 = lo / bp;
        let q2 = (-hi) / (bp as int);
        let b = bp as int;
        assert((q1 - 1) * b == b * q1 - b) by (nonlinear_arith);
        assert((-q2 + 1) * b == -(b * q2) + b) by (nonlinear_arith);
        assert(q1 + q2 <= 0) by (nonlinear_arith)
            requires b > 0, b * q1 + b * q2 <= 0;
        assert forall|t: int| lo / bp - 1 <= t <= ceil_div(hi as int, bp as int) + 1 implies lo - 2 * bp <= #[trigger] (t * bp) <= hi + 2 * bp by {
            lemma_mul_le(lo / bp - 1, t, bp as int);
            lemma_mul_le(t, ceil_div(hi as int, bp as int) + 1, bp as int);
        }
    }
    let first = lo.checked_div_euclid(bp).unwrap() - 1;
    let last = -((-hi).checked_div_euclid(bp).unwrap()) + 1;
    (first, last)
}

/// Along one axis, a board copy `t` whose cell at `pc` (of side `c`, inside
/// a board of `b` units) touches a viewport of extent `w`, with the board
/// moved back by `a`, lies in the range of copies drawn.
proof fn lemma_axis_cover(t: int, b: int, a: int, w: int, pc: int, c: int)
    requires
        b > 0,
        c > 0,
        0 <= pc,
        pc + c <= b,
        0 <= t * b - a + pc + c,
        t * b - a + pc <= w,
    ensures
        a / b - 1 <= t <= ceil_div(w + a, b) + 1,
{
    lemma_floor(a, b);
    lemma_floor(-(w + a), b);
    let q1 = a / b;
    let q2 = (-(w + a)) / b;
    assert(t >= q1 - 1) by (nonlinear_arith)
        requires b > 0, t * b >= a - b, b * q1 <= a;
    assert(t <= -q2) by (nonlinear_arith)
        requires b > 0, t * b <= w + a, b * q2 <= -(w + a);
}

/// How the board is laid out on the surface: its side in cells, the side of a
/// cell in units, and the cell shown at the board's top-left corner.
#[derive(Clone, Copy, Debug, PartialEq, Eq, Structural)]
pub struct Layout {
    pub map_size: i32,
    pub cell_size: u32,
    pub x_axis: i32,
    pub y_axis: i32,
}

impl Layout {
    /// A board of at least one cell, and a cell size within bounds.
    pub open spec fn wf(self) -> bool {
        &&& self.map_size >= 1
        &&& CELL_MIN <= self.cell_size <= CELL_MAX
    }

    /// The side of the whole board, in units.
    pub open spec fn board_extent(self) -> int {
        self.map_size * self.cell_size
    }

    /// The shift that centres the board along an axis of length `extent`.
    pub open spec fn centering(self, extent: int) -> int {
        (extent - self.board_extent()) / 2
    }

    pub open spec fn offset_x(self, v: ScreenRect) -> int {
        self.centering(v.max.x - v.min.x)
    }

    pub open spec fn offset_y(self, v: ScreenRect) -> int {
        self.centering(v.max.y - v.min.y)
    }

    /// The corner of cell `p`, moved by `(sx, sy)` units.
    pub open spec fn cell_rect(self, v: ScreenRect, p: Pos, sx: int, sy: int) -> ScreenRect {
        square(
            v.min.x + self.offset_x(v) + sx + (p.0 - self.x_axis) * self.cell_size,
            v.min.y + self.offset_y(v) + sy + (p.1 - self.y_axis) * self.cell_size,
            self.cell_size as int,
        )
    }

    /// The rectangle of cell `p` in the board copy `(tx, ty)`.
    pub open spec fn tiled_rect(self, v: ScreenRect, p: Pos, tx: int, ty: int) -> ScreenRect {
        self.cell_rect(v, p, tx * self.board_extent(), ty * self.board_extent())
    }

    /// How far the pan moves the board left of its centred place, in units.
    pub open spec fn pan_x(self, v: ScreenRect) -> int {
        self.x_axis * self.cell_size - self.offset_x(v)
    }

    /// How far the pan moves the board up from its centred place, in units.
    pub open spec fn pan_y(self, v: ScreenRect) -> int {
        self.y_axis * self.cell_size - self.offset_y(v)
    }

    /// The first board column drawn in toroidal mode: the one reaching the
    /// viewport's left edge, less one spare.
    pub open spec fn first_tile_x(self, v: ScreenRect) -> int {
        self.pan_x(v) / self.board_extent() - 1
    }

    /// The last board column drawn in toroidal mode: the one reaching the
    /// viewport's right edge, plus one spare.
    pub open spec fn last_tile_x(self, v: ScreenRect) -> int {
        ceil_div(v.max.x - v.min.x + self.pan_x(v), self.board_extent()) + 1
    }

    pub open spec fn first_tile_y(self, v: ScreenRect) -> int {
        self.pan_y(v) / self.board_extent() - 1
    }

    pub open spec fn last_tile_y(self, v: ScreenRect) -> int {
        ceil_div(v.max.y - v.min.y + self.pan_y(v), self.board_extent()) + 1
    }

    /// Whether the copy of cell `p` in board copy `(tx, ty)`, taken on exact
    /// integers, touches the viewport.
    pub open spec fn tile_touches(self, v: ScreenRect, p: Pos, tx: int, ty: int) -> bool {
        let c = self.cell_size as int;
        let x = v.min.x + self.offset_x(v) + tx * self.board_extent() + (p.0 - self.x_axis) * c;
        let y = v.min.y + self.offset_y(v) + ty * self.board_extent() + (p.1 - self.y_axis) * c;
        v.min.x <= x + c && x <= v.max.x && v.min.y <= y + c && y <= v.max.y
    }

    /// Whether `(tx, ty)` is one of the board copies drawn in toroidal mode.
    pub open spec fn tile_in_range(self, v: ScreenRect, tx: int, ty: int) -> bool {
        &&& self.first_tile_x(v) <= tx <= self.last_tile_x(v)
        &&& self.first_tile_y(v) <= ty <= self.last_tile_y(v)
    }

    /// Every copy of an on-board cell that touches the viewport is among
    /// those drawn in toroidal mode.
    pub proof fn lemma_tiles_cover(self, v: ScreenRect, p: Pos, tx: int, ty: int)
        requires
            self.wf(),
            viewport_ok(v),
            on_board(p, self.map_size as int),
            self.tile_touches(v, p, tx, ty),
        ensures
            self.tile_in_range(v, tx, ty),
            overlaps(v, self.tiled_rect(v, p, tx, ty)),
            self.instances(true, v, p).contains(self.tiled_rect(v, p, tx, ty)),
    {
        let c = self.cell_size as int;
        let m = self.map_size as int;
        let b = self.board_extent();
        assert(b == m * c);
        assert(0 <= p.0 * c && p.0 * c + c <= b && 0 <= p.1 * c && p.1 * c + c <= b) by (nonlinear_arith)
            requires 0 <= p.0 < m, 0 <= p.1 < m, c > 0, b == m * c;
        assert(b <= i32::MAX as int * CELL_MAX) by (nonlinear_arith)
            requires b == m * c, 1 <= m <= i32::MAX, 0 < c <= CELL_MAX;
        lemma_mul_abs(self.x_axis as int, c, 0x8000_0000, CELL_MAX as int);
        lemma_mul_abs(self.y_axis as int, c, 0x8000_0000, CELL_MAX as int);
        assert((p.0 - self.x_axis) * c == p.0 * c - self.x_axis * c) by (nonlinear_arith);
        assert((p.1 - self.y_axis) * c == p.1 * c - self.y_axis * c) by (nonlinear_arith);
        lemma_axis_cover(tx, b, self.pan_x(v), v.max.x - v.min.x, p.0 * c, c);
        lemma_axis_cover(ty, b, self.pan_y(v), v.max.y - v.min.y, p.1 * c, c);
        self.lemma_cell_rect_bounds(v, p, tx * b, ty * b);
    }

    /// The rectangles at which cell `p` is drawn: its own, or in toroidal mode
    /// one per board copy, keeping those that touch the viewport.
    pub open spec fn instances(self, toroidal: bool, v: ScreenRect, p: Pos) -> Set<ScreenRect> {
        if toroidal {
            Set::new(|r: ScreenRect| exists|tx: int, ty: int| #![trigger self.tiled_rect(v, p, tx, ty)]
                self.tile_in_range(v, tx, ty) && r == self.tiled_rect(v, p, tx, ty) && overlaps(v, r))
        } else {
            Set::new(|r: ScreenRect| r == self.cell_rect(v, p, 0, 0) && overlaps(v, r))
        }
    }

    /// The grid coordinate under surface coordinate `s` along one axis: the
    /// cell whose span `[start, start + cell_size)` holds `s`.
    pub open spec fn raw_grid(self, s: int, vmin: int, offset: int, axis: int) -> int {
        (s - vmin - offset) / (self.cell_size as int) + axis
    }

    /// The cell under the surface point `pt`: in toroidal mode wrapped into
    /// the board, otherwise as it falls, or `None` where that does not fit
    /// an `i32`.
    pub open spec fn grid_at(self, toroidal: bool, v: ScreenRect, pt: ScreenPoint) -> Option<Pos> {
        let gx = self.raw_grid(pt.x as int, v.min.x as int, self.offset_x(v), self.x_axis as int);
        let gy = self.raw_grid(pt.y as int, v.min.y as int, self.offset_y(v), self.y_axis as int);
        if toroidal {
            Some(Pos((gx % self.map_size as int) as i32, (gy % self.map_size as int) as i32))
        } else if fits_i32(gx) && fits_i32(gy) {
            Some(Pos(gx as i32, gy as i32))
        } else {
            None
        }
    }

    proof fn lemma_cell_rect_bounds(self, v: ScreenRect, p: Pos, sx: int, sy: int)
        requires
            self.wf(),
            viewport_ok(v),
            -SHIFT_LIMIT <= sx <= SHIFT_LIMIT,
            -SHIFT_LIMIT <= sy <= SHIFT_LIMIT,
        ensures
            ({
                let r = self.cell_rect(v, p, sx, sy);
                let x = v.min.x + self.offset_x(v) + sx + (p.0 - self.x_axis) * self.cell_size;
                let y = v.min.y + self.offset_y(v) + sy + (p.1 - self.y_axis) * self.cell_size;
                &&& -PLACE_LIMIT <= x <= PLACE_LIMIT
                &&& -PLACE_LIMIT <= y <= PLACE_LIMIT
                &&& r.min.x == x && r.min.y == y
                &&& r.max.x == x + self.cell_size && r.max.y == y + self.cell_size
            }),
    {
        let c = self.cell_size as int;
        lemma_mul_abs(self.map_size as int, c, i32::MAX as int, CELL_MAX as int);
        lemma_mul_abs(p.0 - self.x_axis, c, 0x1_0000_0000, CELL_MAX as int);
        lemma_mul_abs(p.1 - self.y_axis, c, 0x1_0000_0000, CELL_MAX as int);
    }

    /// The rectangle of cell `pos` on the surface, for a viewport `v`.
    pub fn grid_to_screen(&self, pos: Pos, v: &ScreenRect) -> (r: ScreenRect)
        requires
            self.wf(),
            viewport_ok(*v),
        ensures
            r == self.cell_rect(*v, pos, 0, 0),
    {
        proof {
            self.lemma_cell_rect_bounds(*v, pos, 0, 0);
        }
        self.shifted_rect(pos, v, 0, 0)
    }

    fn board_px(&self) -> (r: i64)
        requires
            self.wf(),
        ensures
            r == self.board_extent(),
            0 < r <= i32::MAX as int * CELL_MAX,
    {
        proof {
            lemma_mul_abs(self.map_size as int, self.cell_size as int, i32::MAX as int, CELL_MAX as int);
            assert(self.map_size * self.cell_size > 0) by (nonlinear_arith)
                requires self.map_size >= 1, self.cell_size >= 1;
        }
        self.map_size as i64 * self.cell_size as i64
    }

    fn offsets(&self, v: &ScreenRect) -> (r: (i64, i64))
        requires
            self.wf(),
            viewport_ok(*v),
        ensures
            r.0 == self.offset_x(*v),
            r.1 == self.offset_y(*v),
            -OFFSET_LIMIT <= r.0 <= OFFSET_LIMIT,
            -OFFSET_LIMIT <= r.1 <= OFFSET_LIMIT,
    {
        let bp = self.board_px();
        let ox = (v.max.x - v.min.x - bp).checked_div_euclid(2).unwrap();
        let oy = (v.max.y - v.min.y - bp).checked_div_euclid(2).unwrap();
        (ox, oy)
    }

    fn shifted_rect(&self, pos: Pos, v: &ScreenRect, sx: i64, sy: i64) -> (r: ScreenRect)
        requires
            self.wf(),
            viewport_ok(*v),
            -SHIFT_LIMIT <= sx <= SHIFT_LIMIT,
            -SHIFT_LIMIT <= sy <= SHIFT_LIMIT,
        ensures
            r == self.cell_rect(*v, pos, sx as int, sy as int),
    {
        proof {
            self.lemma_cell_rect_bounds(*v, pos, sx as int, sy as int);
        }
        let (ox, oy) = self.offsets(v);
        let c = self.cell_size as i64;
        proof {
            lemma_mul_abs(pos.0 - self.x_axis, c as int, 0x1_0000_0000, CELL_MAX as int);
            lemma_mul_abs(pos.1 - self.y_axis, c as int, 0x1_0000_0000, CELL_MAX as int);
        }
        let x = v.min.x + ox + sx + (pos.0 as i64 - self.x_axis as i64) * c;
        let y = v.min.y + oy + sy + (pos.1 as i64 - self.y_axis as i64) * c;
        ScreenRect { min: ScreenPoint { x, y }, max: ScreenPoint { x: x + c, y: y + c } }
    }

    /// The cell under the surface point `pt`; see [`Layout::grid_at`].
    pub fn screen_to_grid(&self, toroidal: bool, pt: ScreenPoint, v: &ScreenRect) -> (r: Option<Pos>)
        requires
            self.wf(),
            viewport_ok(*v),
        ensures
            r == self.grid_at(toroidal, *v, pt),
    {
        let (ox, oy) = self.offsets(v);
        let c = self.cell_size as i128;
        let gx = floor_quotient(pt.x as i128 - v.min.x as i128 - ox as i128, c) + self.x_axis as i128;
        let gy = floor_quotient(pt.y as i128 - v.min.y as i128 - oy as i128, c) + self.y_axis as i128;
        if toroidal {
            let m = self.map_size as i128;
            let wx = gx.checked_rem_euclid(m).unwrap();
            let wy = gy.checked_rem_euclid(m).unwrap();
            Some(Pos(wx as i32, wy as i32))
        } else if i32::MIN as i128 <= gx && gx <= i32::MAX as i128 && i32::MIN as i128 <= gy && gy
            <= i32::MAX as i128 {
            Some(Pos(gx as i32, gy as i32))
        } else {
            None
        }
    }

    /// The range of board copies drawn in toroidal mode, as
    /// `(first_x, last_x, first_y, last_y)`.
    fn tile_span(&self, v: &ScreenRect) -> (r: (i64, i64, i64, i64))
        requires
            self.wf(),
            viewport_ok(*v),
        ensures
            r.0 == self.first_tile_x(*v),
            r.1 == self.last_tile_x(*v),
            r.2 == self.first_tile_y(*v),
            r.3 == self.last_tile_y(*v),
            r.0 <= r.1,
            r.2 <= r.3,
            -SHIFT_LIMIT <= r.0,
            r.1 <= SHIFT_LIMIT,
            -SHIFT_LIMIT <= r.2,
            r.3 <= SHIFT_LIMIT,
            forall|t: int| r.0 <= t <= r.1 ==> -SHIFT_LIMIT <= #[trigger] (t * self.board_extent())
                <= SHIFT_LIMIT,
            forall|t: int| r.2 <= t <= r.3 ==> -SHIFT_LIMIT <= #[trigger] (t * self.board_extent())
                <= SHIFT_LIMIT,
    {
        let bp = self.board_px();
        let (ox, oy) = self.offsets(v);
        let c = self.cell_size as i64;
        proof {
            lemma_mul_abs(self.x_axis as int, c as int, 0x8000_0000, CELL_MAX as int);
            lemma_mul_abs(self.y_axis as int, c as int, 0x8000_0000, CELL_MAX as int);
        }
        let ax = self.x_axis as i64 * c - ox;
        let ay = self.y_axis as i64 * c - oy;
        let (fx, lx) = tile_bounds(ax, v.max.x - v.min.x + ax, bp);
        let (fy, ly) = tile_bounds(ay, v.max.y - v.min.y + ay, bp);
        (fx, lx, fy, ly)
    }

    /// The board copies `(i, j)` already visited when the scan stands at
    /// copy `(tx, ty)`, the copies of column `tx` being taken in order of `j`.
    pub open spec fn seen(self, v: ScreenRect, p: Pos, fx: int, fy: int, ly: int, tx: int, ty: int) -> Set<ScreenRect> {
        Set::new(|r: ScreenRect| exists|i: int, j: int| #![trigger self.tiled_rect(v, p, i, j)]
            ((fx <= i < tx && fy <= j <= ly) || (i == tx && fy <= j < ty)) && r
                == self.tiled_rect(v, p, i, j) && overlaps(v, r))
    }

    /// The copies of cell `p` in board column `tx`, rows `first_tile_y` up to
    /// but not including `first_tile_y + k`, in order, keeping those that
    /// touch the viewport.
    pub open spec fn column_seq(self, v: ScreenRect, p: Pos, tx: int, k: nat) -> Seq<ScreenRect>
        decreases k,
    {
        if k == 0 {
            Seq::empty()
        } else {
            let r = self.tiled_rect(v, p, tx, self.first_tile_y(v) + k - 1);
            self.column_seq(v, p, tx, (k - 1) as nat) + if overlaps(v, r) {
                seq![r]
            } else {
                Seq::empty()
            }
        }
    }

    /// The copies of cell `p` in the first `k` board columns, column by
    /// column.
    pub open spec fn tiles_seq(self, v: ScreenRect, p: Pos, k: nat) -> Seq<ScreenRect>
        decreases k,
    {
        if k == 0 {
            Seq::empty()
        } else {
            self.tiles_seq(v, p, (k - 1) as nat) + self.column_seq(
                v,
                p,
                self.first_tile_x(v) + k - 1,
                (self.last_tile_y(v) - self.first_tile_y(v) + 1) as nat,
            )
        }
    }

    /// The rectangles at which cell `p` is drawn, in drawing order: one per
    /// board copy (toroidal) or its own (standard), keeping those that touch
    /// the viewport.
    pub open spec fn instance_seq(self, toroidal: bool, v: ScreenRect, p: Pos) -> Seq<ScreenRect> {
        if toroidal {
            self.tiles_seq(v, p, (self.last_tile_x(v) - self.first_tile_x(v) + 1) as nat)
        } else {
            let r = self.cell_rect(v, p, 0, 0);
            if overlaps(v, r) {
                seq![r]
            } else {
                Seq::empty()
            }
        }
    }

    /// The rectangles drawn for the cells `cells`, cell by cell.
    pub open spec fn rendered(self, toroidal: bool, v: ScreenRect, cells: Seq<Pos>) -> Seq<ScreenRect>
        decreases cells.len(),
    {
        if cells.len() == 0 {
            Seq::empty()
        } else {
            self.rendered(toroidal, v, cells.drop_last()) + self.instance_seq(toroidal, v, cells.last())
        }
    }

    /// The rectangles at which cell `pos` is drawn; see [`Layout::instances`].
    pub fn cell_instances(&self, toroidal: bool, pos: Pos, v: &ScreenRect) -> (out: Vec<ScreenRect>)
        requires
            self.wf(),
            viewport_ok(*v),
        ensures
            out@ == self.instance_seq(toroidal, *v, pos),
            out@.to_set() == self.instances(toroidal, *v, pos),
            out@.no_duplicates(),
            toroidal ==> forall|tx: int, ty: int| on_board(pos, self.map_size as int)
                && #[trigger] self.tile_touches(*v, pos, tx, ty)
                ==> out@.contains(self.tiled_rect(*v, pos, tx, ty)),
    {
        let mut out: Vec<ScreenRect> = Vec::new();
        if !toroidal {
            let r = self.grid_to_screen(pos, v);
            if intersects(v, &r) {
                out.push(r);
            }
            proof {
                broadcast use vstd::seq_lib::group_seq_properties, vstd::seq::Seq::lemma_push_to_set_commute;
                assert(out@.to_set() =~= self.instances(toroidal, *v, pos));
                assert(out@ =~= self.instance_seq(toroidal, *v, pos));
            }
            return out;
        }
        let bp = self.board_px();
        let (fx, lx, fy, ly) = self.tile_span(v);
        let mut tx = fx;
        while tx <= lx
            invariant
                self.wf(),
                viewport_ok(*v),
                toroidal,
                bp == self.board_extent(),
                bp > 0,
                fx == self.first_tile_x(*v),
                lx == self.last_tile_x(*v),
                fy == self.first_tile_y(*v),
                ly == self.last_tile_y(*v),
                fx <= tx <= lx + 1,
                -SHIFT_LIMIT <= fx,
                lx <= SHIFT_LIMIT,
                fy <= ly <= SHIFT_LIMIT,
                forall|t: int| fx <= t <= lx ==> -SHIFT_LIMIT <= #[trigger] (t * self.board_extent())
                    <= SHIFT_LIMIT,
                forall|t: int| fy <= t <= ly ==> -SHIFT_LIMIT <= #[trigger] (t * self.board_extent())
                    <= SHIFT_LIMIT,
                out@.to_set() == self.seen(*v, pos, fx as int, fy as int, ly as int, tx as int, fy as int),
                out@ == self.tiles_seq(*v, pos, (tx - fx) as nat),
                out@.no_duplicates(),
            decreases lx + 1 - tx,
        {
            let ghost base = out@;
            let mut ty = fy;
            while ty <= ly
                invariant
                    self.wf(),
                    viewport_ok(*v),
                    bp == self.board_extent(),
                    bp > 0,
                    fx <= tx <= lx,
                    fy <= ty <= ly + 1,
                    ly <= SHIFT_LIMIT,
                    forall|t: int| fx <= t <= lx ==> -SHIFT_LIMIT <= #[trigger] (t * self.board_extent())
                        <= SHIFT_LIMIT,
                    forall|t: int| fy <= t <= ly ==> -SHIFT_LIMIT <= #[trigger] (t * self.board_extent())
                        <= SHIFT_LIMIT,
                    out@.to_set() == self.seen(*v, pos, fx as int, fy as int, ly as int, tx as int, ty as int),
                    fx == self.first_tile_x(*v),
                    fy == self.first_tile_y(*v),
                    ly == self.last_tile_y(*v),
                    out@ == base + self.column_seq(*v, pos, tx as int, (ty - fy) as nat),
                    out@.no_duplicates(),
                decreases ly + 1 - ty,
            {
                assert(-SHIFT_LIMIT <= tx * self.board_extent() <= SHIFT_LIMIT);
                assert(-SHIFT_LIMIT <= ty * self.board_extent() <= SHIFT_LIMIT);
                let r = self.shifted_rect(pos, v, tx * bp, ty * bp);
                proof {
                    assert(!out@.to_set().contains(r)) by {
                        if out@.to_set().contains(r) {
                            let (i, j) = choose|i: int, j: int| #![trigger self.tiled_rect(*v, pos, i, j)]
                                ((fx <= i < tx && fy <= j <= ly) || (i == tx && fy <= j < ty)) && r
                                    == self.tiled_rect(*v, pos, i, j) && overlaps(*v, r);
                            assert(-SHIFT_LIMIT <= i * self.board_extent() <= SHIFT_LIMIT);
                            assert(-SHIFT_LIMIT <= j * self.board_extent() <= SHIFT_LIMIT);
                            self.lemma_cell_rect_bounds(*v, pos, i * self.board_extent(), j * self.board_extent());
                            self.lemma_cell_rect_bounds(*v, pos, tx * self.board_extent(), ty * self.board_extent());
                            let b = self.board_extent();
                            assert(i * b == tx * b);
                            assert(j * b == ty * b);
                            assert(i == tx && j == ty) by (nonlinear_arith)
                                requires b > 0, i * b == tx * b, j * b == ty * b;
                        }
                    }
                }
                if intersects(v, &r) {
                    out.push(r);
                }
                proof {
                    broadcast use vstd::seq_lib::group_seq_properties, vstd::seq::Seq::lemma_push_to_set_commute;
                    assert(r == self.tiled_rect(*v, pos, tx as int, ty as int));
                    assert(out@.to_set() =~= self.seen(*v, pos, fx as int, fy as int, ly as int, tx as int, ty + 1));
                    let k = (ty - fy) as nat;
                    assert(fy + (k + 1) - 1 == ty);
                    assert(out@ =~= base + self.column_seq(*v, pos, tx as int, k + 1));
                }
                ty = ty + 1;
            }
            proof {
                assert(self.seen(*v, pos, fx as int, fy as int, ly as int, tx as int, ly + 1) =~= self.seen(*v, pos, fx as int, fy as int, ly as int, tx + 1, fy as int));
                let k = (tx - fx) as nat;
                assert(fx + (k + 1) - 1 == tx);
                assert(out@ =~= self.tiles_seq(*v, pos, k + 1));
            }
            tx = tx + 1;
        }
        proof {
            assert(out@.to_set() =~= self.instances(toroidal, *v, pos)) by {
                assert forall|r: ScreenRect| self.instances(toroidal, *v, pos).contains(r) implies out@.to_set().contains(r) by {
                    let (i, j) = choose|i: int, j: int| self.tile_in_range(*v, i, j) && r == self.tiled_rect(*v, pos, i, j) && overlaps(*v, r);
                    assert(self.seen(*v, pos, fx as int, fy as int, ly as int, tx as int, fy as int).contains(r));
                }
            }
        }
        assert(out@ == self.instance_seq(toroidal, *v, pos));
        assert forall|tx: int, ty: int| on_board(pos, self.map_size as int)
            && #[trigger] self.tile_touches(*v, pos, tx, ty) implies out@.contains(self.tiled_rect(*v, pos, tx, ty)) by {
            self.lemma_tiles_cover(*v, pos, tx, ty);
            assert(out@.to_set().contains(self.tiled_rect(*v, pos, tx, ty)));
        }
        out
    }

    /// Every rectangle at which some cell of `cells` is drawn.
    pub open spec fn drawn(self, toroidal: bool, v: ScreenRect, cells: Set<Pos>) -> Set<ScreenRect> {
        Set::new(|r: ScreenRect| exists|p: Pos| #![trigger self.instances(toroidal, v, p)]
            cells.contains(p) && self.instances(toroidal, v, p).contains(r))
    }

    /// The rectangles to fill for the live cells `cells`: each cell at every
    /// place [`Layout::cell_instances`] gives it.
    pub fn render_cells(&self, toroidal: bool, cells: &Vec<Pos>, v: &ScreenRect) -> (out: Vec<ScreenRect>)
        requires
            self.wf(),
            viewport_ok(*v),
        ensures
            out@ == self.rendered(toroidal, *v, cells@),
            out@.to_set() == self.drawn(toroidal, *v, cells@.to_set()),
            toroidal ==> forall|p: Pos, tx: int, ty: int| cells@.contains(p) && on_board(p, self.map_size as int)
                && #[trigger] self.tile_touches(*v, p, tx, ty)
                ==> out@.contains(self.tiled_rect(*v, p, tx, ty)),
    {
        let mut out: Vec<ScreenRect> = Vec::new();
        let mut i: usize = 0;
        while i < cells.len()
            invariant
                self.wf(),
                viewport_ok(*v),
                i <= cells@.len(),
                out@.to_set() == self.drawn(toroidal, *v, cells@.take(i as int).to_set()),
                out@ == self.rendered(toroidal, *v, cells@.take(i as int)),
            decreases cells.len() - i,
        {
            let more = self.cell_instances(toroidal, cells[i], v);
            let ghost base = out@;
            let mut j: usize = 0;
            while j < more.len()
                invariant
                    j <= more@.len(),
                    out@.to_set() == base.to_set() + more@.take(j as int).to_set(),
                    out@ == base + more@.take(j as int),
                decreases more.len() - j,
            {
                proof {
                    broadcast use vstd::seq_lib::group_seq_properties, vstd::seq::Seq::lemma_push_to_set_commute;
                    assert(more@.take(j + 1) =~= more@.take(j as int).push(more@[j as int]));
                }
                out.push(more[j]);
                proof {
                    assert(out@.to_set() =~= base.to_set() + more@.take(j + 1).to_set());
                    assert(out@ =~= base + more@.take(j + 1));
                }
                j = j + 1;
            }
            proof {
                broadcast use vstd::seq_lib::group_seq_properties, vstd::seq::Seq::lemma_push_to_set_commute;
                assert(more@.take(more@.len() as int) =~= more@);
                assert(cells@.take(i + 1) =~= cells@.take(i as int).push(cells@[i as int]));
                assert(cells@.take(i + 1).drop_last() =~= cells@.take(i as int));
                assert(out@ =~= self.rendered(toroidal, *v, cells@.take(i + 1)));
                assert(out@.to_set() =~= self.drawn(toroidal, *v, cells@.take(i + 1).to_set())) by {
                    assert forall|r: ScreenRect| #[trigger] self.drawn(toroidal, *v, cells@.take(i + 1).to_set()).contains(r) implies out@.to_set().contains(r) by {
                        let p = choose|p: Pos| cells@.take(i + 1).to_set().contains(p) && self.instances(toroidal, *v, p).contains(r);
                        if p != cells@[i as int] {
                            assert(self.drawn(toroidal, *v, cells@.take(i as int).to_set()).contains(r));
                        }
                    }
                    assert forall|r: ScreenRect| out@.to_set().contains(r) implies #[trigger] self.drawn(toroidal, *v, cells@.take(i + 1).to_set()).contains(r) by {
                        if base.to_set().contains(r) {
                            let p = choose|p: Pos| cells@.take(i as int).to_set().contains(p) && self.instances(toroidal, *v, p).contains(r);
                            assert(cells@.take(i + 1).to_set().contains(p));
                        } else {
                            assert(cells@.take(i + 1).to_set().contains(cells@[i as int]));
                        }
                    }
                }
            }
            i = i + 1;
        }
        assert(cells@.take(cells@.len() as int) =~= cells@);
        assert forall|p: Pos, tx: int, ty: int| toroidal && cells@.contains(p) && on_board(p, self.map_size as int)
            && #[trigger] self.tile_touches(*v, p, tx, ty) implies out@.contains(self.tiled_rect(*v, p, tx, ty)) by {
            self.lemma_tiles_cover(*v, p, tx, ty);
            assert(cells@.to_set().contains(p));
            assert(self.drawn(toroidal, *v, cells@.to_set()).contains(self.tiled_rect(*v, p, tx, ty)));
            assert(out@.to_set().contains(self.tiled_rect(*v, p, tx, ty)));
        }
        out
    }

    /// The number of grid lines across a viewport extent `w`: enough to cover
    /// it, and one spare on each side.
    pub open spec fn line_count(self, w: int) -> int {
        ceil_div(w, self.cell_size as int) + 2
    }

    /// The `i`-th vertical grid line: at `i` cells right of the viewport's
    /// left edge, spanning its height.
    pub open spec fn vertical_line(self, v: ScreenRect, i: int) -> LineSegment {
        let x = (v.min.x + i * self.cell_size) as i64;
        LineSegment { from: ScreenPoint { x, y: v.min.y }, to: ScreenPoint { x, y: v.max.y } }
    }

    /// The `j`-th horizontal grid line: at `j` cells below the viewport's
    /// top edge, spanning its width.
    pub open spec fn horizontal_line(self, v: ScreenRect, j: int) -> LineSegment {
        let y = (v.min.y + j * self.cell_size) as i64;
        LineSegment { from: ScreenPoint { x: v.min.x, y }, to: ScreenPoint { x: v.max.x, y } }
    }

    /// The grid lines over viewport `v`: lines one cell apart from its
    /// top-left corner, `ceil(extent / cell_size) + 2` along each axis,
    /// vertical ones first.
    pub open spec fn grid(self, v: ScreenRect) -> Seq<LineSegment> {
        Seq::new(self.line_count(v.max.x - v.min.x) as nat, |i: int| self.vertical_line(v, i))
            + Seq::new(self.line_count(v.max.y - v.min.y) as nat, |j: int| self.horizontal_line(v, j))
    }

    /// Lines along one axis, one cell apart from the viewport's near edge.
    fn axis_lines(&self, v: &ScreenRect, vertical: bool, out: &mut Vec<LineSegment>)
        requires
            self.wf(),
            viewport_ok(*v),
        ensures
            final(out)@ == old(out)@ + if vertical {
                Seq::new(self.line_count(v.max.x - v.min.x) as nat, |i: int| self.vertical_line(*v, i))
            } else {
                Seq::new(self.line_count(v.max.y - v.min.y) as nat, |j: int| self.horizontal_line(*v, j))
            },
    {
        let c = self.cell_size as i64;
        let (lo, hi) = if vertical {
            (v.min.x, v.max.x)
        } else {
            (v.min.y, v.max.y)
        };
        let extent = hi - lo;
        proof {
            lemma_div_magnitude(-extent, c as int, 2 * COORD_LIMIT);
            lemma_floor(-extent, c as int);
            assert((-extent) / (c as int) <= 0) by (nonlinear_arith)
                requires c > 0, (c as int) * ((-extent) / (c as int)) <= -extent, extent >= 0,
                    -extent < (c as int) * ((-extent) / (c as int)) + c;
        }
        let count = -((-extent).checked_div_euclid(c).unwrap()) + 2;
        let ghost want = if vertical {
            Seq::new(self.line_count(v.max.x - v.min.x) as nat, |i: int| self.vertical_line(*v, i))
        } else {
            Seq::new(self.line_count(v.max.y - v.min.y) as nat, |j: int| self.horizontal_line(*v, j))
        };
        let ghost start = out@;
        let mut i: i64 = 0;
        while i < count
            invariant
                self.wf(),
                viewport_ok(*v),
                c == self.cell_size,
                lo == (if vertical { v.min.x } else { v.min.y }),
                hi == (if vertical { v.max.x } else { v.max.y }),
                0 <= i <= count,
                count <= 2 * COORD_LIMIT + 2,
                want.len() == count,
                want == (if vertical {
                    Seq::new(self.line_count(v.max.x - v.min.x) as nat, |i: int| self.vertical_line(*v, i))
                } else {
                    Seq::new(self.line_count(v.max.y - v.min.y) as nat, |j: int| self.horizontal_line(*v, j))
                }),
                out@ == start + want.take(i as int),
            decreases count - i,
        {
            proof {
                lemma_mul_abs(i as int, c as int, 2 * COORD_LIMIT + 2, CELL_MAX as int);
                assert(want.take(i + 1) =~= want.take(i as int).push(want[i as int]));
            }
            let at = lo + i * c;
            let seg = if vertical {
                LineSegment { from: ScreenPoint { x: at, y: v.min.y }, to: ScreenPoint { x: at, y: v.max.y } }
            } else {
                LineSegment { from: ScreenPoint { x: v.min.x, y: at }, to: ScreenPoint { x: v.max.x, y: at } }
            };
            out.push(seg);
            i = i + 1;
        }
        assert(want.take(want.len() as int) =~= want);
    }

    /// The grid lines over viewport `v`; see [`Layout::grid`].
    pub fn grid_lines(&self, v: &ScreenRect) -> (out: Vec<LineSegment>)
        requires
            self.wf(),
            viewport_ok(*v),
        ensures
            out@ == self.grid(*v),
    {
        let mut out: Vec<LineSegment> = Vec::new();
        self.axis_lines(v, true, &mut out);
        self.axis_lines(v, false, &mut out);
        assert(out@ =~= self.grid(*v));
        out
    }
}

/// Linear easing between two thicknesses: `t_lo` up to `lo`, `t_hi` past
/// `hi`, and in between the straight line from one to the other, rounded down.
pub open spec fn eased(value: int, lo: int, hi: int, t_lo: int, t_hi: int) -> int {
    if value <= lo {
        t_lo
    } else if value > hi {
        t_hi
    } else {
        t_lo + (value - lo) * (t_hi - t_lo) / (hi - lo)
    }
}

/// Eases `value` from `t_lo` at `lo` to `t_hi` at `hi`; see [`eased`].
pub fn exponential_easing(value: u32, lo: u32, hi: u32, t_lo: u32, t_hi: u32) -> (r: u32)
    requires
        lo < hi,
        t_lo <= t_hi,
    ensures
        r == eased(value as int, lo as int, hi as int, t_lo as int, t_hi as int),
        t_lo <= r <= t_hi,
{
    if value <= lo {
        return t_lo;
    }
    if value > hi {
        return t_hi;
    }
    proof {
        let a = (value - lo) as int;
        let b = (t_hi - t_lo) as int;
        assert(a * b <= u32::MAX as int * u32::MAX as int) by (nonlinear_arith)
            requires 0 <= a <= u32::MAX, 0 <= b <= u32::MAX;
    }
    let num: u64 = (value - lo) as u64 * (t_hi - t_lo) as u64;
    let den: u64 = (hi - lo) as u64;
    proof {
        let a = (value - lo) as int;
        let b = (t_hi - t_lo) as int;
        let d = den as int;
        assert(a * b <= d * b) by (nonlinear_arith)
            requires 0 <= a <= d, 0 <= b;
        vstd::arithmetic::div_mod::lemma_div_is_ordered(a * b, d * b, d);
        assert((d * b) / d == b) by {
            vstd::arithmetic::div_mod::lemma_div_multiples_vanish(b, d);
        }
    }
    t_lo + (num / den) as u32
}

/// Thickness of the grid lines for cells of side `cell_size`.
pub fn line_thickness(cell_size: u32) -> (r: u32)
    ensures
        r == eased(cell_size as int, CELL_MIN as int, CELL_MAX as int, LINE_MIN as int, LINE_MAX as int),
{
    exponential_easing(cell_size, CELL_MIN, CELL_MAX, LINE_MIN, LINE_MAX)
}

/// The easing never decreases: a larger value gets at least as thick a line.
pub proof fn lemma_easing_monotonic(a: int, b: int, lo: int, hi: int, t_lo: int, t_hi: int)
    requires
        a <= b,
        lo < hi,
        t_lo <= t_hi,
    ensures
        eased(a, lo, hi, t_lo, t_hi) <= eased(b, lo, hi, t_lo, t_hi),
{
    let d = hi - lo;
    let k = t_hi - t_lo;
    if a > lo && b <= hi {
        assert((a - lo) * k <= (b - lo) * k) by (nonlinear_arith)
            requires a <= b, k >= 0;
        vstd::arithmetic::div_mod::lemma_div_is_ordered((a - lo) * k, (b - lo) * k, d);
    }
    if lo < a <= hi {
        assert((a - lo) * k <= d * k) by (nonlinear_arith)
            requires a - lo <= d, k >= 0, a - lo >= 0;
        vstd::arithmetic::div_mod::lemma_div_is_ordered((a - lo) * k, d * k, d);
        vstd::arithmetic::div_mod::lemma_div_multiples_vanish(k, d);
    }
    if lo < b <= hi {
        assert(0 <= (b - lo) * k) by (nonlinear_arith)
            requires b - lo >= 0, k >= 0;
        vstd::arithmetic::div_mod::lemma_div_is_ordered(0, (b - lo) * k, d);
    }
}

/// A point at or past the corner of a cell's rectangle and short of its far
/// edges hits that cell: unwrapped, the cell itself; in toroidal mode, the
/// board cell it stands for.
pub proof fn lemma_hit_inside(layout: Layout, v: ScreenRect, p: Pos, s: ScreenPoint)
    requires
        layout.wf(),
        viewport_ok(v),
        layout.cell_rect(v, p, 0, 0).min.x <= s.x < layout.cell_rect(v, p, 0, 0).max.x,
        layout.cell_rect(v, p, 0, 0).min.y <= s.y < layout.cell_rect(v, p, 0, 0).max.y,
    ensures
        layout.grid_at(false, v, s) == Some(p),
        layout.grid_at(true, v, s) == Some(
            Pos(((p.0 as int) % (layout.map_size as int)) as i32, ((p.1 as int) % (layout.map_size as int)) as i32),
        ),
{
    layout.lemma_cell_rect_bounds(v, p, 0, 0);
    let c = layout.cell_size as int;
    let ax = s.x - v.min.x - layout.offset_x(v);
    let ay = s.y - v.min.y - layout.offset_y(v);
    let rx = s.x - layout.cell_rect(v, p, 0, 0).min.x;
    let ry = s.y - layout.cell_rect(v, p, 0, 0).min.y;
    assert(ax == (p.0 - layout.x_axis) * c + rx);
    assert(ay == (p.1 - layout.y_axis) * c + ry);
    vstd::arithmetic::div_mod::lemma_fundamental_div_mod_converse(ax, c, p.0 - layout.x_axis, rx);
    vstd::arithmetic::div_mod::lemma_fundamental_div_mod_converse(ay, c, p.1 - layout.y_axis, ry);
}

/// In toroidal mode, points a whole number of board widths apart hit the same
/// cell: every copy of the board resolves to the one board.
pub proof fn lemma_tiles_agree(layout: Layout, v: ScreenRect, s: ScreenPoint, t: ScreenPoint, k: int, l: int)
    requires
        layout.wf(),
        viewport_ok(v),
        t.x == s.x + k * layout.board_extent(),
        t.y == s.y + l * layout.board_extent(),
    ensures
        layout.grid_at(true, v, t) == layout.grid_at(true, v, s),
{
    let c = layout.cell_size as int;
    let m = layout.map_size as int;
    let ax = s.x - v.min.x - layout.offset_x(v);
    let ay = s.y - v.min.y - layout.offset_y(v);
    lemma_floor(ax, c);
    lemma_floor(ay, c);
    let qx = ax / c;
    let qy = ay / c;
    assert(k * layout.board_extent() == (k * m) * c) by (nonlinear_arith)
        requires layout.board_extent() == m * c;
    assert(l * layout.board_extent() == (l * m) * c) by (nonlinear_arith)
        requires layout.board_extent() == m * c;
    assert(ax == qx * c + (ax - c * qx)) by (nonlinear_arith);
    assert(ay == qy * c + (ay - c * qy)) by (nonlinear_arith);
    assert(ax + (k * m) * c == (qx + k * m) * c + (ax - c * qx)) by (nonlinear_arith);
    assert(ay + (l * m) * c == (qy + l * m) * c + (ay - c * qy)) by (nonlinear_arith);
    vstd::arithmetic::div_mod::lemma_fundamental_div_mod_converse(ax + (k * m) * c, c, qx + k * m, ax - c * qx);
    vstd::arithmetic::div_mod::lemma_fundamental_div_mod_converse(ay + (l * m) * c, c, qy + l * m, ay - c * qy);
    let gx = qx + layout.x_axis;
    let gy = qy + layout.y_axis;
    vstd::arithmetic::div_mod::lemma_mod_multiples_vanish(k, gx, m);
    vstd::arithmetic::div_mod::lemma_mod_multiples_vanish(l, gy, m);
    assert(m * k + gx == gx + k * m) by (nonlinear_arith);
    assert(m * l + gy == gy + l * m) by (nonlinear_arith);
}

/// With no pan, a cell inside the board is found again under the midpoint
/// of its own rectangle.
pub proof fn lemma_round_trip(layout: Layout, v: ScreenRect, p: Pos)
    requires
        layout.wf(),
        viewport_ok(v),
        layout.x_axis == 0,
        layout.y_axis == 0,
        0 <= p.0 < layout.map_size,
        0 <= p.1 < layout.map_size,
    ensures
        layout.grid_at(false, v, midpoint(layout.cell_rect(v, p, 0, 0))) == Some(p),
{
    layout.lemma_cell_rect_bounds(v, p, 0, 0);
    let c = layout.cell_size as int;
    let r = layout.cell_rect(v, p, 0, 0);
    let m = midpoint(r);
    assert(0 <= p.0 * c && 0 <= p.1 * c) by (nonlinear_arith)
        requires p.0 >= 0, p.1 >= 0, c >= 0;
    vstd::arithmetic::div_mod::lemma_fundamental_div_mod_converse(p.0 * c + c / 2, c, p.0 as int, c / 2);
    vstd::arithmetic::div_mod::lemma_fundamental_div_mod_converse(p.1 * c + c / 2, c, p.1 as int, c / 2);
    assert(m.x - v.min.x - layout.offset_x(v) == p.0 * c + c / 2);
    assert(m.y - v.min.y - layout.offset_y(v) == p.1 * c + c / 2);
}

} // verus!
