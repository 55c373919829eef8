//! The simulation state: the live cells, a saved snapshot, the settings the
//! host edits, and the pacing clock.
use vstd::prelude::*;
use crate::cells::LiveSet;
use crate::pacing::{frame_interval, frame_interval_ms, gate_open, is_due};
use crate::pattern::{parse_pattern, pattern_cells};
use crate::pos::Pos;
use crate::random::{draws_within, drawn_cells, random_cells, spawn_side};
use crate::rules::{on_board, candidates, count_neighbors, live_neighbors, next_generation, step_generation};
use crate::view::{
    line_thickness, viewport_ok, Layout, LineSegment, ScreenPoint, ScreenRect, CELL_MAX, CELL_MIN,
    DEFAULT_CELL_SIZE, UNITS_PER_PIXEL,
};

verus! {

/// Side of a fresh board, in cells.
pub const DEFAULT_MAP_SIZE: i32 = 75;

/// Frame rate of a fresh board.
pub const DEFAULT_FPS: u32 = 10;

/// Scarcity of a fresh board's random cells.
pub const DEFAULT_SCARCITY: u32 = 3;

/// A board and everything the host needs to run, draw and edit it.
pub struct ConwayMap {
    /// Grid column shown at the board's left edge.
    pub x_axis: i32,
    /// Grid row shown at the board's top edge.
    pub y_axis: i32,
    /// Side of a cell, in surface units, kept within `CELL_MIN..=CELL_MAX`.
    pub cell_size: u32,
    /// Side of the board, in cells.
    pub map_size: i32,
    /// Minimum milliseconds between generations, computed from `fps`.
    pub speed: u128,
    /// Generations per second.
    pub fps: u32,
    /// Scarcity of random cells: each is alive with chance `1 / (rand_scarcity + 1)`,
    /// and none at 0.
    pub rand_scarcity: u32,
    /// Light or dark colours.
    pub light_mode: bool,
    /// Whether grid lines are drawn.
    pub lines: bool,
    /// Whether the board is drawn tiled, showing its wrap-around.
    pub toroidal_display: bool,
    /// Whether the board is in its saved state: set by construction, caching
    /// and restoring, cleared by a generation step.
    pub is_initial: bool,
    /// When the last generation step happened, in the host's milliseconds.
    pub last_frame_time: u128,
    /// The live cells.
    pub cells: LiveSet,
    /// The saved snapshot of the live cells.
    pub initial_state: LiveSet,
}

impl Default for ConwayMap {
    fn default() -> (m: ConwayMap)
        ensures
            m.live() == Set::<Pos>::empty(),
            m.snapshot() == Set::<Pos>::empty(),
            m.map_size == DEFAULT_MAP_SIZE,
            m.cell_size == DEFAULT_CELL_SIZE,
            m.fps == DEFAULT_FPS,
            m.is_initial,
    {
        ConwayMap::new()
    }
}

/// Whether every setting of `a` and `b` agrees; the cells, the snapshot, the
/// clock and the saved-state flag are not settings.
pub open spec fn same_settings(a: &ConwayMap, b: &ConwayMap) -> bool {
    &&& a.x_axis == b.x_axis
    &&& a.y_axis == b.y_axis
    &&& a.cell_size == b.cell_size
    &&& a.map_size == b.map_size
    &&& a.speed == b.speed
    &&& a.fps == b.fps
    &&& a.rand_scarcity == b.rand_scarcity
    &&& a.light_mode == b.light_mode
    &&& a.lines == b.lines
    &&& a.toroidal_display == b.toroidal_display
}

/// Whether `b` has the same saved snapshot as `a`. Every operation but
/// [`ConwayMap::cache_initial_state`] keeps it.
pub open spec fn keeps_snapshot(a: &ConwayMap, b: &ConwayMap) -> bool {
    b.snapshot() == a.snapshot()
}

/// Whether `b` is `a` just saved: the snapshot holds `a`'s cells, the cells
/// stay, and the board is marked as in its saved state.
pub open spec fn cached_from(a: &ConwayMap, b: &ConwayMap) -> bool {
    &&& b.snapshot() == a.live()
    &&& b.live() == a.live()
    &&& b.is_initial
}

/// Whether `b` is `a` restored: the cells are `a`'s snapshot, the snapshot
/// stays, and the board is marked as in its saved state.
pub open spec fn restored_from(a: &ConwayMap, b: &ConwayMap) -> bool {
    &&& b.live() == a.snapshot()
    &&& b.snapshot() == a.snapshot()
    &&& b.is_initial
}

/// Whether `b` follows from `a` by a direct edit of the cells: the settings,
/// the snapshot and the clock stay.
pub open spec fn cell_edit(a: &ConwayMap, b: &ConwayMap) -> bool {
    &&& same_settings(a, b)
    &&& b.snapshot() == a.snapshot()
    &&& b.last_frame() == a.last_frame()
}

/// Whether `p` lies between `lo` and `hi` on both axes, inclusive.
pub open spec fn in_square(p: Pos, lo: int, hi: int) -> bool {
    lo <= p.0 <= hi && lo <= p.1 <= hi
}

/// Whether `(x, y)` are the least coordinates among `s`, or `(-1, -1)` for
/// an empty set.
pub open spec fn is_low_corner(s: Set<Pos>, x: int, y: int) -> bool {
    if s.is_empty() {
        x == -1 && y == -1
    } else {
        &&& forall|p: Pos| #[trigger] s.contains(p) ==> x <= p.0 && y <= p.1
        &&& exists|p: Pos| #[trigger] s.contains(p) && p.0 == x
        &&& exists|p: Pos| #[trigger] s.contains(p) && p.1 == y
    }
}

/// Whether `(x, y)` are the greatest coordinates among `s`, counting `-1` as
/// always present.
pub open spec fn is_high_corner(s: Set<Pos>, x: int, y: int) -> bool {
    &&& -1 <= x && -1 <= y
    &&& forall|p: Pos| #[trigger] s.contains(p) ==> p.0 <= x && p.1 <= y
    &&& (x == -1 || exists|p: Pos| #[trigger] s.contains(p) && p.0 == x)
    &&& (y == -1 || exists|p: Pos| #[trigger] s.contains(p) && p.1 == y)
}

/// Where `p` goes when a pattern spanning `(lx, ly)`..`(hx, hy)` is moved
/// to the middle of a board of side `m`.
pub open spec fn centred(p: Pos, m: int, lx: int, ly: int, hx: int, hy: int) -> Pos {
    Pos((m / 2 - (hx - lx) / 2 + p.0) as i32, (m / 2 - (hy - ly) / 2 + p.1) as i32)
}

/// The cell size that fits a board of side `m` across `extent` units: whole
/// pixels per cell, kept within `CELL_MIN..=CELL_MAX`.
pub open spec fn fitted_cell_size(extent: int, m: int) -> int {
    let px = (extent / UNITS_PER_PIXEL as int) / m * UNITS_PER_PIXEL as int;
    if px < CELL_MIN {
        CELL_MIN as int
    } else if px > CELL_MAX {
        CELL_MAX as int
    } else {
        px
    }
}

impl ConwayMap {
    /// The live cells.
    pub open spec fn live(&self) -> Set<Pos> {
        self.cells@
    }

    /// The saved snapshot of the live cells.
    pub open spec fn snapshot(&self) -> Set<Pos> {
        self.initial_state@
    }

    /// When the last generation step happened, in the host's milliseconds.
    pub open spec fn last_frame(&self) -> int {
        self.last_frame_time as int
    }

    /// How the board is laid out on the surface.
    pub open spec fn layout_spec(&self) -> Layout {
        Layout { map_size: self.map_size, cell_size: self.cell_size, x_axis: self.x_axis, y_axis: self.y_axis }
    }

    /// How the board is laid out on the surface.
    pub fn layout(&self) -> (r: Layout)
        ensures
            r == self.layout_spec(),
    {
        Layout { map_size: self.map_size, cell_size: self.cell_size, x_axis: self.x_axis, y_axis: self.y_axis }
    }

    /// A fresh, empty board with the default settings, in its saved state,
    /// its clock at zero.
    pub fn new() -> (m: ConwayMap)
        ensures
            m.live() == Set::<Pos>::empty(),
            m.snapshot() == Set::<Pos>::empty(),
            m.last_frame() == 0,
            m.fps == DEFAULT_FPS,
            m.speed == frame_interval(DEFAULT_FPS as int),
            m.map_size == DEFAULT_MAP_SIZE,
            m.cell_size == DEFAULT_CELL_SIZE,
            m.x_axis == 0,
            m.y_axis == 0,
            m.rand_scarcity == DEFAULT_SCARCITY,
            m.light_mode,
            !m.lines,
            !m.toroidal_display,
            m.is_initial,
    {
        ConwayMap {
            fps: DEFAULT_FPS,
            speed: ConwayMap::fps_to_speed(DEFAULT_FPS),
            cells: LiveSet::new(),
            initial_state: LiveSet::new(),
            last_frame_time: 0,
            map_size: DEFAULT_MAP_SIZE,
            cell_size: DEFAULT_CELL_SIZE,
            x_axis: 0,
            y_axis: 0,
            rand_scarcity: DEFAULT_SCARCITY,
            light_mode: true,
            lines: false,
            toroidal_display: false,
            is_initial: true,
        }
    }

    /// Minimum milliseconds between generations at `fps` frames per second.
    pub fn fps_to_speed(fps: u32) -> (r: u128)
        requires
            fps >= 1,
        ensures
            r == frame_interval(fps as int),
    {
        frame_interval_ms(fps)
    }

    /// Recomputes `speed` from `fps`.
    pub fn update_speed(&mut self)
        requires
            old(self).fps >= 1,
        ensures
            final(self).speed == frame_interval(old(self).fps as int),
            final(self).fps == old(self).fps,
            final(self).live() == old(self).live(),
            keeps_snapshot(&*old(self), &*final(self)),
            final(self).last_frame() == old(self).last_frame(),
            final(self).is_initial == old(self).is_initial,
            final(self).layout_spec() == old(self).layout_spec(),
            final(self).rand_scarcity == old(self).rand_scarcity,
            final(self).light_mode == old(self).light_mode,
            final(self).lines == old(self).lines,
            final(self).toroidal_display == old(self).toroidal_display,
    {
        self.speed = ConwayMap::fps_to_speed(self.fps);
    }

    /// The number of live neighbours of `p`, each neighbour wrapped one step
    /// across the board's edges.
    pub fn neighbors(&self, p: &Pos) -> (r: usize)
        requires
            self.map_size >= 1,
        ensures
            r == live_neighbors(self.live(), *p, self.map_size as int),
    {
        count_neighbors(&self.cells, *p, self.map_size)
    }

    /// Replaces the live cells with random ones: each cell of the square
    /// `0..=map_size - 4` on both axes is alive when a draw from
    /// `0..=rand_scarcity` is exactly 1. A scarcity of 0 leaves the board
    /// empty.
    pub fn gen_random(&mut self)
        ensures
            exists|draws: Seq<Seq<u32>>| #![trigger drawn_cells(draws)]
                draws_within(draws, spawn_side(old(self).map_size as int), old(self).rand_scarcity as int)
                && final(self).live() == drawn_cells(draws),
            forall|p: Pos| #[trigger] final(self).live().contains(p) ==> in_square(p, 0, old(self).map_size - 4),
            old(self).rand_scarcity == 0 ==> final(self).live().is_empty(),
            cell_edit(&*old(self), &*final(self)),
            keeps_snapshot(&*old(self), &*final(self)),
            final(self).is_initial == old(self).is_initial,
    {
        self.clear();
        self.cells = random_cells(self.map_size, self.rand_scarcity);
        proof {
            let draws = choose|draws: Seq<Seq<u32>>| #![trigger drawn_cells(draws)]
                draws_within(draws, spawn_side(self.map_size as int), self.rand_scarcity as int)
                && self.cells@ == drawn_cells(draws);
            assert forall|p: Pos| #[trigger] self.cells@.contains(p) implies in_square(p, 0, self.map_size - 4) by {
                assert(drawn_cells(draws).contains(p));
            }
            if self.rand_scarcity == 0 {
                assert forall|p: Pos| !self.cells@.contains(p) by {
                    if self.cells@.contains(p) {
                        assert(drawn_cells(draws).contains(p));
                        assert(draws[p.1 as int][p.0 as int] <= 0);
                    }
                }
                assert(self.cells@ =~= Set::<Pos>::empty());
            }
        }
    }

    /// Saves the live cells as the snapshot, and marks the board as being in
    /// its saved state.
    pub fn cache_initial_state(&mut self)
        ensures
            cached_from(&*old(self), &*final(self)),
            same_settings(&*old(self), &*final(self)),
            final(self).last_frame() == old(self).last_frame(),
    {
        self.initial_state = self.cells.copy();
        self.is_initial = true;
    }

    /// Puts the snapshot back as the live cells, and marks the board as being
    /// in its saved state.
    pub fn restore_initial_state(&mut self)
        ensures
            restored_from(&*old(self), &*final(self)),
            same_settings(&*old(self), &*final(self)),
            final(self).last_frame() == old(self).last_frame(),
    {
        self.cells = self.initial_state.copy();
        self.is_initial = true;
    }

    /// Kills every cell.
    pub fn clear(&mut self)
        ensures
            final(self).live() == Set::<Pos>::empty(),
            cell_edit(&*old(self), &*final(self)),
            keeps_snapshot(&*old(self), &*final(self)),
            final(self).is_initial == old(self).is_initial,
    {
        self.cells.clear();
    }

    /// Flips the cell at `pos`: alive to dead, dead to alive.
    pub fn toggle_cell(&mut self, pos: Pos)
        ensures
            final(self).live() == if old(self).live().contains(pos) {
                old(self).live().remove(pos)
            } else {
                old(self).live().insert(pos)
            },
            cell_edit(&*old(self), &*final(self)),
            keeps_snapshot(&*old(self), &*final(self)),
            final(self).is_initial == old(self).is_initial,
    {
        if self.cells.contains(pos) {
            self.cells.remove(pos);
        } else {
            self.cells.insert(pos);
        }
    }

    /// Whether the cell at `pos` is alive.
    pub fn is_cell_alive(&self, pos: Pos) -> (r: bool)
        ensures
            r == self.live().contains(pos),
    {
        self.cells.contains(pos)
    }

    /// Makes the cell at `pos` alive.
    pub fn set_cell_alive(&mut self, pos: Pos)
        ensures
            final(self).live() == old(self).live().insert(pos),
            cell_edit(&*old(self), &*final(self)),
            keeps_snapshot(&*old(self), &*final(self)),
            final(self).is_initial == old(self).is_initial,
    {
        self.cells.insert(pos);
    }

    /// Makes the cell at `pos` dead.
    pub fn set_cell_dead(&mut self, pos: Pos)
        ensures
            final(self).live() == old(self).live().remove(pos),
            cell_edit(&*old(self), &*final(self)),
            keeps_snapshot(&*old(self), &*final(self)),
            final(self).is_initial == old(self).is_initial,
    {
        self.cells.remove(pos);
    }

    /// The live cells, each once, in no particular order.
    pub fn live_cells(&self) -> (v: Vec<Pos>)
        ensures
            v@.to_set() == self.live(),
            v@.no_duplicates(),
    {
        self.cells.positions()
    }

    /// Replaces the live cells with those of a text pattern: a `#` in column
    /// `i` of line `j` is the cell `(i, j)`.
    pub fn generate_from_text(&mut self, text: &str)
        requires
            text@.len() <= i32::MAX,
        ensures
            final(self).live() == pattern_cells(text@),
            cell_edit(&*old(self), &*final(self)),
            keeps_snapshot(&*old(self), &*final(self)),
            final(self).is_initial == old(self).is_initial,
    {
        self.cells = parse_pattern(text);
    }

    /// The pacing gate: whether a generation is due at `now`, in the host's
    /// milliseconds. When it is, `now` becomes the time of the last step;
    /// otherwise nothing changes.
    pub fn try_advance(&mut self, now: u128) -> (r: bool)
        ensures
            r == gate_open(old(self).last_frame(), now as int, old(self).speed as int),
            final(self).last_frame() == if r {
                now as int
            } else {
                old(self).last_frame()
            },
            final(self).live() == old(self).live(),
            keeps_snapshot(&*old(self), &*final(self)),
            final(self).is_initial == old(self).is_initial,
            same_settings(&*old(self), &*final(self)),
    {
        if is_due(self.last_frame_time, now, self.speed) {
            self.last_frame_time = now;
            true
        } else {
            false
        }
    }

    /// Moves the board on by one generation under the wrap-around rule, and
    /// clears the saved-state flag. Returns how many distinct cells were
    /// examined: each wrapped neighbour of a live cell, once.
    pub fn advance_generation(&mut self) -> (examined: usize)
        requires
            old(self).map_size >= 1,
        ensures
            final(self).live() == next_generation(old(self).live(), old(self).map_size as int),
            examined == candidates(old(self).live(), old(self).map_size as int).len(),
            candidates(old(self).live(), old(self).map_size as int).finite(),
            !final(self).is_initial,
            keeps_snapshot(&*old(self), &*final(self)),
            final(self).last_frame() == old(self).last_frame(),
            same_settings(&*old(self), &*final(self)),
    {
        let (next, examined) = step_generation(&self.cells, self.map_size);
        self.cells = next;
        self.is_initial = false;
        examined
    }

    /// One tick of the host loop at time `now`: a generation step when the
    /// pacing gate lets one through. Returns how many distinct cells the step
    /// examined, or `None` when no step was due.
    pub fn update(&mut self, now: u128) -> (stepped: Option<usize>)
        requires
            old(self).map_size >= 1,
        ensures
            stepped is Some == gate_open(old(self).last_frame(), now as int, old(self).speed as int),
            stepped is Some ==> final(self).live() == next_generation(old(self).live(), old(self).map_size as int)
                && !final(self).is_initial && final(self).last_frame() == now
                && stepped->0 == candidates(old(self).live(), old(self).map_size as int).len(),
            stepped is None ==> final(self).live() == old(self).live() && final(self).is_initial
                == old(self).is_initial && final(self).last_frame() == old(self).last_frame(),
            keeps_snapshot(&*old(self), &*final(self)),
            same_settings(&*old(self), &*final(self)),
    {
        if self.try_advance(now) {
            Some(self.advance_generation())
        } else {
            None
        }
    }

    /// The cell under the surface point `screen_pos` of viewport `rect`;
    /// see [`Layout::grid_at`].
    pub fn screen_to_grid(&self, screen_pos: ScreenPoint, rect: ScreenRect) -> (r: Option<Pos>)
        requires
            self.layout_spec().wf(),
            viewport_ok(rect),
        ensures
            r == self.layout_spec().grid_at(self.toroidal_display, rect, screen_pos),
    {
        self.layout().screen_to_grid(self.toroidal_display, screen_pos, &rect)
    }

    /// The rectangle of cell `grid_pos` in viewport `rect`.
    pub fn grid_to_screen(&self, grid_pos: Pos, rect: ScreenRect) -> (r: ScreenRect)
        requires
            self.layout_spec().wf(),
            viewport_ok(rect),
        ensures
            r == self.layout_spec().cell_rect(rect, grid_pos, 0, 0),
    {
        self.layout().grid_to_screen(grid_pos, &rect)
    }

    /// The rectangles at which to highlight cell `grid_pos`: every place it
    /// is drawn in viewport `rect`.
    pub fn draw_cell_highlight(&self, grid_pos: Pos, rect: ScreenRect) -> (r: Vec<ScreenRect>)
        requires
            self.layout_spec().wf(),
            viewport_ok(rect),
        ensures
            r@ == self.layout_spec().instance_seq(self.toroidal_display, rect, grid_pos),
            r@.to_set() == self.layout_spec().instances(self.toroidal_display, rect, grid_pos),
            r@.no_duplicates(),
            self.toroidal_display ==> forall|tx: int, ty: int| on_board(grid_pos, self.map_size as int)
                && #[trigger] self.layout_spec().tile_touches(rect, grid_pos, tx, ty)
                ==> r@.contains(self.layout_spec().tiled_rect(rect, grid_pos, tx, ty)),
    {
        self.layout().cell_instances(self.toroidal_display, grid_pos, &rect)
    }

    /// The rectangles to fill for the live cells in viewport `rect`.
    pub fn generate_cells(&self, rect: ScreenRect) -> (r: Vec<ScreenRect>)
        requires
            self.layout_spec().wf(),
            viewport_ok(rect),
        ensures
            exists|order: Seq<Pos>| #![trigger self.layout_spec().rendered(self.toroidal_display, rect, order)]
                order.no_duplicates() && order.to_set() == self.live()
                && r@ == self.layout_spec().rendered(self.toroidal_display, rect, order),
            r@.to_set() == self.layout_spec().drawn(self.toroidal_display, rect, self.live()),
            self.toroidal_display ==> forall|p: Pos, tx: int, ty: int| self.live().contains(p)
                && on_board(p, self.map_size as int) && #[trigger] self.layout_spec().tile_touches(rect, p, tx, ty)
                ==> r@.contains(self.layout_spec().tiled_rect(rect, p, tx, ty)),
    {
        let cells = self.cells.positions();
        let r = self.layout().render_cells(self.toroidal_display, &cells, &rect);
        assert(r@ == self.layout_spec().rendered(self.toroidal_display, rect, cells@));
        assert forall|p: Pos, tx: int, ty: int| self.toroidal_display && self.live().contains(p)
            && on_board(p, self.map_size as int) && #[trigger] self.layout_spec().tile_touches(rect, p, tx, ty)
            implies r@.contains(self.layout_spec().tiled_rect(rect, p, tx, ty)) by {
            assert(cells@.to_set().contains(p));
        }
        r
    }

    /// The grid lines over viewport `rect`.
    pub fn draw_lines(&self, rect: ScreenRect) -> (r: Vec<LineSegment>)
        requires
            self.layout_spec().wf(),
            viewport_ok(rect),
        ensures
            r@ == self.layout_spec().grid(rect),
    {
        self.layout().grid_lines(&rect)
    }

    /// Thickness of the grid lines at the current cell size.
    pub fn line_thickness(&self) -> (r: u32)
        ensures
            r == crate::view::eased(self.cell_size as int, CELL_MIN as int, CELL_MAX as int,
                crate::view::LINE_MIN as int, crate::view::LINE_MAX as int),
    {
        line_thickness(self.cell_size)
    }

    /// The least coordinates among the live cells, or `(-1, -1)` when there
    /// are none.
    fn find_min(&self) -> (r: (i32, i32))
        ensures
            is_low_corner(self.live(), r.0 as int, r.1 as int),
    {
        let v = self.cells.positions();
        if v.len() == 0 {
            proof {
                assert(self.live() =~= Set::<Pos>::empty());
            }
            return (-1, -1);
        }
        let mut min_x: i32 = v[0].0;
        let mut min_y: i32 = v[0].1;
        let mut i: usize = 1;
        while i < v.len()
            invariant
                1 <= i <= v@.len(),
                forall|j: int| 0 <= j < i ==> min_x <= (#[trigger] v@[j]).0 && min_y <= v@[j].1,
                exists|j: int| 0 <= j < i && (#[trigger] v@[j]).0 == min_x,
                exists|j: int| 0 <= j < i && (#[trigger] v@[j]).1 == min_y,
            decreases v.len() - i,
        {
            if v[i].0 < min_x {
                min_x = v[i].0;
            }
            if v[i].1 < min_y {
                min_y = v[i].1;
            }
            i = i + 1;
        }
        proof {
            assert(v@.contains(v@[0]));
            assert(!self.live().is_empty()) by {
                assert(self.live().contains(v@[0]));
            }
            assert forall|p: Pos| #[trigger] self.live().contains(p) implies min_x <= p.0 && min_y <= p.1 by {
                assert(v@.to_set().contains(p));
                let j = choose|j: int| 0 <= j < v@.len() && v@[j] == p;
            }
            let jx = choose|j: int| 0 <= j < i && (#[trigger] v@[j]).0 == min_x;
            let jy = choose|j: int| 0 <= j < i && (#[trigger] v@[j]).1 == min_y;
            assert(v@.to_set().contains(v@[jx]));
            assert(v@.to_set().contains(v@[jy]));
            assert(self.live().contains(v@[jx]) && v@[jx].0 == min_x);
            assert(self.live().contains(v@[jy]) && v@[jy].1 == min_y);
        }
        (min_x, min_y)
    }

    /// The greatest coordinates among the live cells, and never below `-1`.
    fn find_max(&self) -> (r: (i32, i32))
        ensures
            is_high_corner(self.live(), r.0 as int, r.1 as int),
    {
        let v = self.cells.positions();
        let mut max_x: i32 = -1;
        let mut max_y: i32 = -1;
        let mut i: usize = 0;
        while i < v.len()
            invariant
                0 <= i <= v@.len(),
                -1 <= max_x && -1 <= max_y,
                forall|j: int| 0 <= j < i ==> (#[trigger] v@[j]).0 <= max_x && v@[j].1 <= max_y,
                max_x == -1 || exists|j: int| 0 <= j < i && (#[trigger] v@[j]).0 == max_x,
                max_y == -1 || exists|j: int| 0 <= j < i && (#[trigger] v@[j]).1 == max_y,
            decreases v.len() - i,
        {
            if v[i].0 > max_x {
                max_x = v[i].0;
            }
            if v[i].1 > max_y {
                max_y = v[i].1;
            }
            i = i + 1;
        }
        proof {
            assert forall|p: Pos| #[trigger] self.live().contains(p) implies p.0 <= max_x && p.1 <= max_y by {
                assert(v@.to_set().contains(p));
                let j = choose|j: int| 0 <= j < v@.len() && v@[j] == p;
            }
            if max_x != -1 {
                let jx = choose|j: int| 0 <= j < i && (#[trigger] v@[j]).0 == max_x;
                assert(v@.to_set().contains(v@[jx]));
                assert(self.live().contains(v@[jx]) && v@[jx].0 == max_x);
            }
            if max_y != -1 {
                let jy = choose|j: int| 0 <= j < i && (#[trigger] v@[j]).1 == max_y;
                assert(v@.to_set().contains(v@[jy]));
                assert(self.live().contains(v@[jy]) && v@[jy].1 == max_y);
            }
        }
        (max_x, max_y)
    }

    /// Fits the board to viewport `rect` and moves the live pattern to the
    /// middle of the board. The cell size becomes the whole pixels per cell
    /// along the axis whose far edge lies further out, within
    /// `CELL_MIN..=CELL_MAX`; each cell is then moved by half the board less
    /// half the pattern's span, on each axis.
    pub fn center_cells(&mut self, rect: ScreenRect)
        requires
            old(self).map_size >= 1,
            viewport_ok(rect),
        ensures
            final(self).cell_size == fitted_cell_size(
                if rect.max.x > rect.max.y {
                    rect.max.x - rect.min.x
                } else {
                    rect.max.y - rect.min.y
                },
                old(self).map_size as int,
            ),
            exists|lx: int, ly: int, hx: int, hy: int|
                #![trigger is_low_corner(old(self).live(), lx, ly), is_high_corner(old(self).live(), hx, hy)]
                is_low_corner(old(self).live(), lx, ly) && is_high_corner(old(self).live(), hx, hy)
                    && final(self).live() == old(self).live().map(
                    |p: Pos| centred(p, old(self).map_size as int, lx, ly, hx, hy),
                ),
            keeps_snapshot(&*old(self), &*final(self)),
            final(self).is_initial == old(self).is_initial,
            final(self).map_size == old(self).map_size,
            final(self).x_axis == old(self).x_axis,
            final(self).y_axis == old(self).y_axis,
            final(self).toroidal_display == old(self).toroidal_display,
    {
        let (min_x, min_y) = self.find_min();
        let (max_x, max_y) = self.find_max();
        let extent: i64 = if rect.max.x > rect.max.y {
            rect.max.x - rect.min.x
        } else {
            rect.max.y - rect.min.y
        };
        let px: i64 = extent.checked_div_euclid(UNITS_PER_PIXEL).unwrap().checked_div_euclid(
            self.map_size as i64,
        ).unwrap() * UNITS_PER_PIXEL;
        self.cell_size = if px < CELL_MIN as i64 {
            CELL_MIN
        } else if px > CELL_MAX as i64 {
            CELL_MAX
        } else {
            px as u32
        };
        let m = self.map_size as i64;
        let half: i64 = m.checked_div_euclid(2).unwrap();
        let span_x: i64 = (max_x as i64 - min_x as i64).checked_div_euclid(2).unwrap();
        let span_y: i64 = (max_y as i64 - min_y as i64).checked_div_euclid(2).unwrap();
        let v = self.cells.positions();
        let ghost f = |p: Pos| centred(p, m as int, min_x as int, min_y as int, max_x as int, max_y as int);
        let mut moved = LiveSet::new();
        let mut i: usize = 0;
        while i < v.len()
            invariant
                0 <= i <= v@.len(),
                half == m / 2,
                span_x == (max_x - min_x) / 2,
                span_y == (max_y - min_y) / 2,
                0 <= half <= i32::MAX,
                f == (|p: Pos| centred(p, m as int, min_x as int, min_y as int, max_x as int, max_y as int)),
                moved@ == Set::new(|q: Pos| exists|j: int| 0 <= j < i && q == f(#[trigger] v@[j])),
            decreases v.len() - i,
        {
            let p = v[i];
            let q = Pos((half - span_x + p.0 as i64) as i32, (half - span_y + p.1 as i64) as i32);
            moved.insert(q);
            proof {
                assert(q == f(v@[i as int]));
                assert(moved@ =~= Set::new(|q: Pos| exists|j: int| 0 <= j < i + 1 && q == f(#[trigger] v@[j])));
            }
            i = i + 1;
        }
        proof {
            let live = old(self).cells@;
            assert(v@.to_set() == live);
            assert forall|q: Pos| moved@.contains(q) <==> live.map(f).contains(q) by {
                if moved@.contains(q) {
                    let j = choose|j: int| 0 <= j < i && q == f(#[trigger] v@[j]);
                    assert(v@.to_set().contains(v@[j]));
                }
                if live.map(f).contains(q) {
                    let p = choose|p: Pos| live.contains(p) && f(p) == q;
                    assert(v@.to_set().contains(p));
                    let j = choose|j: int| 0 <= j < v@.len() && v@[j] == p;
                    assert(q == f(v@[j]));
                }
            }
            assert(moved@ =~= live.map(f));
        }
        self.cells = moved;
    }
}

/// Saving the board, then any run of operations that keep the snapshot (every
/// cell edit, random fill, pattern load, generation step, pacing tick,
/// recentring or setting change), then restoring, gives back exactly the
/// cells that were saved, with the snapshot still holding them.
pub proof fn lemma_snapshot_restores(before: &ConwayMap, edits: Seq<ConwayMap>, restored: &ConwayMap)
    requires
        edits.len() >= 1,
        cached_from(before, &edits[0]),
        forall|i: int| 0 <= i < edits.len() - 1 ==> #[trigger] keeps_snapshot(&edits[i], &edits[i + 1]),
        restored_from(&edits.last(), restored),
    ensures
        restored.live() == before.live(),
        restored.snapshot() == before.live(),
        restored.is_initial,
{
    let n = edits.len() as int;
    lemma_snapshot_kept(before, edits, n - 1);
}

proof fn lemma_snapshot_kept(before: &ConwayMap, edits: Seq<ConwayMap>, i: int)
    requires
        0 <= i < edits.len(),
        edits[0].snapshot() == before.live(),
        forall|j: int| 0 <= j < edits.len() - 1 ==> #[trigger] keeps_snapshot(&edits[j], &edits[j + 1]),
    ensures
        edits[i].snapshot() == before.live(),
    decreases i,
{
    if i > 0 {
        lemma_snapshot_kept(before, edits, i - 1);
        let k = i - 1;
        assert(keeps_snapshot(&edits[k], &edits[k + 1]));
    }
}

} // verus!
