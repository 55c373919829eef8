//! Simulation core of a toroidal Game of Life: a sparse live-cell store, the
//! generation rule, frame pacing, and the mapping between grid cells and an
//! integer drawing surface.
use vstd::prelude::*;

pub mod pos;
pub mod cells;
pub mod rules;
pub mod pacing;
pub mod random;
pub mod pattern;
pub mod view;
pub mod map;

pub use cells::LiveSet;
pub use map::{ConwayMap, DEFAULT_FPS, DEFAULT_MAP_SIZE, DEFAULT_SCARCITY};
pub use pos::{ConwayCell, Pos};
pub use view::{
    Layout, LineSegment, ScreenPoint, ScreenRect, CELL_MAX, CELL_MIN, DEFAULT_CELL_SIZE,
    UNITS_PER_PIXEL,
};

verus! {

/// Counters describing a run.
pub struct RunStatistics {
    pub births: u32,
    pub deaths: u32,
    pub generations: u32,
    pub population: u32,
}

impl RunStatistics {
    /// All counters at zero.
    pub fn new() -> (s: RunStatistics)
        ensures
            s.births == 0,
            s.deaths == 0,
            s.generations == 0,
            s.population == 0,
    {
        RunStatistics { births: 0, deaths: 0, generations: 0, population: 0 }
    }
}

/// The kinds of automaton a run can simulate.
#[derive(Clone, Copy, Debug, PartialEq, Eq, Hash, Default, Structural)]
pub enum RunModes {
    #[default]
    TwoDimensional,
    Elementary,
}

} // verus!
