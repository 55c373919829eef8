//! Random boards.
use vstd::prelude::*;
use crate::cells::LiveSet;
use crate::pos::Pos;

verus! {

/// Relies on rand's `Rng::gen_range` over `thread_rng()`: a draw from the
/// inclusive range `0..=hi`. That range is never empty, so no argument makes
/// the call panic; it panics only if the operating system's entropy source
/// fails while the thread's generator is seeded.
#[verifier::external_body]
fn draw_up_to(hi: u32) -> (r: u32)
    ensures
        r <= hi,
{
    rand::Rng::gen_range(&mut rand::thread_rng(), 0..=hi)
}

/// The cells that a table of draws makes alive: `(x, y)` where row `y`,
/// column `x` of the table is exactly 1.
pub open spec fn drawn_cells(draws: Seq<Seq<u32>>) -> Set<Pos> {
    Set::new(|p: Pos| 0 <= p.1 < draws.len() && 0 <= p.0 < draws[p.1 as int].len()
        && draws[p.1 as int][p.0 as int] == 1)
}

/// Whether a table of draws is square with side `w`, each draw at most `hi`.
pub open spec fn draws_within(draws: Seq<Seq<u32>>, w: int, hi: int) -> bool {
    &&& draws.len() == w
    &&& forall|y: int| 0 <= y < w ==> (#[trigger] draws[y]).len() == w
    &&& forall|y: int, x: int| 0 <= y < w && 0 <= x < w ==> #[trigger] draws[y][x] <= hi
}

/// The side of the square in which random cells are placed: the board less a
/// margin of three cells, or nothing on a board smaller than four.
pub open spec fn spawn_side(map_size: int) -> int {
    if map_size >= 4 {
        map_size - 3
    } else {
        0
    }
}

/// The live set that a table of draws gives: a cell for each draw of 1.
pub fn cells_from_draws(draws: &Vec<Vec<u32>>) -> (r: LiveSet)
    requires
        draws@.len() <= i32::MAX,
        forall|y: int| 0 <= y < draws@.len() ==> (#[trigger] draws@[y]).len() <= i32::MAX,
    ensures
        r@ == drawn_cells(draws@.map_values(|row: Vec<u32>| row@)),
{
    let ghost d = draws@.map_values(|row: Vec<u32>| row@);
    let mut r = LiveSet::new();
    let mut y: usize = 0;
    while y < draws.len()
        invariant
            y <= draws@.len(),
            draws@.len() <= i32::MAX,
            forall|j: int| 0 <= j < draws@.len() ==> (#[trigger] draws@[j]).len() <= i32::MAX,
            d == draws@.map_values(|row: Vec<u32>| row@),
            r@ == drawn_cells(d).filter(|p: Pos| p.1 < y),
        decreases draws.len() - y,
    {
        let row = &draws[y];
        let mut x: usize = 0;
        while x < row.len()
            invariant
                y < draws@.len(),
                draws@.len() <= i32::MAX,
                x <= row@.len(),
                row@.len() <= i32::MAX,
                *row == draws@[y as int],
                d == draws@.map_values(|row: Vec<u32>| row@),
                r@ == drawn_cells(d).filter(|p: Pos| p.1 < y || (p.1 == y && p.0 < x)),
            decreases row.len() - x,
        {
            if row[x] == 1 {
                r.insert(Pos(x as i32, y as i32));
            }
            proof {
                assert(d[y as int] == row@);
                assert(x as i32 == x && y as i32 == y);
                assert(r@ =~= drawn_cells(d).filter(|p: Pos| p.1 < y || (p.1 == y && p.0 < x + 1)));
            }
            x = x + 1;
        }
        proof {
            assert(r@ =~= drawn_cells(d).filter(|p: Pos| p.1 < y + 1));
        }
        y = y + 1;
    }
    assert(r@ =~= drawn_cells(d));
    r
}

/// A random live set for a board of side `map_size`: each cell of the spawn
/// square is alive when a draw from `0..=scarcity` comes out as 1.
pub fn random_cells(map_size: i32, scarcity: u32) -> (r: LiveSet)
    ensures
        exists|draws: Seq<Seq<u32>>| #![trigger drawn_cells(draws)]
            draws_within(draws, spawn_side(map_size as int), scarcity as int)
            && r@ == drawn_cells(draws),
{
    let w: usize = if map_size >= 4 {
        (map_size - 3) as usize
    } else {
        0
    };
    let mut draws: Vec<Vec<u32>> = Vec::new();
    let mut y: usize = 0;
    while y < w
        invariant
            w == spawn_side(map_size as int),
            y <= w,
            draws@.len() == y,
            forall|j: int| 0 <= j < y ==> (#[trigger] draws@[j])@.len() == w,
            forall|j: int, x: int| 0 <= j < y && 0 <= x < w ==> #[trigger] draws@[j]@[x] <= scarcity,
        decreases w - y,
    {
        let mut row: Vec<u32> = Vec::new();
        let mut x: usize = 0;
        while x < w
            invariant
                x <= w,
                row@.len() == x,
                forall|i: int| 0 <= i < x ==> #[trigger] row@[i] <= scarcity,
            decreases w - x,
        {
            row.push(draw_up_to(scarcity));
            x = x + 1;
        }
        draws.push(row);
        y = y + 1;
    }
    let r = cells_from_draws(&draws);
    proof {
        let d = draws@.map_values(|row: Vec<u32>| row@);
        assert(draws_within(d, spawn_side(map_size as int), scarcity as int));
    }
    r
}

} // verus!
