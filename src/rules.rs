//! The generation rule on a bounded torus: birth on three live neighbours,
//! survival on two or three.
use vstd::prelude::*;
use crate::cells::LiveSet;
use crate::pos::Pos;

verus! {

/// The `k`-th of the eight Moore offsets, in the order the scan visits them.
pub open spec fn offset(k: int) -> (int, int) {
    if k == 0 {
        (-1, 1)
    } else if k == 1 {
        (0, 1)
    } else if k == 2 {
        (1, 1)
    } else if k == 3 {
        (-1, 0)
    } else if k == 4 {
        (1, 0)
    } else if k == 5 {
        (-1, -1)
    } else if k == 6 {
        (0, -1)
    } else {
        (1, -1)
    }
}

/// One-step periodic boundary: a coordinate just below the board goes to the
/// last row or column, one at or past the end goes to the first, and one
/// inside stays. It is meant for single neighbour steps only.
pub open spec fn wrap_step(c: int, n: int) -> int {
    if c < 0 {
        n - 1
    } else if c >= n {
        0
    } else {
        c
    }
}

/// The `k`-th neighbour of `p` on a board of side `n`, wrapped one step.
pub open spec fn neighbor(p: Pos, k: int, n: int) -> Pos {
    Pos(wrap_step(p.0 + offset(k).0, n) as i32, wrap_step(p.1 + offset(k).1, n) as i32)
}

/// How many of the first `k` neighbours of `p` are in `cells`.
pub open spec fn count_live(cells: Set<Pos>, p: Pos, n: int, k: nat) -> nat
    decreases k,
{
    if k == 0 {
        0
    } else {
        count_live(cells, p, n, (k - 1) as nat) + if cells.contains(neighbor(p, k - 1, n)) {
            1nat
        } else {
            0nat
        }
    }
}

/// The number of live cells among the eight neighbours of `p`.
pub open spec fn live_neighbors(cells: Set<Pos>, p: Pos, n: int) -> nat {
    count_live(cells, p, n, 8)
}

/// Whether `p` is alive after one step: alive now with two live neighbours,
/// or with three live neighbours whatever its state.
pub open spec fn lives_next(cells: Set<Pos>, p: Pos, n: int) -> bool {
    let c = live_neighbors(cells, p, n);
    (c == 2 && cells.contains(p)) || c == 3
}

/// The cells that the step examines: every wrapped neighbour of a live cell,
/// each counted once.
pub open spec fn candidates(cells: Set<Pos>, n: int) -> Set<Pos> {
    Set::new(|p: Pos| exists|q: Pos, k: int| #![trigger neighbor(q, k, n), cells.contains(q)]
        cells.contains(q) && 0 <= k < 8 && neighbor(q, k, n) == p)
}

/// The live set after one generation on a board of side `n`.
pub open spec fn next_generation(cells: Set<Pos>, n: int) -> Set<Pos> {
    candidates(cells, n).filter(|p: Pos| lives_next(cells, p, n))
}

/// Neighbour `k` of `p`, wrapped one step per axis.
pub fn neighbor_at(p: Pos, k: usize, n: i32) -> (r: Pos)
    requires
        k < 8,
        n >= 1,
    ensures
        r == neighbor(p, k as int, n as int),
{
    let (dx, dy): (i64, i64) = if k == 0 {
        (-1, 1)
    } else if k == 1 {
        (0, 1)
    } else if k == 2 {
        (1, 1)
    } else if k == 3 {
        (-1, 0)
    } else if k == 4 {
        (1, 0)
    } else if k == 5 {
        (-1, -1)
    } else if k == 6 {
        (0, -1)
    } else {
        (1, -1)
    };
    let x = apply_periodic_boundary(p.0 as i64 + dx, n);
    let y = apply_periodic_boundary(p.1 as i64 + dy, n);
    Pos(x, y)
}

/// One-step periodic boundary on a single coordinate.
pub fn apply_periodic_boundary(coord: i64, axis_size: i32) -> (r: i32)
    requires
        axis_size >= 1,
    ensures
        r == wrap_step(coord as int, axis_size as int),
{
    if coord < 0 {
        axis_size - 1
    } else if coord >= axis_size as i64 {
        0
    } else {
        coord as i32
    }
}

/// The number of live neighbours of `p`, each wrapped one step.
pub fn count_neighbors(cells: &LiveSet, p: Pos, n: i32) -> (r: usize)
    requires
        n >= 1,
    ensures
        r == live_neighbors(cells@, p, n as int),
{
    let mut c: usize = 0;
    let mut k: usize = 0;
    while k < 8
        invariant
            k <= 8,
            n >= 1,
            c == count_live(cells@, p, n as int, k as nat),
            c <= k,
        decreases 8 - k,
    {
        let q = neighbor_at(p, k, n);
        if cells.contains(q) {
            c = c + 1;
        }
        k = k + 1;
    }
    c
}

/// The cells reached from the first `i` cells of `s`, and from the first `k`
/// neighbours of cell `i`.
pub open spec fn reached(s: Seq<Pos>, n: int, i: int, k: int) -> Set<Pos> {
    Set::new(|p: Pos| exists|j: int, m: int| #![trigger neighbor(s[j], m, n)]
        ((0 <= j < i && 0 <= m < 8) || (j == i && 0 <= m < k)) && neighbor(s[j], m, n) == p)
}

/// Computes the next generation of `cells` on a board of side `n`, and how
/// many distinct cells were examined to do it.
pub fn step_generation(cells: &LiveSet, n: i32) -> (r: (LiveSet, usize))
    requires
        n >= 1,
    ensures
        r.0@ == next_generation(cells@, n as int),
        r.1 == candidates(cells@, n as int).len(),
        candidates(cells@, n as int).finite(),
{
    let list = cells.positions();
    let mut next = LiveSet::new();
    let mut checked = LiveSet::new();
    let mut i: usize = 0;
    while i < list.len()
        invariant
            0 <= i <= list.len(),
            n >= 1,
            checked@ == reached(list@, n as int, i as int, 0),
            next@ == checked@.filter(|p: Pos| lives_next(cells@, p, n as int)),
        decreases list.len() - i,
    {
        let mut k: usize = 0;
        while k < 8
            invariant
                0 <= i < list.len(),
                k <= 8,
                n >= 1,
                checked@ == reached(list@, n as int, i as int, k as int),
                next@ == checked@.filter(|p: Pos| lives_next(cells@, p, n as int)),
            decreases 8 - k,
        {
            let xy = neighbor_at(list[i], k, n);
            if !checked.contains(xy) {
                checked.insert(xy);
                let c = count_neighbors(cells, xy, n);
                if c == 2 && cells.contains(xy) || c == 3 {
                    next.insert(xy);
                }
            }
            proof {
                assert(checked@ =~= reached(list@, n as int, i as int, k + 1)) by {
                    assert(reached(list@, n as int, i as int, k + 1) =~= reached(list@, n as int, i as int, k as int).insert(neighbor(list@[i as int], k as int, n as int)));
                }
                assert(next@ =~= checked@.filter(|p: Pos| lives_next(cells@, p, n as int)));
            }
            k = k + 1;
        }
        proof {
            assert(reached(list@, n as int, i as int, 8) =~= reached(list@, n as int, i + 1, 0));
        }
        i = i + 1;
    }
    proof {
        assert(reached(list@, n as int, list@.len() as int, 0) =~= candidates(cells@, n as int)) by {
            assert forall|p: Pos| candidates(cells@, n as int).contains(p) implies reached(list@, n as int, list@.len() as int, 0).contains(p) by {
                let (q, k) = choose|q: Pos, k: int| cells@.contains(q) && 0 <= k < 8 && neighbor(q, k, n as int) == p;
                assert(list@.to_set().contains(q));
                let j = choose|j: int| 0 <= j < list@.len() && list@[j] == q;
                assert(neighbor(list@[j], k, n as int) == p);
            }
            assert forall|p: Pos| reached(list@, n as int, list@.len() as int, 0).contains(p) implies candidates(cells@, n as int).contains(p) by {
                let (j, m) = choose|j: int, m: int| ((0 <= j < list@.len() && 0 <= m < 8) || (j == list@.len() && 0 <= m < 0)) && neighbor(list@[j], m, n as int) == p;
                assert(list@.to_set().contains(list@[j]));
                assert(cells@.contains(list@[j]));
            }
        }
    }
    let examined = checked.len();
    (next, examined)
}

/// On a board of side `n`, the cell at `(0, 0)` has the opposite corner
/// `(n - 1, n - 1)` among its neighbours: when that corner is alive, it is
/// counted.
pub proof fn lemma_corner_wraps(cells: Set<Pos>, n: i32)
    requires
        n >= 1,
        cells.contains(Pos((n - 1) as i32, (n - 1) as i32)),
    ensures
        neighbor(Pos(0, 0), 5, n as int) == Pos((n - 1) as i32, (n - 1) as i32),
        live_neighbors(cells, Pos(0, 0), n as int) >= 1,
{
    reveal_with_fuel(count_live, 8);
}

/// Whether `p` lies on the board of side `n`.
pub open spec fn on_board(p: Pos, n: int) -> bool {
    0 <= p.0 < n && 0 <= p.1 < n
}

proof fn lemma_some_neighbor_live(cells: Set<Pos>, p: Pos, n: int, k: nat)
    requires
        k <= 8,
        count_live(cells, p, n, k) > 0,
    ensures
        exists|j: int| 0 <= j < k && #[trigger] cells.contains(neighbor(p, j, n)),
    decreases k,
{
    if k > 0 && !cells.contains(neighbor(p, k - 1, n)) {
        lemma_some_neighbor_live(cells, p, n, (k - 1) as nat);
    }
}

proof fn lemma_step_back(x: int, d: int, n: int)
    requires
        0 <= x < n,
        -1 <= d <= 1,
    ensures
        wrap_step(wrap_step(x + d, n) - d, n) == x,
{
}

/// The step is the full birth-on-three, survival-on-two-or-three rule on the
/// board: scanning only the neighbours of live cells misses no cell of the
/// board that should be alive, and every cell it makes alive lies on the
/// board.
pub proof fn lemma_rule_is_b3s23(cells: Set<Pos>, n: i32)
    requires
        n >= 1,
    ensures
        next_generation(cells, n as int) == Set::new(|p: Pos| on_board(p, n as int) && lives_next(cells, p, n as int)),
{
    let m = n as int;
    assert forall|p: Pos| next_generation(cells, m).contains(p) <==> (on_board(p, m) && lives_next(cells, p, m)) by {
        if on_board(p, m) && lives_next(cells, p, m) {
            lemma_some_neighbor_live(cells, p, m, 8);
            let j = choose|j: int| 0 <= j < 8 && #[trigger] cells.contains(neighbor(p, j, m));
            let q = neighbor(p, j, m);
            lemma_step_back(p.0 as int, offset(j).0, m);
            lemma_step_back(p.1 as int, offset(j).1, m);
            assert(neighbor(q, 7 - j, m) == p);
            assert(candidates(cells, m).contains(p));
        }
    }
    assert(next_generation(cells, m) =~= Set::new(|p: Pos| on_board(p, m) && lives_next(cells, p, m)));
}

} // verus!
