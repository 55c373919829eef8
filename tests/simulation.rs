use cellular_automata::pattern::parse_pattern;
use cellular_automata::random::{cells_from_draws, random_cells};
use cellular_automata::rules::{apply_periodic_boundary, count_neighbors, neighbor_at, step_generation};
use cellular_automata::{ConwayMap, LiveSet, Pos, RunModes, RunStatistics};

fn board(size: i32, cells: &[(i32, i32)]) -> ConwayMap {
    let mut m = ConwayMap::new();
    m.map_size = size;
    for &(x, y) in cells {
        m.set_cell_alive(Pos(x, y));
    }
    m
}

fn sorted(m: &ConwayMap) -> Vec<(i32, i32)> {
    let mut v: Vec<(i32, i32)> = m.live_cells().iter().map(|p| (p.0, p.1)).collect();
    v.sort();
    v
}

#[test]
fn blinker_has_period_two() {
    let start = [(4, 5), (5, 5), (6, 5)];
    let mut m = board(20, &start);
    m.advance_generation();
    assert_eq!(sorted(&m), vec![(5, 4), (5, 5), (5, 6)]);
    m.advance_generation();
    let mut want = start.to_vec();
    want.sort();
    assert_eq!(sorted(&m), want);
}

#[test]
fn block_is_still() {
    let start = [(3, 3), (3, 4), (4, 3), (4, 4)];
    let mut m = board(10, &start);
    m.advance_generation();
    let mut want = start.to_vec();
    want.sort();
    assert_eq!(sorted(&m), want);
}

#[test]
fn corner_counts_opposite_corner() {
    for n in [1, 2, 5, 75] {
        let m = board(n, &[(n - 1, n - 1)]);
        assert!(m.neighbors(&Pos(0, 0)) >= 1, "board {}", n);
    }
    let m = board(10, &[(9, 9)]);
    assert_eq!(m.neighbors(&Pos(0, 0)), 1);
}

#[test]
fn blinker_wraps_across_the_edge() {
    let mut m = board(10, &[(9, 5), (0, 5), (1, 5)]);
    m.advance_generation();
    assert_eq!(sorted(&m), vec![(0, 4), (0, 5), (0, 6)]);
}

#[test]
fn lone_cell_dies() {
    let mut m = board(10, &[(4, 4)]);
    m.advance_generation();
    assert!(sorted(&m).is_empty());
    assert!(!m.is_initial);
}

#[test]
fn density_zero_gives_empty_board() {
    for size in [1, 3, 4, 5, 10, 75] {
        let mut m = ConwayMap::new();
        m.map_size = size;
        m.rand_scarcity = 0;
        m.set_cell_alive(Pos(1, 1));
        m.gen_random();
        assert!(m.live_cells().is_empty(), "size {}", size);
    }
}

#[test]
fn random_cells_stay_in_spawn_square() {
    let s = random_cells(75, 1);
    let cells = s.positions();
    assert!(!cells.is_empty());
    assert!(cells.len() < 72 * 72);
    for p in cells {
        assert!(p.0 >= 0 && p.0 <= 71 && p.1 >= 0 && p.1 <= 71);
    }
}

#[test]
fn draws_of_one_make_cells() {
    let draws = vec![vec![1, 0, 2], vec![0, 1, 1]];
    let s = cells_from_draws(&draws);
    let mut v: Vec<(i32, i32)> = s.positions().iter().map(|p| (p.0, p.1)).collect();
    v.sort();
    assert_eq!(v, vec![(0, 0), (1, 1), (2, 1)]);
}

#[test]
fn pacing_gate_holds_back_early_ticks() {
    let mut m = ConwayMap::new();
    m.fps = 10;
    m.update_speed();
    assert_eq!(m.speed, 100);
    assert!(m.try_advance(1000));
    assert!(!m.try_advance(1050));
    let mut m = ConwayMap::new();
    assert!(m.try_advance(1000));
    assert!(m.try_advance(1150));
    assert!(!m.try_advance(1000));
}

#[test]
fn update_steps_only_when_due() {
    let mut m = board(20, &[(4, 5), (5, 5), (6, 5)]);
    assert_eq!(m.update(100), Some(15));
    assert_eq!(sorted(&m), vec![(5, 4), (5, 5), (5, 6)]);
    assert_eq!(m.update(150), None);
    assert_eq!(sorted(&m), vec![(5, 4), (5, 5), (5, 6)]);
}

#[test]
fn frame_interval_rounds_down_twice() {
    assert_eq!(ConwayMap::fps_to_speed(1), 1000);
    assert_eq!(ConwayMap::fps_to_speed(3), 333);
    assert_eq!(ConwayMap::fps_to_speed(10), 100);
    assert_eq!(ConwayMap::fps_to_speed(60), 16);
    assert_eq!(ConwayMap::fps_to_speed(2000), 0);
}

#[test]
fn snapshot_restores_after_edits() {
    let mut m = board(10, &[(1, 1), (2, 2)]);
    let before = sorted(&m);
    m.cache_initial_state();
    m.set_cell_alive(Pos(5, 5));
    m.set_cell_dead(Pos(1, 1));
    m.toggle_cell(Pos(2, 2));
    m.toggle_cell(Pos(7, 7));
    m.advance_generation();
    assert!(!m.is_initial);
    m.clear();
    m.restore_initial_state();
    assert!(m.is_initial);
    assert_eq!(sorted(&m), before);
}

#[test]
fn snapshot_survives_every_operation() {
    let mut m = board(20, &[(1, 1), (2, 2), (3, 1)]);
    let before = sorted(&m);
    m.cache_initial_state();
    m.gen_random();
    m.update(5000);
    m.update(5001);
    m.generate_from_text("##\n##");
    m.center_cells(cellular_automata::ScreenRect {
        min: cellular_automata::ScreenPoint { x: 0, y: 0 },
        max: cellular_automata::ScreenPoint { x: 40000, y: 40000 },
    });
    m.fps = 30;
    m.update_speed();
    m.set_cell_alive(Pos(9, 9));
    m.restore_initial_state();
    assert_eq!(sorted(&m), before);
    m.toggle_cell(Pos(1, 1));
    m.advance_generation();
    m.restore_initial_state();
    assert_eq!(sorted(&m), before);
    assert!(m.is_initial);
}

#[test]
fn advance_examines_each_candidate_once() {
    let mut m = board(10, &[(4, 5), (5, 5), (6, 5)]);
    assert_eq!(m.advance_generation(), 15);
    let mut m = board(10, &[(4, 4)]);
    assert_eq!(m.advance_generation(), 8);
    let mut m = board(10, &[]);
    assert_eq!(m.advance_generation(), 0);
}

#[test]
fn step_generation_reports_candidates() {
    let mut s = LiveSet::new();
    s.insert(Pos(0, 0));
    s.insert(Pos(1, 0));
    let (next, examined) = step_generation(&s, 10);
    assert_eq!(examined, 12);
    assert_eq!(next.len(), 0);
}

#[test]
fn periodic_boundary_wraps_one_step_only() {
    assert_eq!(apply_periodic_boundary(-1, 10), 9);
    assert_eq!(apply_periodic_boundary(-7, 10), 9);
    assert_eq!(apply_periodic_boundary(10, 10), 0);
    assert_eq!(apply_periodic_boundary(25, 10), 0);
    assert_eq!(apply_periodic_boundary(4, 10), 4);
}

#[test]
fn neighbor_offsets_follow_scan_order() {
    assert_eq!(neighbor_at(Pos(5, 5), 0, 10), Pos(4, 6));
    assert_eq!(neighbor_at(Pos(5, 5), 4, 10), Pos(6, 5));
    assert_eq!(neighbor_at(Pos(0, 0), 5, 10), Pos(9, 9));
    assert_eq!(neighbor_at(Pos(9, 0), 7, 10), Pos(0, 9));
}

#[test]
fn count_neighbors_of_a_full_ring() {
    let mut s = LiveSet::new();
    for x in 0..3 {
        for y in 0..3 {
            if (x, y) != (1, 1) {
                s.insert(Pos(x, y));
            }
        }
    }
    assert_eq!(count_neighbors(&s, Pos(1, 1), 10), 8);
    assert_eq!(count_neighbors(&s, Pos(5, 5), 10), 0);
}

#[test]
fn cell_edits() {
    let mut m = ConwayMap::new();
    assert!(!m.is_cell_alive(Pos(3, 4)));
    m.toggle_cell(Pos(3, 4));
    assert!(m.is_cell_alive(Pos(3, 4)));
    m.toggle_cell(Pos(3, 4));
    assert!(!m.is_cell_alive(Pos(3, 4)));
    m.set_cell_alive(Pos(-2, 100));
    assert!(m.is_cell_alive(Pos(-2, 100)));
    m.set_cell_dead(Pos(-2, 100));
    assert!(!m.is_cell_alive(Pos(-2, 100)));
    m.set_cell_alive(Pos(i32::MIN, i32::MAX));
    assert!(m.is_cell_alive(Pos(i32::MIN, i32::MAX)));
    assert!(!m.is_cell_alive(Pos(i32::MAX, i32::MIN)));
}

#[test]
fn pattern_text_marks_hashes() {
    let s = parse_pattern("#.#\n.#\n\n  #");
    let mut v: Vec<(i32, i32)> = s.positions().iter().map(|p| (p.0, p.1)).collect();
    v.sort();
    assert_eq!(v, vec![(0, 0), (1, 1), (2, 0), (2, 3)]);
    let mut m = ConwayMap::new();
    m.set_cell_alive(Pos(40, 40));
    m.generate_from_text("x#\r\n#");
    assert_eq!(sorted(&m), vec![(0, 1), (1, 0)]);
    m.generate_from_text("");
    assert!(sorted(&m).is_empty());
}

#[test]
fn fresh_board_defaults() {
    let m = ConwayMap::new();
    assert_eq!(m.fps, 10);
    assert_eq!(m.speed, 100);
    assert_eq!(m.map_size, 75);
    assert_eq!(m.rand_scarcity, 3);
    assert!(m.is_initial);
    assert!(m.light_mode);
    assert!(!m.lines);
    assert!(!m.toroidal_display);
    assert!(m.live_cells().is_empty());
    let d = ConwayMap::default();
    assert_eq!(d.map_size, 75);
    let s = RunStatistics::new();
    assert_eq!((s.births, s.deaths, s.generations, s.population), (0, 0, 0, 0));
    assert_eq!(RunModes::default(), RunModes::TwoDimensional);
}
