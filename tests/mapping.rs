use cellular_automata::view::{center, exponential_easing, line_thickness};
use cellular_automata::{ConwayMap, Pos, ScreenPoint, ScreenRect};

fn rect(x0: i64, y0: i64, x1: i64, y1: i64) -> ScreenRect {
    ScreenRect { min: ScreenPoint { x: x0, y: y0 }, max: ScreenPoint { x: x1, y: y1 } }
}

fn small_board(size: i32, cell: u32) -> ConwayMap {
    let mut m = ConwayMap::new();
    m.map_size = size;
    m.cell_size = cell;
    m
}

#[test]
fn grid_to_screen_centres_the_board() {
    let m = small_board(10, 100);
    let r = m.grid_to_screen(Pos(0, 0), rect(0, 0, 2000, 1000));
    assert_eq!(r, rect(500, 0, 600, 100));
    let r = m.grid_to_screen(Pos(3, 2), rect(50, 10, 2050, 1010));
    assert_eq!(r, rect(850, 210, 950, 310));
}

#[test]
fn round_trip_through_cell_centre() {
    let views = [rect(0, 0, 2000, 1000), rect(-300, 40, 77, 999), rect(5, 5, 5, 5)];
    for size in [1, 7, 10] {
        for cell in [10, 33, 100, 5000] {
            let m = small_board(size, cell);
            for v in views {
                for x in 0..size {
                    for y in 0..size {
                        let r = m.grid_to_screen(Pos(x, y), v);
                        assert_eq!(m.screen_to_grid(center(&r), v), Some(Pos(x, y)));
                    }
                }
            }
        }
    }
}

#[test]
fn screen_to_grid_rounds_down() {
    let m = small_board(10, 100);
    let v = rect(0, 0, 1000, 1000);
    assert_eq!(m.screen_to_grid(ScreenPoint { x: 250, y: 999 }, v), Some(Pos(2, 9)));
    assert_eq!(m.screen_to_grid(ScreenPoint { x: -50, y: 0 }, v), Some(Pos(-1, 0)));
    assert_eq!(m.screen_to_grid(ScreenPoint { x: -150, y: 1250 }, v), Some(Pos(-2, 12)));
}

#[test]
fn toroidal_hit_test_wraps_into_board() {
    let mut m = small_board(10, 100);
    m.toroidal_display = true;
    let v = rect(0, 0, 1000, 1000);
    assert_eq!(m.screen_to_grid(ScreenPoint { x: 1250, y: 50 }, v), Some(Pos(2, 0)));
    assert_eq!(m.screen_to_grid(ScreenPoint { x: -150, y: -2050 }, v), Some(Pos(8, 9)));
}

#[test]
fn hit_inside_cell_left_of_board_origin() {
    let m = ConwayMap::new();
    let v = rect(0, 0, 100000, 100000);
    assert_eq!(m.grid_to_screen(Pos(-1, 0), v), rect(11500, 12500, 12500, 13500));
    assert_eq!(m.screen_to_grid(ScreenPoint { x: 12000, y: 13000 }, v), Some(Pos(-1, 0)));
    for x in [11500, 11999, 12499] {
        assert_eq!(m.screen_to_grid(ScreenPoint { x, y: 12500 }, v), Some(Pos(-1, 0)));
    }
    assert_eq!(m.screen_to_grid(ScreenPoint { x: 12500, y: 12500 }, v), Some(Pos(0, 0)));
}

#[test]
fn every_board_copy_hits_the_same_cell() {
    let mut m = ConwayMap::new();
    m.toroidal_display = true;
    let v = rect(0, 0, 100000, 100000);
    let p = ScreenPoint { x: 13000, y: 13000 };
    assert_eq!(m.screen_to_grid(p, v), Some(Pos(0, 0)));
    for k in [-2i64, -1, 1, 3] {
        for l in [-1i64, 0, 2] {
            let q = ScreenPoint { x: p.x + k * 75000, y: p.y + l * 75000 };
            assert_eq!(m.screen_to_grid(q, v), Some(Pos(0, 0)));
        }
    }
}

#[test]
fn hit_test_far_out_is_none() {
    let m = small_board(10, 10);
    let v = rect(0, 0, 100, 100);
    let far = ScreenPoint { x: 1_000_000_000_000, y: 0 };
    assert_eq!(m.screen_to_grid(far, v), None);
}

#[test]
fn standard_render_skips_cells_off_view() {
    let mut m = small_board(10, 100);
    m.set_cell_alive(Pos(0, 0));
    m.set_cell_alive(Pos(40, 0));
    let cells = m.generate_cells(rect(0, 0, 1000, 1000));
    assert_eq!(cells, vec![rect(0, 0, 100, 100)]);
}

#[test]
fn toroidal_render_tiles_the_board() {
    let mut m = small_board(10, 100);
    m.toroidal_display = true;
    m.set_cell_alive(Pos(0, 0));
    let cells = m.generate_cells(rect(0, 0, 1000, 1000));
    assert!(cells.contains(&rect(0, 0, 100, 100)));
    assert!(cells.contains(&rect(1000, 0, 1100, 100)));
    assert!(cells.contains(&rect(0, 1000, 100, 1100)));
    assert!(cells.contains(&rect(1000, 1000, 1100, 1100)));
    assert_eq!(cells.len(), 4);
}

#[test]
fn highlight_in_both_modes() {
    let mut m = small_board(10, 100);
    let v = rect(0, 0, 1000, 1000);
    assert_eq!(m.draw_cell_highlight(Pos(9, 9), v), vec![rect(900, 900, 1000, 1000)]);
    assert!(m.draw_cell_highlight(Pos(30, 0), v).is_empty());
    m.toroidal_display = true;
    let h = m.draw_cell_highlight(Pos(9, 9), v);
    assert_eq!(h.len(), 4);
    assert!(h.contains(&rect(-100, -100, 0, 0)));
}

#[test]
fn grid_lines_cover_the_view() {
    let m = small_board(10, 100);
    let lines = m.draw_lines(rect(0, 0, 250, 100));
    assert_eq!(lines.len(), 5 + 3);
    assert_eq!(lines[0].from, ScreenPoint { x: 0, y: 0 });
    assert_eq!(lines[4].to, ScreenPoint { x: 400, y: 100 });
    assert_eq!(lines[5].from, ScreenPoint { x: 0, y: 0 });
    assert_eq!(lines[7].to, ScreenPoint { x: 250, y: 200 });
    let m = small_board(10, 1000);
    assert_eq!(m.draw_lines(rect(0, 0, 1500, 1500)).len(), 8);
    assert_eq!(m.draw_lines(rect(0, 0, 2000, 1000)).len(), 4 + 3);
}

#[test]
fn one_rectangle_per_visible_cell() {
    let mut m = small_board(10, 100);
    let v = rect(0, 0, 1000, 1000);
    for p in [Pos(0, 0), Pos(3, 4), Pos(9, 9), Pos(50, 50)] {
        m.set_cell_alive(p);
    }
    let mut cells = m.generate_cells(v);
    cells.sort_by_key(|r| (r.min.x, r.min.y));
    assert_eq!(cells, vec![rect(0, 0, 100, 100), rect(300, 400, 400, 500), rect(900, 900, 1000, 1000)]);
    m.toroidal_display = true;
    let cells = m.generate_cells(v);
    assert_eq!(cells.len(), 4 + 1 * 1 + 4);
    let mut sorted = cells.clone();
    sorted.sort_by_key(|r| (r.min.x, r.min.y));
    sorted.dedup();
    assert_eq!(sorted.len(), cells.len());
}

#[test]
fn easing_clamps_and_interpolates() {
    assert_eq!(exponential_easing(5, 10, 5000, 10, 150), 10);
    assert_eq!(exponential_easing(10, 10, 5000, 10, 150), 10);
    assert_eq!(exponential_easing(6000, 10, 5000, 10, 150), 150);
    assert_eq!(exponential_easing(5000, 10, 5000, 10, 150), 150);
    assert_eq!(exponential_easing(2505, 10, 5000, 10, 150), 80);
    assert_eq!(line_thickness(1000), 37);
    let m = small_board(10, 1000);
    assert_eq!(m.line_thickness(), 37);
}

#[test]
fn center_cells_moves_pattern_to_middle() {
    let mut m = small_board(10, 100);
    m.set_cell_alive(Pos(0, 0));
    m.set_cell_alive(Pos(2, 0));
    m.center_cells(rect(0, 0, 50000, 30000));
    assert_eq!(m.cell_size, 5000);
    let mut v: Vec<(i32, i32)> = m.live_cells().iter().map(|p| (p.0, p.1)).collect();
    v.sort();
    assert_eq!(v, vec![(4, 5), (6, 5)]);
    m.center_cells(rect(0, 0, 50, 30));
    assert_eq!(m.cell_size, 10);
}

#[test]
fn toroidal_tiles_follow_the_pan() {
    let mut m = small_board(1, 100);
    m.toroidal_display = true;
    m.x_axis = 10;
    m.set_cell_alive(Pos(0, 0));
    let v = rect(0, 0, 100, 100);
    let cells = m.generate_cells(v);
    assert!(cells.contains(&rect(0, 0, 100, 100)));
    assert_eq!(cells.len(), 9);
    let h = m.draw_cell_highlight(Pos(0, 0), v);
    assert!(h.contains(&rect(0, 0, 100, 100)));
    let mut m = small_board(10, 100);
    m.toroidal_display = true;
    m.x_axis = -37;
    m.y_axis = 52;
    m.set_cell_alive(Pos(4, 4));
    let v = rect(-5000, 300, -4000, 1300);
    let cells = m.generate_cells(v);
    assert_eq!(cells, vec![rect(-4900, 500, -4800, 600)]);
}

#[test]
fn center_of_far_rectangle() {
    let r = rect(i64::MAX - 10, i64::MIN, i64::MAX, i64::MIN + 5);
    assert_eq!(center(&r), ScreenPoint { x: i64::MAX - 5, y: i64::MIN + 2 });
}
