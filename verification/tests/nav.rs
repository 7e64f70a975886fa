use tescellate_ui::keymap::Dir;
use tescellate_ui::lattice::{HexCoord, TriCoord};
use tescellate_ui::nav::{
    hex_address, hex_autosum, hex_current_region, hex_in_view, hex_jump, hex_step, square_jump,
    step_square, triangle_address, triangle_autosum, triangle_in_view, triangle_page,
    triangle_step, COLS, ROWS, TRIANGLE_RADIUS,
};

#[test]
fn hex_address_formats_axial_coords() {
    assert_eq!(hex_address(HexCoord::new(0, 0)), "H(0,0)");
    assert_eq!(hex_address(HexCoord::new(2, -3)), "H(2,-3)");
    assert_eq!(hex_address(HexCoord::new(-1, 4)), "H(-1,4)");
}

#[test]
fn hex_step_moves_along_the_axial_axes() {
    let origin = HexCoord::new(0, 0);
    assert_eq!(hex_step(origin, Dir::Right), HexCoord::new(1, 0));
    assert_eq!(hex_step(origin, Dir::Left), HexCoord::new(-1, 0));
    assert_eq!(hex_step(origin, Dir::Down), HexCoord::new(0, 1));
    assert_eq!(hex_step(origin, Dir::Up), HexCoord::new(0, -1));
}

#[test]
fn hex_step_opposite_directions_cancel() {
    let c = HexCoord::new(2, -3);
    assert_eq!(hex_step(hex_step(c, Dir::Right), Dir::Left), c);
    assert_eq!(hex_step(hex_step(c, Dir::Down), Dir::Up), c);
}

#[test]
fn hex_step_is_always_a_unit_move() {
    let c = HexCoord::new(1, 1);
    for dir in [Dir::Up, Dir::Down, Dir::Left, Dir::Right] {
        assert_eq!(c.distance(hex_step(c, dir)), 1);
    }
}

#[test]
fn step_square_clamps_at_the_grid_edges() {
    assert_eq!(step_square((0, 0), Dir::Up), (0, 0));
    assert_eq!(step_square((0, 0), Dir::Left), (0, 0));
    assert_eq!(step_square((COLS - 1, ROWS - 1), Dir::Right), (COLS - 1, ROWS - 1));
    assert_eq!(step_square((COLS - 1, ROWS - 1), Dir::Down), (COLS - 1, ROWS - 1));
}

#[test]
fn step_square_moves_within_the_grid() {
    assert_eq!(step_square((3, 4), Dir::Right), (4, 4));
    assert_eq!(step_square((3, 4), Dir::Down), (3, 5));
    assert_eq!(step_square((3, 4), Dir::Left), (2, 4));
    assert_eq!(step_square((3, 4), Dir::Up), (3, 3));
}

#[test]
fn hex_jump_walks_to_a_run_far_end() {
    let run = [HexCoord::new(0, 0), HexCoord::new(1, 0), HexCoord::new(2, 0)];
    let target = hex_jump(HexCoord::new(0, 0), Dir::Right, hex_in_view, |c: HexCoord| run.contains(&c));
    assert_eq!(target, HexCoord::new(2, 0));
}

#[test]
fn hex_jump_skips_a_gap_to_the_next_content() {
    let content = [HexCoord::new(0, 0), HexCoord::new(3, 0)];
    let target =
        hex_jump(HexCoord::new(0, 0), Dir::Right, hex_in_view, |c: HexCoord| content.contains(&c));
    assert_eq!(target, HexCoord::new(3, 0));
}

#[test]
fn hex_jump_runs_to_the_view_edge_when_empty() {
    let target = hex_jump(HexCoord::new(0, 0), Dir::Right, hex_in_view, |_: HexCoord| false);
    assert_eq!(target, HexCoord::new(3, 0));
    assert!(hex_in_view(target));
    assert!(!hex_in_view(hex_step(target, Dir::Right)));
}

#[test]
fn hex_jump_at_the_view_edge_stays_put() {
    let target = hex_jump(HexCoord::new(3, 0), Dir::Right, hex_in_view, |_: HexCoord| true);
    assert_eq!(target, HexCoord::new(3, 0));
}

#[test]
fn hex_current_region_grows_to_the_block() {
    let filled = |q: i32, r: i32| (0..=1).contains(&q) && (0..=1).contains(&r);
    assert_eq!(hex_current_region((0, 0), 3, filled), ((0, 0), (1, 1)));
    assert_eq!(hex_current_region((1, 1), 3, filled), ((0, 0), (1, 1)));
}

#[test]
fn hex_current_region_isolated_cell() {
    assert_eq!(hex_current_region((0, 0), 3, |_: i32, _: i32| false), ((0, 0), (0, 0)));
}

#[test]
fn hex_current_region_clamps_to_the_radius() {
    assert_eq!(hex_current_region((0, 0), 3, |_: i32, _: i32| true), ((-3, -3), (3, 3)));
}

#[test]
fn hex_autosum_sums_into_the_hex_below() {
    assert_eq!(
        hex_autosum((HexCoord::new(0, -1), HexCoord::new(0, 1)), "SUM"),
        Some((HexCoord::new(0, 2), "=SUM(H(0,-1):H(0,1))".to_string())),
    );
}

#[test]
fn hex_autosum_single_cell_and_chosen_function() {
    assert_eq!(
        hex_autosum((HexCoord::new(1, 0), HexCoord::new(1, 0)), "SUM"),
        Some((HexCoord::new(1, 1), "=SUM(H(1,0))".to_string())),
    );
    assert_eq!(
        hex_autosum((HexCoord::new(0, -1), HexCoord::new(0, 1)), "AVERAGE"),
        Some((HexCoord::new(0, 2), "=AVERAGE(H(0,-1):H(0,1))".to_string())),
    );
}

#[test]
fn hex_autosum_is_none_outside_the_view() {
    assert_eq!(hex_autosum((HexCoord::new(0, 2), HexCoord::new(0, 3)), "SUM"), None);
}

#[test]
fn triangle_autosum_sums_into_the_triangle_below() {
    assert_eq!(
        triangle_autosum((TriCoord::new(0, 0), TriCoord::new(2, 1)), "SUM"),
        Some((TriCoord::new(0, 2), "=SUM(T(0,0):T(2,1))".to_string(),)),
    );
}

#[test]
fn triangle_autosum_single_cell_and_chosen_function() {
    assert_eq!(
        triangle_autosum((TriCoord::new(1, 0), TriCoord::new(1, 0)), "SUM"),
        Some((TriCoord::new(1, 1), "=SUM(T(1,0))".to_string())),
    );
    assert_eq!(
        triangle_autosum((TriCoord::new(0, 0), TriCoord::new(2, 1)), "AVERAGE"),
        Some((TriCoord::new(0, 2), "=AVERAGE(T(0,0):T(2,1))".to_string(),)),
    );
}

#[test]
fn triangle_autosum_is_none_outside_the_view() {
    assert_eq!(
        triangle_autosum(
            (TriCoord::new(0, TRIANGLE_RADIUS), TriCoord::new(0, TRIANGLE_RADIUS)),
            "SUM",
        ),
        None,
    );
}

#[test]
fn triangle_address_formats_its_coords() {
    assert_eq!(triangle_address(TriCoord::new(-2, 5)), "T(-2,5)");
    assert_eq!(triangle_address(TriCoord::new(0, -6)), "T(0,-6)");
}

#[test]
fn triangle_steps_cancel_and_the_window_is_a_square() {
    let c = TriCoord::new(6, -6);
    assert_eq!(triangle_step(triangle_step(c, Dir::Right), Dir::Left), c);
    assert!(triangle_in_view(c));
    assert!(!triangle_in_view(triangle_step(c, Dir::Right)));
    assert!(!triangle_in_view(triangle_step(c, Dir::Up)));
}

#[test]
fn the_hex_view_is_the_radius_three_disc() {
    assert!(hex_in_view(HexCoord::new(3, -3)));
    assert!(hex_in_view(HexCoord::new(-3, 0)));
    assert!(!hex_in_view(HexCoord::new(2, 2)));
    assert!(!hex_in_view(HexCoord::new(i32::MAX, i32::MIN)));
}

#[test]
fn triangle_page_moves_a_page_and_clamps_to_the_window() {
    assert_eq!(triangle_page(TriCoord::new(2, 0), true), TriCoord::new(2, -6));
    assert_eq!(triangle_page(TriCoord::new(2, 0), false), TriCoord::new(2, 6));
    assert_eq!(triangle_page(TriCoord::new(1, -40), false), TriCoord::new(1, -24));
}

#[test]
fn square_jump_walks_the_cursor_row_or_column() {
    let filled = |c: u32, r: u32| r == 3 && c <= 4;
    assert_eq!(square_jump((0, 3), Dir::Right, filled), (4, 3));
    assert_eq!(square_jump((4, 3), Dir::Left, filled), (0, 3));
    assert_eq!(square_jump((2, 0), Dir::Down, filled), (2, 3));
    assert_eq!(square_jump((2, 3), Dir::Down, filled), (2, ROWS - 1));
    assert_eq!(square_jump((9, 3), Dir::Right, filled), (COLS - 1, 3));
}
