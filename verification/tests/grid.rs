use tescellate_ui::grid::{autosum, cell_address, column_label, current_region, jump_target, page_step, parse_address};

#[test]
fn column_labels_are_bijective_base_26() {
    assert_eq!(column_label(0), "A");
    assert_eq!(column_label(25), "Z");
    assert_eq!(column_label(26), "AA");
    assert_eq!(column_label(701), "ZZ");
}

#[test]
fn cell_addresses() {
    assert_eq!(cell_address(0, 0), "A1");
    assert_eq!(cell_address(27, 99), "AB100");
}

#[test]
fn parse_address_inverts_cell_address() {
    assert_eq!(parse_address("A1"), Some((0, 0)));
    assert_eq!(parse_address("B7"), Some((1, 6)));
    assert_eq!(parse_address("Z9"), Some((25, 8)));
    assert_eq!(parse_address("AA1"), Some((26, 0)));
    assert_eq!(parse_address("AB100"), Some((27, 99)));
    assert_eq!(parse_address("  c3  "), Some((2, 2)));
    assert_eq!(parse_address(&cell_address(27, 99)), Some((27, 99)));
}

#[test]
fn parse_address_rejects_malformed_input() {
    assert_eq!(parse_address(""), None);
    assert_eq!(parse_address("B"), None);
    assert_eq!(parse_address("7"), None);
    assert_eq!(parse_address("B0"), None);
    assert_eq!(parse_address("7B"), None);
    assert_eq!(parse_address("B7B"), None);
    assert_eq!(parse_address("B 7"), None);
}

#[test]
fn jump_target_from_inside_a_run_goes_to_its_far_end() {
    let cells = [true, true, true, false, false, true];
    let occ = |i: u32| cells[i as usize];
    assert_eq!(jump_target(0, 5, true, occ), 2);
    assert_eq!(jump_target(2, 5, false, occ), 0);
}

#[test]
fn jump_target_skips_a_gap_to_the_next_content() {
    let cells = [true, true, true, false, false, true];
    let occ = |i: u32| cells[i as usize];
    assert_eq!(jump_target(2, 5, true, occ), 5);
    assert_eq!(jump_target(5, 5, false, occ), 2);
}

#[test]
fn jump_target_from_an_empty_cell_finds_the_next_content() {
    let cells = [false, false, true, false, false];
    let occ = |i: u32| cells[i as usize];
    assert_eq!(jump_target(0, 4, true, occ), 2);
    assert_eq!(jump_target(4, 4, false, occ), 2);
}

#[test]
fn jump_target_runs_to_the_edge_when_no_content_remains() {
    let empty = |_: u32| false;
    assert_eq!(jump_target(0, 9, true, empty), 9);
    assert_eq!(jump_target(9, 9, false, empty), 0);
}

#[test]
fn jump_target_at_the_edge_stays_put() {
    let occ = |_: u32| true;
    assert_eq!(jump_target(9, 9, true, occ), 9);
    assert_eq!(jump_target(0, 9, false, occ), 0);
}

#[test]
fn autosum_sums_a_column_into_the_cell_below() {
    assert_eq!(
        autosum(((0, 0), (0, 4)), 32, "SUM"),
        Some(((0, 5), "=SUM(A1:A5)".to_string())),
    );
}

#[test]
fn autosum_handles_a_block_and_a_single_cell() {
    assert_eq!(
        autosum(((1, 1), (3, 4)), 32, "SUM"),
        Some(((1, 5), "=SUM(B2:D5)".to_string())),
    );
    assert_eq!(autosum(((2, 2), (2, 2)), 32, "SUM"), Some(((2, 3), "=SUM(C3)".to_string())));
}

#[test]
fn autosum_is_none_with_no_room_below() {
    assert_eq!(autosum(((0, 30), (0, 31)), 32, "SUM"), None);
}

#[test]
fn autosum_uses_the_chosen_function() {
    assert_eq!(
        autosum(((0, 0), (0, 4)), 32, "AVERAGE"),
        Some(((0, 5), "=AVERAGE(A1:A5)".to_string())),
    );
}

#[test]
fn page_step_moves_a_page_and_clamps() {
    assert_eq!(page_step(2, false, 16, 31), 18);
    assert_eq!(page_step(20, false, 16, 31), 31);
    assert_eq!(page_step(20, true, 16, 31), 4);
    assert_eq!(page_step(5, true, 16, 31), 0);
}

#[test]
fn current_region_grows_to_the_data_block() {
    let filled = |c: u32, r: u32| (1..=2).contains(&c) && (1..=2).contains(&r);
    assert_eq!(current_region((1, 1), 16, 32, filled), ((1, 1), (2, 2)));
    assert_eq!(current_region((2, 2), 16, 32, filled), ((1, 1), (2, 2)));
}

#[test]
fn current_region_of_an_isolated_cell_is_itself() {
    assert_eq!(current_region((3, 4), 16, 32, |_: u32, _: u32| false), ((3, 4), (3, 4)));
}

#[test]
fn current_region_stops_at_empty_rows_and_columns() {
    let filled = |c: u32, r: u32| c <= 1 && r <= 1;
    assert_eq!(current_region((0, 0), 16, 32, filled), ((0, 0), (1, 1)));
}

#[test]
fn current_region_stops_at_the_grid_border() {
    let everything = |_: u32, _: u32| true;
    assert_eq!(current_region((2, 2), 4, 3, everything), ((0, 0), (3, 2)));
}

#[test]
fn column_labels_past_two_letters() {
    assert_eq!(column_label(702), "AAA");
    assert_eq!(column_label(27), "AB");
}

#[test]
fn parse_address_round_trips_large_cells() {
    for &(c, r) in &[(0u32, 0u32), (51, 199), (702, 12345), (18277, 999_999)] {
        assert_eq!(parse_address(&cell_address(c, r)), Some((c, r)));
    }
}

#[test]
fn parse_address_rejects_a_row_beyond_u32() {
    assert_eq!(parse_address("A4294967297"), None);
}

#[test]
fn a_padded_lower_case_address_parses_back() {
    for (col, row) in [(0u32, 0u32), (27, 99), (701, 12), (702, 0)] {
        let address = cell_address(col, row);
        let padded = format!(" \t{}\n ", address.to_lowercase());
        assert_eq!(parse_address(&padded), Some((col, row)));
    }
}
