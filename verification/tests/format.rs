use tescellate_ui::format::{
    adjust_decimals, border_sides, effective_align, group_digits, hex_edge_neighbor,
    hex_outer_borders, BorderMode, Borders, CellFormat, FormatMap, HAlign, HexBorders,
    NumberFormat,
};
use tescellate_ui::lattice::HexCoord;

#[test]
fn adjust_decimals_bumps_the_count() {
    assert_eq!(
        adjust_decimals(NumberFormat::Number { decimals: 2 }, 1),
        NumberFormat::Number { decimals: 3 },
    );
    assert_eq!(
        adjust_decimals(NumberFormat::Percent { decimals: 2 }, -1),
        NumberFormat::Percent { decimals: 1 },
    );
    assert_eq!(
        adjust_decimals(NumberFormat::Thousands { decimals: 0 }, 2),
        NumberFormat::Thousands { decimals: 2 },
    );
}

#[test]
fn adjust_decimals_clamps_to_zero_and_fifteen() {
    assert_eq!(
        adjust_decimals(NumberFormat::Number { decimals: 0 }, -1),
        NumberFormat::Number { decimals: 0 },
    );
    assert_eq!(
        adjust_decimals(NumberFormat::Scientific { decimals: 15 }, 1),
        NumberFormat::Scientific { decimals: 15 },
    );
}

#[test]
fn adjust_decimals_gives_general_an_explicit_count() {
    assert_eq!(adjust_decimals(NumberFormat::General, 1), NumberFormat::Number { decimals: 1 });
    assert_eq!(adjust_decimals(NumberFormat::General, -1), NumberFormat::General);
}

#[test]
fn adjust_decimals_leaves_currency_alone() {
    assert_eq!(adjust_decimals(NumberFormat::Currency, 1), NumberFormat::Currency);
    assert_eq!(adjust_decimals(NumberFormat::Currency, -1), NumberFormat::Currency);
}

#[test]
fn adjust_decimals_leaves_dates_and_times_alone() {
    assert_eq!(adjust_decimals(NumberFormat::Date, 1), NumberFormat::Date);
    assert_eq!(adjust_decimals(NumberFormat::Time, -1), NumberFormat::Time);
    assert_eq!(adjust_decimals(NumberFormat::DateTime, 1), NumberFormat::DateTime);
}

#[test]
fn cell_format_default_is_unstyled() {
    assert!(CellFormat::default().is_default());
    let f = CellFormat { bold: true, ..Default::default() };
    assert!(!f.is_default());
}

#[test]
fn format_map_stores_and_evicts() {
    let mut map = FormatMap::new();
    assert_eq!(map.get((0, 0)), CellFormat::default());

    map.update((2, 3), |mut f: CellFormat| {
        f.bold = true;
        f
    });
    assert!(map.get((2, 3)).bold);
    assert_eq!(map.styled_count(), 1);

    map.update((2, 3), |mut f: CellFormat| {
        f.bold = false;
        f
    });
    assert!(map.get((2, 3)).is_default());
    assert_eq!(map.styled_count(), 0);
}

#[test]
fn format_map_update_composes() {
    let mut map = FormatMap::new();
    map.update((1, 1), |mut f: CellFormat| {
        f.italic = true;
        f
    });
    map.update((1, 1), |mut f: CellFormat| {
        f.align = HAlign::Right;
        f
    });
    let f = map.get((1, 1));
    assert!(f.italic);
    assert_eq!(f.align, HAlign::Right);
}

#[test]
fn effective_align_resolves_auto_by_value_type() {
    assert_eq!(effective_align(HAlign::Auto, true), HAlign::Right);
    assert_eq!(effective_align(HAlign::Auto, false), HAlign::Left);
    assert_eq!(effective_align(HAlign::Left, true), HAlign::Left);
    assert_eq!(effective_align(HAlign::Center, true), HAlign::Center);
    assert_eq!(effective_align(HAlign::Right, false), HAlign::Right);
}

#[test]
fn border_sides_all_and_none() {
    let bounds = ((1, 1), (3, 3));
    let all = border_sides((2, 2), bounds, BorderMode::All);
    assert!(all.top && all.bottom && all.left && all.right);
    assert_eq!(border_sides((2, 2), bounds, BorderMode::Clear), Borders::default());
}

#[test]
fn outer_borders_trace_the_selection_edge() {
    let bounds = ((1, 1), (3, 3));
    let tl = border_sides((1, 1), bounds, BorderMode::Outer);
    assert!(tl.top && tl.left && !tl.bottom && !tl.right);
    let br = border_sides((3, 3), bounds, BorderMode::Outer);
    assert!(br.bottom && br.right && !br.top && !br.left);
    let top = border_sides((2, 1), bounds, BorderMode::Outer);
    assert!(top.top && !top.bottom && !top.left && !top.right);
    assert_eq!(border_sides((2, 2), bounds, BorderMode::Outer), Borders::default());
}

#[test]
fn outer_borders_on_a_single_cell_are_all_four() {
    let only = border_sides((5, 5), ((5, 5), (5, 5)), BorderMode::Outer);
    assert!(only.top && only.bottom && only.left && only.right);
}

#[test]
fn format_map_works_with_a_hex_key() {
    let mut map: FormatMap<HexCoord> = FormatMap::new();
    let cell = HexCoord::new(1, -2);
    map.update(cell, |mut f: CellFormat| {
        f.bold = true;
        f
    });
    assert!(map.get(cell).bold);
    assert_eq!(map.styled_count(), 1);
    assert!(map.get(HexCoord::new(0, 0)).is_default());
}

#[test]
fn hex_borders_all_and_default() {
    assert_eq!(HexBorders::all().edges, [true; 6]);
    assert_eq!(HexBorders::default().edges, [false; 6]);
}

#[test]
fn hex_edge_neighbors_are_six_distinct_adjacent_hexes() {
    let cell = HexCoord::new(2, -3);
    let mut seen: Vec<HexCoord> = Vec::new();
    for edge in 0..6 {
        let n = hex_edge_neighbor(cell, edge);
        assert_eq!(cell.distance(n), 1, "edge {edge} neighbour not adjacent");
        assert!(!seen.contains(&n), "edge {edge} neighbour duplicated");
        seen.push(n);
    }
    assert_eq!(seen.len(), 6);
}

#[test]
fn hex_edge_neighbor_index_wraps_modulo_six() {
    let cell = HexCoord::new(0, 0);
    assert_eq!(hex_edge_neighbor(cell, 6), hex_edge_neighbor(cell, 0));
    assert_eq!(hex_edge_neighbor(cell, 7), hex_edge_neighbor(cell, 1));
}

#[test]
fn lone_hex_gets_every_outer_edge() {
    let cell = HexCoord::new(1, 1);
    let b = hex_outer_borders(cell, |c: HexCoord| c == cell);
    assert_eq!(b.edges, [true; 6]);
}

#[test]
fn fully_surrounded_hex_gets_no_outer_edge() {
    let cell = HexCoord::new(0, 0);
    let b = hex_outer_borders(cell, |c: HexCoord| cell.distance(c) <= 1);
    assert_eq!(b.edges, [false; 6]);
}

#[test]
fn outer_edge_is_set_exactly_where_the_neighbour_is_unselected() {
    let cell = HexCoord::new(0, 0);
    let keep = [cell, hex_edge_neighbor(cell, 2), hex_edge_neighbor(cell, 5)];
    let b = hex_outer_borders(cell, |c: HexCoord| keep.contains(&c));
    assert_eq!(b.edges, [true, true, false, true, true, false]);
}

#[test]
fn outer_borders_trace_a_two_hex_selection() {
    let a = HexCoord::new(0, 0);
    let b = hex_edge_neighbor(a, 0);
    let selected = [a, b];
    let in_sel = |c: HexCoord| selected.contains(&c);
    assert_eq!(hex_outer_borders(a, in_sel).edges, [false, true, true, true, true, true]);
    assert_eq!(hex_outer_borders(b, in_sel).edges, [true, true, true, false, true, true]);
}

#[test]
fn group_digits_inserts_a_comma_every_three_digits() {
    assert_eq!(group_digits("1234567"), "1,234,567");
    assert_eq!(group_digits("950"), "950");
    assert_eq!(group_digits("1000"), "1,000");
    assert_eq!(group_digits(""), "");
}

#[test]
fn a_format_map_reads_back_what_was_set() {
    let mut map: FormatMap<(u32, u32)> = FormatMap::new();
    let f = CellFormat { italic: true, ..Default::default() };
    map.set((4, 4), f);
    assert_eq!(map.get((4, 4)), f);
    assert_eq!(map.get((4, 5)), CellFormat::default());
}
