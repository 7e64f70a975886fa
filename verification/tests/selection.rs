use tescellate_ui::lattice::{HexCoord, TriCoord, VoronoiCoord};
use tescellate_ui::selection::{Cell, FillDir, HexSelection, Selection, TriangleSelection};


#[test]
fn a_fresh_selection_is_a_single_cell() {
    let s = Selection::single((3, 4));
    assert!(!s.is_range());
    assert_eq!(s.dimensions(), (1, 1));
    assert!(s.contains((3, 4)));
    assert!(!s.contains((3, 5)));
}

#[test]
fn column_selection_spans_every_row() {
    let s = Selection::column(3, 32);
    assert_eq!(s.bounds(), ((3, 0), (3, 31)));
    assert_eq!(s.dimensions(), (1, 32));
    // The active cell is the column's top.
    assert_eq!(s.cursor, (3, 0));
    assert!(s.contains((3, 15)));
    assert!(!s.contains((4, 15)));
}

#[test]
fn row_selection_spans_every_column() {
    let s = Selection::row(7, 16);
    assert_eq!(s.bounds(), ((0, 7), (15, 7)));
    assert_eq!(s.dimensions(), (16, 1));
    assert_eq!(s.cursor, (0, 7));
    assert!(s.contains((9, 7)));
    assert!(!s.contains((9, 8)));
}

#[test]
fn select_all_covers_the_whole_grid() {
    let s = Selection::all(16, 32);
    assert_eq!(s.bounds(), ((0, 0), (15, 31)));
    assert_eq!(s.dimensions(), (16, 32));
    assert_eq!(s.cursor, (0, 0));
}

#[test]
fn region_constructors_survive_a_zero_extent() {
    // Degenerate counts must not underflow — they collapse to a cell.
    assert_eq!(Selection::column(2, 0).bounds(), ((2, 0), (2, 0)));
    assert_eq!(Selection::row(0, 0).bounds(), ((0, 0), (0, 0)));
    assert_eq!(Selection::all(0, 0).bounds(), ((0, 0), (0, 0)));
}

#[test]
fn column_range_spans_the_columns_between_its_ends() {
    let s = Selection::column_range(1, 4, 32);
    assert_eq!(s.bounds(), ((1, 0), (4, 31)));
    assert_eq!(s.dimensions(), (4, 32));
    // The active cell is the top of the drag's end column.
    assert_eq!(s.cursor, (4, 0));
}

#[test]
fn column_range_normalises_reversed_ends() {
    // Dragging right-to-left yields the same rectangle.
    let s = Selection::column_range(5, 2, 32);
    assert_eq!(s.bounds(), ((2, 0), (5, 31)));
    assert_eq!(s.cursor, (2, 0));
}

#[test]
fn row_range_spans_the_rows_between_its_ends() {
    let s = Selection::row_range(3, 6, 16);
    assert_eq!(s.bounds(), ((0, 3), (15, 6)));
    assert_eq!(s.dimensions(), (16, 4));
    assert_eq!(s.cursor, (0, 6));
}

#[test]
fn single_ended_ranges_match_the_whole_column_and_row() {
    // column / row are the degenerate one-index ranges.
    assert_eq!(Selection::column_range(7, 7, 32), Selection::column(7, 32));
    assert_eq!(Selection::row_range(2, 2, 16), Selection::row(2, 16));
}

#[test]
fn extend_grows_a_range_but_collapse_resets_it() {
    let mut s = Selection::single((1, 1));
    s.extend_to((3, 2));
    assert!(s.is_range());
    assert_eq!(s.anchor, (1, 1));
    assert_eq!(s.cursor, (3, 2));
    assert_eq!(s.dimensions(), (3, 2));

    s.collapse_to((5, 5));
    assert!(!s.is_range());
    assert_eq!(s.dimensions(), (1, 1));
}

#[test]
fn bounds_are_normalised_when_the_cursor_is_above_the_anchor() {
    // Anchor bottom-right, cursor top-left — bounds still min/max.
    let s = Selection {
        anchor: (4u32, 6u32),
        cursor: (2u32, 1u32),
        extra: Vec::new(),
    };
    assert_eq!(s.bounds(), ((2, 1), (4, 6)));
    assert_eq!(s.dimensions(), (3, 6));
    assert!(s.contains((3, 3)));
    assert!(!s.contains((5, 3)));
}

#[test]
fn cells_enumerates_the_whole_rectangle() {
    let s = Selection {
        anchor: (1u32, 1u32),
        cursor: (2u32, 3u32),
        extra: Vec::new(),
    };
    let cells: Vec<Cell> = s.cells();
    assert_eq!(cells.len(), 6);
    assert!(cells.contains(&(1, 1)));
    assert!(cells.contains(&(2, 3)));
    assert!(cells.contains(&(2, 2)));
    // Every enumerated cell is inside the selection.
    assert!(cells.iter().all(|&c| s.contains(c)));
}

#[test]
fn cells_of_a_single_selection_is_just_that_cell() {
    let s = Selection::single((7u32, 2u32));
    assert_eq!(s.cells(), vec![(7, 2)]);
}

#[test]
fn fill_down_propagates_the_top_row_per_column() {
    // A 2-column × 3-row range: rows 1 and 2 fill from row 0.
    let s = Selection {
        anchor: (0u32, 0u32),
        cursor: (1u32, 2u32),
        extra: Vec::new(),
    };
    let pairs = s.fill_targets(FillDir::Down);
    assert_eq!(pairs.len(), 4);
    assert!(pairs.contains(&((0, 1), (0, 0))));
    assert!(pairs.contains(&((0, 2), (0, 0))));
    assert!(pairs.contains(&((1, 1), (1, 0))));
    assert!(pairs.contains(&((1, 2), (1, 0))));
}

#[test]
fn fill_right_propagates_the_left_column_per_row() {
    let s = Selection {
        anchor: (0u32, 0u32),
        cursor: (2u32, 1u32),
        extra: Vec::new(),
    };
    let pairs = s.fill_targets(FillDir::Right);
    assert_eq!(pairs.len(), 4);
    assert!(pairs.contains(&((1, 0), (0, 0))));
    assert!(pairs.contains(&((2, 0), (0, 0))));
    assert!(pairs.contains(&((1, 1), (0, 1))));
    assert!(pairs.contains(&((2, 1), (0, 1))));
}

#[test]
fn fill_on_a_single_cell_pulls_from_the_neighbour() {
    assert_eq!(
        Selection::single((3u32, 5u32)).fill_targets(FillDir::Down),
        vec![((3, 5), (3, 4))],
    );
    assert_eq!(
        Selection::single((4u32, 2u32)).fill_targets(FillDir::Right),
        vec![((4, 2), (3, 2))],
    );
    // A cell at the grid edge has no neighbour to pull from.
    assert!(Selection::single((3u32, 0u32))
        .fill_targets(FillDir::Down)
        .is_empty());
    assert!(Selection::single((0u32, 2u32))
        .fill_targets(FillDir::Right)
        .is_empty());
}

#[test]
fn fill_down_on_a_single_row_range_is_a_noop() {
    let s = Selection {
        anchor: (0u32, 4u32),
        cursor: (3u32, 4u32),
        extra: Vec::new(),
    };
    assert!(s.fill_targets(FillDir::Down).is_empty());
}

#[test]
fn hex_selection_single_then_extends() {
    let mut s = HexSelection::single(HexCoord::new(1, 1));
    assert!(!s.is_range());
    assert_eq!(s.cells(), vec![HexCoord::new(1, 1)]);
    s.extend_to(HexCoord::new(2, 3));
    assert!(s.is_range());
    assert_eq!(s.dimensions(), (2, 3));
    s.collapse_to(HexCoord::new(5, 5));
    assert!(!s.is_range());
}

#[test]
fn hex_selection_bounds_normalise_and_contain() {
    // Cursor below-left of the anchor — bounds are still min/max.
    let s = HexSelection {
        anchor: HexCoord::new(3, 4),
        cursor: HexCoord::new(1, 0),
        extra: Vec::new(),
    };
    let (min, max) = s.bounds();
    assert_eq!((min.q, min.r), (1, 0));
    assert_eq!((max.q, max.r), (3, 4));
    assert!(s.contains(HexCoord::new(2, 2)));
    assert!(!s.contains(HexCoord::new(4, 2)));
}

#[test]
fn hex_selection_cells_enumerate_the_parallelogram() {
    let s = HexSelection {
        anchor: HexCoord::new(0, 0),
        cursor: HexCoord::new(1, 2),
        extra: Vec::new(),
    };
    let cells = s.cells();
    assert_eq!(cells.len(), 6);
    assert!(cells.contains(&HexCoord::new(0, 0)));
    assert!(cells.contains(&HexCoord::new(1, 2)));
    assert!(cells.iter().all(|&c| s.contains(c)));
}

#[test]
fn hex_fill_down_propagates_the_top_row_per_column() {
    // A 2-q × 3-r range: the two lower r-rows fill from min_r.
    let s = HexSelection {
        anchor: HexCoord::new(0, 0),
        cursor: HexCoord::new(1, 2),
        extra: Vec::new(),
    };
    let pairs = s.fill_targets(FillDir::Down);
    assert_eq!(pairs.len(), 4);
    assert!(pairs.contains(&(HexCoord::new(0, 1), HexCoord::new(0, 0))));
    assert!(pairs.contains(&(HexCoord::new(1, 2), HexCoord::new(1, 0))));
}

#[test]
fn hex_fill_right_propagates_the_left_column_per_row() {
    let s = HexSelection {
        anchor: HexCoord::new(0, 0),
        cursor: HexCoord::new(2, 1),
        extra: Vec::new(),
    };
    let pairs = s.fill_targets(FillDir::Right);
    assert_eq!(pairs.len(), 4);
    assert!(pairs.contains(&(HexCoord::new(1, 0), HexCoord::new(0, 0))));
    assert!(pairs.contains(&(HexCoord::new(2, 1), HexCoord::new(0, 1))));
}

#[test]
fn hex_fill_on_a_single_cell_pulls_from_the_neighbour() {
    let s = HexSelection::single(HexCoord::new(3, -2));
    assert_eq!(
        s.fill_targets(FillDir::Down),
        vec![(HexCoord::new(3, -2), HexCoord::new(3, -3))],
    );
    assert_eq!(
        s.fill_targets(FillDir::Right),
        vec![(HexCoord::new(3, -2), HexCoord::new(2, -2))],
    );
}

#[test]
fn hex_fill_down_on_a_single_row_range_is_a_noop() {
    let s = HexSelection {
        anchor: HexCoord::new(0, 4),
        cursor: HexCoord::new(3, 4),
        extra: Vec::new(),
    };
    assert!(s.fill_targets(FillDir::Down).is_empty());
}

#[test]
fn triangle_selection_single_then_extends() {
    let mut s = TriangleSelection::single(TriCoord::new(1, 1));
    assert!(!s.is_range());
    assert_eq!(s.cells(), vec![TriCoord::new(1, 1)]);
    s.extend_to(TriCoord::new(3, 2));
    assert!(s.is_range());
    assert_eq!(s.dimensions(), (3, 2));
    s.collapse_to(TriCoord::new(0, 0));
    assert!(!s.is_range());
}

#[test]
fn triangle_selection_bounds_normalise_and_contain() {
    // Anchor bottom-right, cursor top-left — bounds still min/max.
    let s = TriangleSelection {
        anchor: TriCoord::new(3, 4),
        cursor: TriCoord::new(1, 0),
        extra: Vec::new(),
    };
    let (min, max) = s.bounds();
    assert_eq!((min.col, min.row), (1, 0));
    assert_eq!((max.col, max.row), (3, 4));
    assert!(s.contains(TriCoord::new(2, 2)));
    assert!(!s.contains(TriCoord::new(4, 2)));
}

#[test]
fn triangle_selection_cells_enumerate_the_rectangle() {
    let s = TriangleSelection {
        anchor: TriCoord::new(0, 0),
        cursor: TriCoord::new(2, 1),
        extra: Vec::new(),
    };
    let cells = s.cells();
    // 3 columns × 2 rows = 6 triangle cells.
    assert_eq!(cells.len(), 6);
    assert!(cells.contains(&TriCoord::new(0, 0)));
    assert!(cells.contains(&TriCoord::new(2, 1)));
    assert!(cells.iter().all(|&c| s.contains(c)));
}

#[test]
fn triangle_fill_down_propagates_the_top_row_per_column() {
    // 2 columns × 3 rows: the two lower rows fill from the top.
    let s = TriangleSelection {
        anchor: TriCoord::new(0, 0),
        cursor: TriCoord::new(1, 2),
        extra: Vec::new(),
    };
    let pairs = s.fill_targets(FillDir::Down);
    assert_eq!(pairs.len(), 4);
    assert!(pairs.contains(&(TriCoord::new(0, 1), TriCoord::new(0, 0))));
    assert!(pairs.contains(&(TriCoord::new(1, 2), TriCoord::new(1, 0))));
}

#[test]
fn triangle_fill_right_propagates_the_left_column_per_row() {
    let s = TriangleSelection {
        anchor: TriCoord::new(0, 0),
        cursor: TriCoord::new(2, 1),
        extra: Vec::new(),
    };
    let pairs = s.fill_targets(FillDir::Right);
    assert_eq!(pairs.len(), 4);
    assert!(pairs.contains(&(TriCoord::new(1, 0), TriCoord::new(0, 0))));
    assert!(pairs.contains(&(TriCoord::new(2, 1), TriCoord::new(0, 1))));
}

#[test]
fn triangle_fill_on_a_single_cell_pulls_from_the_neighbour() {
    let s = TriangleSelection::single(TriCoord::new(3, -2));
    // Triangle coords are unbounded — step_back never returns None.
    assert_eq!(
        s.fill_targets(FillDir::Down),
        vec![(TriCoord::new(3, -2), TriCoord::new(3, -3))],
    );
    assert_eq!(
        s.fill_targets(FillDir::Right),
        vec![(TriCoord::new(3, -2), TriCoord::new(2, -2))],
    );
}

#[test]
fn triangle_fill_down_on_a_single_row_range_is_a_noop() {
    let s = TriangleSelection {
        anchor: TriCoord::new(0, 4),
        cursor: TriCoord::new(3, 4),
        extra: Vec::new(),
    };
    assert!(s.fill_targets(FillDir::Down).is_empty());
}


#[test]
fn selection_default_extra_is_empty_and_cells_unchanged() {
    let s = Selection::single((1u32, 2u32));
    assert!(s.extra.is_empty());
    assert_eq!(s.cells(), vec![(1, 2)]);
    assert_eq!(s.primary_cells(), vec![(1, 2)]);
}

#[test]
fn selection_extra_adds_to_cells_dedup() {
    // 3×3 rect (0,0)..(2,2) plus an extra at (5,5) — and one dup at (1,1)
    // (inside the rect) that must NOT appear twice.
    let mut s = Selection::single((0u32, 0u32));
    s.extend_to((2u32, 2u32));
    s.extra.push((5, 5));
    s.extra.push((1, 1));
    let cells = s.cells();
    assert_eq!(cells.len(), 10, "9 rect cells + 1 unique extra");
    assert!(cells.contains(&(5, 5)));
    assert_eq!(cells.iter().filter(|&&c| c == (1, 1)).count(), 1);
}

#[test]
fn selection_extra_widens_contains_but_not_primary_contains() {
    let mut s = Selection::single((0u32, 0u32));
    s.extra.push((5, 5));
    assert!(s.contains((5, 5)), "contains() includes extra");
    assert!(
        !s.primary_contains((5, 5)),
        "primary_contains() ignores extra"
    );
}

#[test]
fn selection_primary_cells_excludes_extra() {
    let mut s = Selection::single((0u32, 0u32));
    s.extend_to((1u32, 1u32));
    s.extra.push((9, 9));
    assert_eq!(
        s.primary_cells().len(),
        4,
        "primary_cells is rect-only (2×2)"
    );
    assert!(!s.primary_cells().contains(&(9, 9)));
    assert!(s.cells().contains(&(9, 9)), "cells() includes extra");
}

#[test]
fn selection_collapse_to_clears_extra() {
    let mut s = Selection::single((0u32, 0u32));
    s.extra.push((5, 5));
    s.extra.push((6, 6));
    s.collapse_to((3, 3));
    assert!(s.extra.is_empty());
    assert_eq!(s.cells(), vec![(3, 3)]);
}

#[test]
fn selection_extra_persists_through_drag_end() {
    // Between a drag's end and the next click `extra` persists, so the
    // outlines stay drawn.
    let mut s = Selection::single((0u32, 0u32));
    s.extra.push((4, 4));
    s.extra.push((7, 7));
    let snapshot = s.extra.clone();
    // No collapse_to between here and the assert — extra persists.
    assert_eq!(s.extra, snapshot);
}

#[test]
fn voronoi_selections_are_single_cells() {
    let mut s = Selection::single(VoronoiCoord { seed: 3 });
    s.extend_to(VoronoiCoord { seed: 9 });
    assert_eq!(s.bounds(), (VoronoiCoord { seed: 3 }, VoronoiCoord { seed: 3 }));
    assert_eq!(s.dimensions(), (1, 1));
    assert_eq!(s.primary_cells(), vec![VoronoiCoord { seed: 3 }]);
    assert!(s.fill_targets(FillDir::Down).is_empty());
    assert!(Selection::single(VoronoiCoord { seed: 1 }).fill_targets(FillDir::Right).is_empty());
}

#[test]
fn bounds_do_not_depend_on_which_corner_is_the_anchor() {
    let a = Selection::from_anchor_cursor((7u32, 1u32), (2u32, 9u32));
    let b = Selection::from_anchor_cursor((2u32, 9u32), (7u32, 1u32));
    assert_eq!(a.bounds(), b.bounds());
    assert_eq!(a.bounds(), ((2, 1), (7, 9)));
}

#[test]
fn square_cells_run_row_major() {
    let s = Selection::from_anchor_cursor((1u32, 0u32), (2u32, 1u32));
    assert_eq!(s.cells(), vec![(1, 0), (2, 0), (1, 1), (2, 1)]);
}

#[test]
fn hex_cells_run_r_major() {
    let s = HexSelection::from_anchor_cursor(HexCoord::new(-1, 0), HexCoord::new(0, 1));
    assert_eq!(
        s.cells(),
        vec![HexCoord::new(-1, 0), HexCoord::new(0, 0), HexCoord::new(-1, 1), HexCoord::new(0, 1)],
    );
}
