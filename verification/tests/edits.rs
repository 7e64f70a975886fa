use tescellate_ui::edits::{
    cell_edits, commit_source, dedup_targets, record_cell_edits, same_source, engine_label, error_code, error_detail, merge_format_edits,
    merge_hex_format_edits, record_format_edits, record_hex_format_edits, redo_format_edits,
    restyle, same_cells, toggle_target, touched_cells, undo_format_edits, Action, CellEdit,
    CellError, CondKind, EngineKind, FormatEdit, HexFormatEdit,
};
use tescellate_ui::history::History;
use tescellate_ui::format::{border_sides, BorderMode, Borders, CellFormat, FormatMap, Rgba};
use tescellate_ui::lattice::HexCoord;

#[test]
fn dedup_targets_keeps_the_last_write_per_address() {
    let targets = vec![
        ("A1".to_string(), None),
        ("B1".to_string(), Some("x".to_string())),
        ("A1".to_string(), Some("final".to_string())),
    ];
    let out = dedup_targets(targets);
    assert_eq!(out.len(), 2);
    let a1 = out.iter().find(|(a, _)| a == "A1").unwrap();
    assert_eq!(a1.1, Some("final".to_string()));
}

#[test]
fn dedup_targets_leaves_distinct_addresses_alone() {
    let targets = vec![("A1".to_string(), Some("a".to_string())), ("B2".to_string(), None)];
    assert_eq!(dedup_targets(targets).len(), 2);
}

#[test]
fn toggle_target_turns_off_only_when_every_cell_is_on() {
    assert!(!toggle_target(&[true, true, true]));
    assert!(toggle_target(&[true, false, true]));
    assert!(toggle_target(&[false, false]));
}

#[test]
fn merge_format_edits_keeps_oldest_before_and_newest_after() {
    let cell = (1, 1);
    let red = CellFormat { text_color: Some(Rgba::from_rgb(255, 0, 0)), ..CellFormat::default() };
    let blue = CellFormat { text_color: Some(Rgba::from_rgb(0, 0, 255)), ..CellFormat::default() };
    let prev = vec![FormatEdit { cell, before: CellFormat::default(), after: red.clone() }];
    let new = vec![FormatEdit { cell, before: red, after: blue.clone() }];
    let merged = merge_format_edits(prev, new);
    assert_eq!(merged.len(), 1);
    assert_eq!(merged[0].before, CellFormat::default());
    assert_eq!(merged[0].after, blue);
}

#[test]
fn merge_hex_format_edits_keeps_oldest_before_and_newest_after() {
    let cell = HexCoord::new(2, -1);
    let red = CellFormat { text_color: Some(Rgba::from_rgb(255, 0, 0)), ..CellFormat::default() };
    let blue = CellFormat { text_color: Some(Rgba::from_rgb(0, 0, 255)), ..CellFormat::default() };
    let prev = vec![HexFormatEdit { cell, before: CellFormat::default(), after: red.clone() }];
    let new = vec![HexFormatEdit { cell, before: red, after: blue.clone() }];
    let merged = merge_hex_format_edits(prev, new);
    assert_eq!(merged.len(), 1);
    assert_eq!(merged[0].before, CellFormat::default());
    assert_eq!(merged[0].after, blue);
}

#[test]
fn commit_source_clears_on_blank_keeps_content() {
    assert_eq!(commit_source("=SUM(A1:A3)"), Some("=SUM(A1:A3)".to_string()));
    assert_eq!(commit_source("42"), Some("42".to_string()));
    assert_eq!(commit_source(""), None);
    assert_eq!(commit_source("   "), None);
    assert_eq!(commit_source("  hi  "), Some("  hi  ".to_string()));
}

#[test]
fn error_code_maps_to_excel_style_codes() {
    assert_eq!(error_code(&CellError::DivZero), "#DIV/0!");
    assert_eq!(error_code(&CellError::Ref), "#REF!");
    assert_eq!(error_code(&CellError::Value), "#VALUE!");
    assert_eq!(error_code(&CellError::Num), "#NUM!");
    assert_eq!(error_code(&CellError::Lang("bad token".into())), "#PARSE!");
    assert_eq!(error_code(&CellError::Compile("E0382".into())), "#COMPILE!");
    assert_eq!(error_code(&CellError::Cycle), "#CYCLE!");
    assert_eq!(error_code(&CellError::Timeout), "#TIMEOUT!");
    assert_eq!(error_code(&CellError::Spill), "#SPILL!");
    assert_eq!(error_code(&CellError::StaleFunction), "#STALE!");
}

#[test]
fn error_detail_describes_each_error() {
    assert_eq!(error_detail(&CellError::DivZero), "Division by zero");
    assert!(error_detail(&CellError::Ref).contains("missing cell"));
    assert!(error_detail(&CellError::Lang("unexpected }".into())).contains("unexpected }"));
    assert!(error_detail(&CellError::Compile("E0382".into())).contains("E0382"));
    assert_eq!(error_detail(&CellError::Lang("x".into())), "Formula error: x");
}

#[test]
fn engine_label_marks_an_inherited_language() {
    assert_eq!(engine_label(EngineKind::Python, true), "Python");
    assert_eq!(engine_label(EngineKind::ExcelLite, false), "Excelite (default)");
    assert_eq!(engine_label(EngineKind::RustNative, false), "Rust (default)");
    assert_eq!(engine_label(EngineKind::Rhai, true), "Rhai");
}

#[test]
fn cond_kinds_list_labels_and_threshold_fields() {
    let all = CondKind::all();
    assert_eq!(all.len(), 12);
    assert_eq!(all[0].label(), "greater than");
    assert_eq!(CondKind::Contains.label(), "contains text");
    assert!(CondKind::Contains.needs_threshold());
    assert!(!CondKind::IsEmpty.needs_threshold());
    assert!(CondKind::Between.needs_threshold2());
    assert!(!CondKind::Greater.needs_threshold2());
    assert!(all.iter().all(|k| !k.needs_threshold2() || k.needs_threshold()));
}

#[test]
fn dedup_keeps_the_first_place_of_each_address() {
    let targets = vec![
        ("C3".to_string(), Some("1".to_string())),
        ("A1".to_string(), Some("2".to_string())),
        ("C3".to_string(), None),
    ];
    let out = dedup_targets(targets);
    assert_eq!(out, vec![("C3".to_string(), None), ("A1".to_string(), Some("2".to_string()))]);
}

#[test]
fn merging_a_batch_with_a_new_cell_keeps_its_own_before() {
    let bold = CellFormat { bold: true, ..CellFormat::default() };
    let prev = vec![FormatEdit { cell: (0, 0), before: CellFormat::default(), after: bold }];
    let new = vec![FormatEdit { cell: (5, 5), before: bold, after: CellFormat::default() }];
    let merged = merge_format_edits(prev, new);
    assert_eq!(merged[0].before, bold);
}

#[test]
fn restyle_lists_only_the_cells_it_changes() {
    let mut formats: FormatMap<(u32, u32)> = FormatMap::new();
    let bold = CellFormat { bold: true, ..CellFormat::default() };
    formats.set((1, 0), bold);
    let cells = vec![(0, 0), (1, 0), (0, 1)];
    let edits = restyle(&mut formats, &cells, |_, f: CellFormat| CellFormat { bold: true, ..f });
    // (1, 0) was bold already, so it is not an edit.
    assert_eq!(edits.len(), 2);
    assert_eq!(edits[0].cell, (0, 0));
    assert_eq!(edits[1].cell, (0, 1));
    assert_eq!(edits[0].before, CellFormat::default());
    assert_eq!(edits[0].after, bold);
    for cell in &cells {
        assert!(formats.get(*cell).bold);
    }
    assert_eq!(formats.styled_count(), 3);
}

#[test]
fn undo_and_redo_of_a_restyle_round_trip() {
    let mut formats: FormatMap<(u32, u32)> = FormatMap::new();
    let italic = CellFormat { italic: true, ..CellFormat::default() };
    formats.set((2, 2), italic);
    let cells = vec![(2, 2), (3, 2)];
    let edits = restyle(&mut formats, &cells, |_, f: CellFormat| CellFormat { bold: true, ..f });
    assert_eq!(edits.len(), 2);
    undo_format_edits(&mut formats, &edits);
    assert_eq!(formats.get((2, 2)), italic);
    assert_eq!(formats.get((3, 2)), CellFormat::default());
    assert_eq!(formats.styled_count(), 1);
    redo_format_edits(&mut formats, &edits);
    assert_eq!(formats.get((2, 2)), CellFormat { bold: true, italic: true, ..CellFormat::default() });
    assert_eq!(formats.get((3, 2)), CellFormat { bold: true, ..CellFormat::default() });
}

#[test]
fn restyle_can_depend_on_the_cell() {
    let mut formats: FormatMap<(u32, u32)> = FormatMap::new();
    let bounds = ((0, 0), (1, 0));
    let cells = vec![(0, 0), (1, 0)];
    let edits = restyle(&mut formats, &cells, |cell: (u32, u32), f: CellFormat| CellFormat {
        borders: border_sides(cell, bounds, BorderMode::Outer),
        ..f
    });
    assert_eq!(edits.len(), 2);
    assert_eq!(
        formats.get((0, 0)).borders,
        Borders { top: true, bottom: true, left: true, right: false },
    );
    assert_eq!(
        formats.get((1, 0)).borders,
        Borders { top: true, bottom: true, left: false, right: true },
    );
    // Clearing the borders is an edit back to the plain format.
    let cleared = restyle(&mut formats, &cells, |cell: (u32, u32), f: CellFormat| CellFormat {
        borders: border_sides(cell, bounds, BorderMode::Clear),
        ..f
    });
    assert_eq!(cleared.len(), 2);
    assert_eq!(formats.styled_count(), 0);
}

fn fill(r: u8) -> CellFormat {
    CellFormat { fill: Some(Rgba::from_rgb(r, 0, 0)), ..CellFormat::default() }
}

#[test]
fn a_coalesced_colour_drag_undoes_at_once() {
    let mut formats: FormatMap<(u32, u32)> = FormatMap::new();
    let mut history: History<Action<u32>> = History::new();
    let cells = vec![(0, 0), (1, 0)];
    // Three frames of a colour drag over the same two cells.
    let mut last: Vec<(u32, u32)> = Vec::new();
    for r in [10u8, 20, 30] {
        let edits = restyle(&mut formats, &cells, |_, f: CellFormat| CellFormat { fill: fill(r).fill, ..f });
        let touched = touched_cells(&edits);
        let coalesce = same_cells(&touched, &last);
        record_format_edits(&mut history, edits, coalesce);
        last = touched;
    }
    assert_eq!(formats.get((0, 0)), fill(30));
    // One undo step takes the whole drag back.
    match history.undo() {
        Some(Action::Formats(edits)) => {
            assert_eq!(edits.len(), 2);
            assert_eq!(edits[0].before, CellFormat::default());
            assert_eq!(edits[0].after, fill(30));
            undo_format_edits(&mut formats, &edits);
        }
        _ => panic!("expected a format step"),
    }
    assert_eq!(formats.styled_count(), 0);
    assert!(!history.can_undo());
}

#[test]
fn a_format_batch_on_a_cell_step_is_not_merged() {
    let mut history: History<Action<u32>> = History::new();
    history.record(Action::Cells(vec![CellEdit {
        sheet: 0,
        addr: "A1".to_string(),
        before: None,
        after: Some("1".to_string()),
    }]));
    let edits = vec![FormatEdit { cell: (0, 0), before: CellFormat::default(), after: fill(1) }];
    record_format_edits(&mut history, edits, true);
    match history.undo() {
        Some(Action::Formats(e)) => assert_eq!(e.len(), 1),
        _ => panic!("expected the format step on top"),
    }
    assert!(matches!(history.undo(), Some(Action::Cells(_))));
}

#[test]
fn hex_format_batches_coalesce_too() {
    let mut history: History<Action<u32>> = History::new();
    let h = HexCoord::new(0, 0);
    let first = vec![HexFormatEdit { cell: h, before: CellFormat::default(), after: fill(1) }];
    let second = vec![HexFormatEdit { cell: h, before: fill(1), after: fill(2) }];
    record_hex_format_edits(&mut history, first, false);
    record_hex_format_edits(&mut history, second, true);
    match history.undo() {
        Some(Action::HexFormats(e)) => {
            assert_eq!(e.len(), 1);
            assert_eq!(e[0].before, CellFormat::default());
            assert_eq!(e[0].after, fill(2));
        }
        _ => panic!("expected a hex format step"),
    }
    assert!(!history.can_undo());
}

#[test]
fn same_cells_compares_in_order() {
    assert!(same_cells(&vec![(0, 0), (1, 2)], &vec![(0, 0), (1, 2)]));
    assert!(!same_cells(&vec![(0, 0), (1, 2)], &vec![(1, 2), (0, 0)]));
    assert!(!same_cells(&vec![(0, 0)], &Vec::new()));
}

#[test]
fn cell_edits_drop_writes_that_change_nothing() {
    let writes = vec![
        ("A1".to_string(), Some("1".to_string())),
        ("B1".to_string(), None),
        ("C1".to_string(), Some("=A1".to_string())),
    ];
    let befores = vec![Some("1".to_string()), Some("x".to_string()), None];
    let edits = cell_edits(7u32, &writes, &befores);
    assert_eq!(edits.len(), 2);
    assert_eq!(edits[0].addr, "B1");
    assert_eq!(edits[0].before.as_deref(), Some("x"));
    assert_eq!(edits[0].after, None);
    assert_eq!(edits[1].addr, "C1");
    assert_eq!(edits[1].sheet, 7);
    assert_eq!(edits[1].before, None);
}

#[test]
fn an_empty_batch_of_cell_edits_records_nothing() {
    let mut history: History<Action<u32>> = History::new();
    record_cell_edits(&mut history, Vec::new());
    assert!(!history.can_undo());
    let edits = cell_edits(0u32, &vec![("A1".to_string(), Some("2".to_string()))], &vec![None]);
    record_cell_edits(&mut history, edits);
    assert!(history.can_undo());
}

#[test]
fn same_source_compares_text_and_emptiness() {
    assert!(same_source(&None, &None));
    assert!(same_source(&Some("a".to_string()), &Some("a".to_string())));
    assert!(!same_source(&Some("a".to_string()), &Some("b".to_string())));
    assert!(!same_source(&Some(String::new()), &None));
}
