use tescellate_ui::clipboard::{copied_cell, tsv_block, Clipboard, CopiedCell};
use tescellate_ui::lattice::HexCoord;

/// A formula cell: a source plus the value it evaluates to.
fn formula(source: &str, value: &str) -> CopiedCell {
    CopiedCell {
        source: Some(source.to_string()),
        value: Some(value.to_string()),
    }
}

#[test]
fn a_default_clipboard_is_empty() {
    let c = Clipboard::default();
    assert!(c.is_empty());
    assert_eq!(c.dimensions(), (0, 0));
    assert_eq!(c.entries().len(), 0);
}

#[test]
fn capture_records_dimensions_and_entries() {
    let cells = vec![
        formula("=1", "1"),
        CopiedCell::default(),
        formula("=2", "2"),
        formula("=3", "3"),
    ];
    let c = Clipboard::capture(2, 2, cells, false);
    assert!(!c.is_empty());
    assert_eq!(c.dimensions(), (2, 2));
    let got = c.entries();
    assert_eq!(got.len(), 4);
    assert_eq!(got[0].0, 0);
    assert_eq!(got[0].1, 0);
    assert_eq!(got[1], (1, 0, &CopiedCell::default()));
    assert_eq!(got[3].2.source.as_deref(), Some("=3"));
}

#[test]
fn same_lattice_paste_keeps_the_source() {
    let c = Clipboard::capture(1, 1, vec![formula("=SUM(B2:B4)", "60")], false);
    let entries = c.entries();
    let (.., cell) = entries[0];
    assert_eq!(c.source_for(cell, false), Some("=SUM(B2:B4)".to_string()),);
}

#[test]
fn cross_lattice_paste_degrades_to_the_value() {
    let c = Clipboard::capture(1, 1, vec![formula("=SUM(B2:B4)", "60")], false);
    let entries = c.entries();
    let (.., cell) = entries[0];
    assert_eq!(c.source_for(cell, true), Some("60".to_string()));

    let h = Clipboard::capture(1, 1, vec![formula("=H(1,0)", "12")], true);
    let hentries = h.entries();
    let (.., hcell) = hentries[0];
    assert_eq!(h.source_for(hcell, false), Some("12".to_string()));
    assert_eq!(h.source_for(hcell, true), Some("=H(1,0)".to_string()));
}

#[test]
fn entries_walk_the_block_row_major() {
    let cells = vec![
        formula("=1", "1"),
        formula("=2", "2"),
        formula("=3", "3"),
        formula("=4", "4"),
        formula("=5", "5"),
        formula("=6", "6"),
    ];
    let c = Clipboard::capture(3, 2, cells, false);
    let got: Vec<(u32, u32)> = c.entries().iter().map(|(x, y, _)| (*x, *y)).collect();
    assert_eq!(got, vec![(0, 0), (1, 0), (2, 0), (0, 1), (1, 1), (2, 1)]);
    assert_eq!(c.entries()[4].2.source.as_deref(), Some("=5"));
}

#[test]
fn a_blank_cell_pastes_as_nothing_on_either_lattice() {
    let c = Clipboard::capture(1, 1, vec![CopiedCell::default()], false);
    let entries = c.entries();
    let (.., cell) = entries[0];
    assert_eq!(c.source_for(cell, false), None);
    assert_eq!(c.source_for(cell, true), None);
}

#[test]
fn a_square_paste_drops_what_falls_off_the_grid() {
    let cells = vec![
        CopiedCell { source: Some("=1".to_string()), value: Some("1".to_string()) },
        CopiedCell { source: Some("a".to_string()), value: Some("a".to_string()) },
        CopiedCell::default(),
        CopiedCell { source: Some("=2".to_string()), value: Some("2".to_string()) },
    ];
    let clip = Clipboard::capture(2, 2, cells, false);
    // At the last column only the left column of the block fits.
    let (writes, far) = clip.square_paste((51, 0));
    assert_eq!(
        writes,
        vec![((51, 0), Some("=1".to_string())), ((51, 1), None)],
    );
    assert_eq!(far, (51, 1));
    // In the open the whole block lands, sources and all.
    let (writes, far) = clip.square_paste((3, 4));
    assert_eq!(writes.len(), 4);
    assert_eq!(writes[1], ((4, 4), Some("a".to_string())));
    assert_eq!(writes[3], ((4, 5), Some("=2".to_string())));
    assert_eq!(far, (4, 5));
}

#[test]
fn a_hex_paste_of_a_square_block_writes_values_inside_the_view() {
    let cells = vec![
        CopiedCell { source: Some("=B2".to_string()), value: Some("7".to_string()) },
        CopiedCell { source: Some("x".to_string()), value: Some("x".to_string()) },
    ];
    let clip = Clipboard::capture(2, 1, cells, false);
    let (writes, far) = clip.hex_paste(HexCoord::new(3, 0));
    // (4, 0) lies outside the view disc of radius 3.
    assert_eq!(writes, vec![(HexCoord::new(3, 0), Some("7".to_string()))]);
    assert_eq!(far, HexCoord::new(4, 0));
}

#[test]
fn a_copied_block_becomes_tab_separated_text() {
    let rows = vec![
        vec!["1".to_string(), "a b".to_string()],
        vec![String::new(), "=x".to_string()],
    ];
    assert_eq!(tsv_block(&rows), "1\ta b\n\t=x\n");
    assert_eq!(tsv_block(&vec![vec!["only".to_string()]]), "only\n");
    assert_eq!(tsv_block(&Vec::new()), "");
}

#[test]
fn a_copied_cell_drops_an_empty_value() {
    let c = copied_cell(Some("=1+1".to_string()), "2".to_string());
    assert_eq!(c.source.as_deref(), Some("=1+1"));
    assert_eq!(c.value.as_deref(), Some("2"));
    let blank = copied_cell(None, String::new());
    assert_eq!(blank, CopiedCell::default());
}
