use tescellate_ui::lattice::HexCoord;
use tescellate_ui::note::NoteMap;

#[test]
fn set_get_and_has() {
    let mut m: NoteMap<(u32, u32)> = NoteMap::new();
    assert!(!m.has((1, 1)));
    assert_eq!(m.get((1, 1)), "");
    m.set((1, 1), "check this");
    assert!(m.has((1, 1)));
    assert_eq!(m.get((1, 1)), "check this");
    assert_eq!(m.count(), 1);
}

#[test]
fn blank_text_removes_the_note() {
    let mut m: NoteMap<(u32, u32)> = NoteMap::new();
    m.set((2, 3), "temporary");
    assert!(m.has((2, 3)));
    m.set((2, 3), "   ");
    assert!(!m.has((2, 3)));
    assert_eq!(m.count(), 0);
}

#[test]
fn set_overwrites_an_existing_note() {
    let mut m: NoteMap<(u32, u32)> = NoteMap::new();
    m.set((0, 0), "first");
    m.set((0, 0), "second");
    assert_eq!(m.get((0, 0)), "second");
    assert_eq!(m.count(), 1);
}

#[test]
fn works_with_a_hex_key() {
    let mut m: NoteMap<HexCoord> = NoteMap::new();
    m.set(HexCoord::new(1, -2), "hex note");
    assert!(m.has(HexCoord::new(1, -2)));
    assert_eq!(m.get(HexCoord::new(0, 0)), "");
}

#[test]
fn setting_one_cell_leaves_the_others() {
    let mut m: NoteMap<(u32, u32)> = NoteMap::new();
    m.set((0, 0), "a");
    m.set((5, 5), "b");
    m.set((0, 0), "");
    assert_eq!(m.get((5, 5)), "b");
    assert_eq!(m.count(), 1);
}
