use tescellate_ui::history::History;

#[test]
fn a_fresh_history_has_nothing_to_undo_or_redo() {
    let h: History<i32> = History::new();
    assert!(!h.can_undo());
    assert!(!h.can_redo());
}

#[test]
fn record_then_walk_the_undo_and_redo_stacks() {
    let mut h: History<i32> = History::new();
    h.record(1);
    h.record(2);
    assert!(h.can_undo());
    assert_eq!(h.undo(), Some(2));
    assert_eq!(h.undo(), Some(1));
    assert_eq!(h.undo(), None);
    assert!(!h.can_undo());
    assert!(h.can_redo());
    assert_eq!(h.redo(), Some(1));
    assert_eq!(h.redo(), Some(2));
    assert_eq!(h.redo(), None);
    assert!(h.can_undo());
}

#[test]
fn recording_a_new_action_clears_the_redo_future() {
    let mut h: History<i32> = History::new();
    h.record(1);
    h.record(2);
    h.undo();
    assert!(h.can_redo());
    h.record(99);
    assert!(!h.can_redo());
    assert_eq!(h.undo(), Some(99));
    assert_eq!(h.undo(), Some(1));
}

#[test]
fn an_undo_can_be_redone_then_undone_again() {
    let mut h: History<&str> = History::new();
    h.record("edit");
    assert_eq!(h.undo(), Some("edit"));
    assert_eq!(h.redo(), Some("edit"));
    assert_eq!(h.undo(), Some("edit"));
    assert!(h.can_redo());
}

#[test]
fn pop_undo_drops_the_entry_without_a_redo() {
    let mut h: History<i32> = History::new();
    h.record(5);
    assert_eq!(h.pop_undo(), Some(5));
    assert!(!h.can_undo());
    assert!(!h.can_redo());
}

#[test]
fn clear_empties_both_stacks() {
    let mut h: History<i32> = History::new();
    h.record(1);
    h.record(2);
    h.undo();
    h.clear();
    assert!(!h.can_undo());
    assert!(!h.can_redo());
}

#[test]
fn record_then_undo_gives_the_entry_back() {
    let mut h: History<i32> = History::default();
    h.record(7);
    assert_eq!(h.undo(), Some(7));
}
