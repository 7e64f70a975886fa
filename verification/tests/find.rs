use tescellate_ui::find::{cell_matches, FindState};

fn sheet() -> Vec<((u32, u32), String)> {
    vec![
        ((0, 0), "apple".to_string()),
        ((1, 0), "banana".to_string()),
        ((0, 1), "Apricot".to_string()),
        ((1, 1), "cherry".to_string()),
    ]
}

fn searching(query: &str) -> FindState {
    let mut f = FindState::default();
    f.query = query.to_string();
    f
}

#[test]
fn cell_matches_is_a_case_insensitive_substring() {
    assert!(cell_matches("ab", "xxABzz"));
    assert!(cell_matches("HELLO", "hello world"));
    assert!(cell_matches("7", "1700"));
    assert!(!cell_matches("qq", "hello"));
    assert!(!cell_matches("", "anything"));
}

#[test]
fn refresh_collects_matching_cells_in_order() {
    let mut f = searching("ap");
    f.refresh(sheet());
    assert_eq!(f.match_count(), 2);
    assert_eq!(f.current_match(), Some((0, 0)));
    assert_eq!(f.current_index(), 1);
    assert!(f.is_match((0, 1)));
    assert!(!f.is_match((1, 1)));
}

#[test]
fn step_wraps_in_both_directions() {
    let mut f = searching("a");
    f.refresh(sheet());
    assert_eq!(f.match_count(), 3);
    assert_eq!(f.current_match(), Some((0, 0)));
    assert_eq!(f.step(true), Some((1, 0)));
    assert_eq!(f.step(true), Some((0, 1)));
    assert_eq!(f.step(true), Some((0, 0)));
    assert_eq!(f.step(false), Some((0, 1)));
}

#[test]
fn no_matches_yields_nothing() {
    let mut f = searching("zzz");
    f.refresh(sheet());
    assert_eq!(f.match_count(), 0);
    assert_eq!(f.current_match(), None);
    assert_eq!(f.current_index(), 0);
    assert_eq!(f.step(true), None);
    assert!(!f.is_match((0, 0)));
}

#[test]
fn stepping_forward_then_back_returns_to_the_same_match() {
    let mut f = searching("a");
    f.refresh(sheet());
    let start = f.current_match();
    f.step(true);
    assert_eq!(f.step(false), start);
}

#[test]
fn clear_forgets_the_query_and_the_matches() {
    let mut f = searching("a");
    f.refresh(sheet());
    f.clear();
    assert_eq!(f.query, "");
    assert_eq!(f.match_count(), 0);
    assert_eq!(f.current_match(), None);
}

#[test]
fn a_whitespace_query_matches_nothing() {
    assert!(!cell_matches("   ", "a b c"));
}
