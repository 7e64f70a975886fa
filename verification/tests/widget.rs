use tescellate_ui::widget::{bool_source, WidgetKind, Widgets};

#[test]
fn set_and_query_widget_cells() {
    let mut w: Widgets<f64> = Widgets::default();
    assert!(w.is_empty());
    w.set_toggle((2, 3), true);
    // A slider over the default range.
    w.set_slider((5, 1), 0.0, 100.0);
    assert!(w.is_toggle((2, 3)));
    assert!(w.is_slider((5, 1)));
    assert!(!w.is_toggle((5, 1)));
    assert!(!w.is_slider((2, 3)));
    assert_eq!(w.count(), 2);
    assert!(!w.is_empty());
    w.set((2, 3), None);
    assert!(!w.is_widget((2, 3)));
    assert_eq!(w.count(), 1);
}

#[test]
fn set_replaces_the_existing_kind() {
    let mut w: Widgets<f64> = Widgets::default();
    w.set_toggle((0, 0), true);
    w.set_slider((0, 0), 0.0, 100.0);
    assert!(!w.is_toggle((0, 0)));
    assert!(w.is_slider((0, 0)));
    assert_eq!(w.count(), 1);
}

#[test]
fn set_and_query_button() {
    let mut w: Widgets<f64> = Widgets::default();
    w.set_button((1, 1), true);
    assert!(w.is_button((1, 1)));
    assert!(!w.is_toggle((1, 1)));
    assert!(!w.is_slider((1, 1)));
    assert!(w.is_widget((1, 1)));
    w.set_button((1, 1), false);
    assert!(!w.is_widget((1, 1)));
}

#[test]
fn a_slider_hands_back_its_range() {
    let mut w: Widgets<f64> = Widgets::default();
    w.set_slider((4, 2), -5.0, 5.0);
    assert_eq!(w.kind((4, 2)), Some(WidgetKind::Slider { min: -5.0, max: 5.0 }));
    assert_eq!(w.kind((2, 4)), None);
}

#[test]
fn clearing_a_cell_without_a_widget_changes_nothing() {
    let mut w: Widgets<f64> = Widgets::default();
    w.set_toggle((1, 0), true);
    w.set_toggle((0, 1), false);
    assert_eq!(w.count(), 1);
    assert!(w.is_toggle((1, 0)));
    let copy = w.clone();
    assert_eq!(copy.count(), 1);
    assert!(copy.is_toggle((1, 0)));
}

#[test]
fn bool_source_round_trips_the_checkbox_state() {
    assert_eq!(bool_source(true), "TRUE");
    assert_eq!(bool_source(false), "FALSE");
}

#[test]
fn toggling_a_selection_follows_the_all_or_nothing_rule() {
    let mut w: Widgets<f64> = Widgets::default();
    let cells = vec![(0, 0), (0, 1)];
    w.set_toggle((0, 0), true);
    w.set_button((5, 5), true);
    // Not every cell is a checkbox yet: all become checkboxes.
    w.toggle_cells(&cells);
    assert!(w.is_toggle((0, 0)));
    assert!(w.is_toggle((0, 1)));
    // Now every cell is one: all are cleared.
    w.toggle_cells(&cells);
    assert!(!w.is_widget((0, 0)));
    assert!(!w.is_widget((0, 1)));
    // Cells outside the selection keep their widgets.
    assert!(w.is_button((5, 5)));
}
