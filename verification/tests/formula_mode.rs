use tescellate_ui::formula_mode::{
    click_insert, dispatch, drag_extend, drag_start, event_from_response, is_formula_buffer,
    DragState, Event,
};

fn square_addr((c, r): (u32, u32)) -> String {
    format!("{}{}", (b'A' + c as u8) as char, r + 1)
}

#[test]
fn click_insert_appends_a_single_cell_reference() {
    let mut buf = String::from("=");
    let mut fresh = false;
    let h = click_insert(&mut buf, &mut fresh, (1u32, 2u32), square_addr);
    assert_eq!(buf, "=B3");
    assert!(fresh);
    assert_eq!(h.start, h.end);
    assert_eq!(h.start, (1, 2));
}

#[test]
fn drag_start_anchors_at_the_buffer_end_and_appends_the_start_cell() {
    let mut buf = String::from("=SUM(");
    let mut fresh = false;
    let (drag, h) = drag_start(&mut buf, &mut fresh, (0u32, 0u32), square_addr);
    assert_eq!(buf, "=SUM(A1");
    assert!(fresh);
    assert_eq!(drag.buffer_anchor, "=SUM(".len());
    assert_eq!(h.start, h.end);
}

#[test]
fn drag_extend_overwrites_the_range_from_the_anchor() {
    let mut buf = String::from("=SUM(A1");
    let mut fresh = false;
    let drag = DragState { start: (0u32, 0u32), buffer_anchor: "=SUM(".len() };
    let h = drag_extend(&mut buf, &mut fresh, &drag, (2, 3), square_addr);
    assert_eq!(buf, "=SUM(A1:C4");
    assert!(fresh);
    assert_eq!(h.start, (0, 0));
    assert_eq!(h.end, (2, 3));
}

#[test]
fn drag_extend_collapses_to_a_single_cell_when_the_pointer_hasnt_moved() {
    let mut buf = String::from("=SUM(A1");
    let mut fresh = false;
    let drag = DragState { start: (0u32, 0u32), buffer_anchor: "=SUM(".len() };
    let h = drag_extend(&mut buf, &mut fresh, &drag, (0, 0), square_addr);
    assert_eq!(buf, "=SUM(A1");
    assert_eq!(h.start, h.end);
}

#[test]
fn is_formula_buffer_recognises_an_equals_prefix_and_tolerates_leading_whitespace() {
    assert!(is_formula_buffer("=A1+B2"));
    assert!(is_formula_buffer("  =A1"));
    assert!(!is_formula_buffer(""));
    assert!(!is_formula_buffer("123"));
    assert!(!is_formula_buffer("hello"));
    assert!(!is_formula_buffer(" hello"));
}

#[test]
fn dispatch_noop_when_not_formula() {
    let mut buf = String::from("hello");
    let mut fresh = false;
    let (drag, h) = dispatch(&mut buf, &mut fresh, None, Event::Clicked((1u32, 2u32)), square_addr);
    assert_eq!(drag, None);
    assert_eq!(h, None);
    assert_eq!(buf, "hello");
    assert!(!fresh);
}

#[test]
fn dispatch_drag_started_calls_drag_start() {
    let mut buf = String::from("=SUM(");
    let mut fresh = false;
    let (drag, h) =
        dispatch(&mut buf, &mut fresh, None, Event::DragStarted((0u32, 0u32)), square_addr);
    assert!(drag.is_some());
    assert!(h.is_some());
    assert_eq!(buf, "=SUM(A1");
    assert!(fresh);
}

#[test]
fn dispatch_dragged_calls_drag_extend() {
    let mut buf = String::from("=SUM(A1");
    let mut fresh = false;
    let current = Some(DragState { start: (0u32, 0u32), buffer_anchor: "=SUM(".len() });
    let (drag, h) = dispatch(&mut buf, &mut fresh, current, Event::Dragged((2, 3)), square_addr);
    assert!(drag.is_some());
    assert!(h.is_some());
    assert_eq!(buf, "=SUM(A1:C4");
}

#[test]
fn dispatch_clicked_calls_click_insert() {
    let mut buf = String::from("=");
    let mut fresh = false;
    let (drag, h) = dispatch(&mut buf, &mut fresh, None, Event::Clicked((1u32, 2u32)), square_addr);
    assert_eq!(drag, None);
    assert!(h.is_some());
    assert_eq!(buf, "=B3");
}

#[test]
fn dispatch_drag_stopped_clears_drag() {
    let mut buf = String::from("=SUM(A1:C4");
    let mut fresh = false;
    let current = Some(DragState { start: (0u32, 0u32), buffer_anchor: "=SUM(".len() });
    let (drag, h) = dispatch(&mut buf, &mut fresh, current, Event::DragStopped, square_addr);
    assert_eq!(drag, None, "drag_stopped clears the in-flight drag");
    assert_eq!(h, None);
    assert_eq!(buf, "=SUM(A1:C4");
}

#[test]
fn dispatch_idle_returns_no_change() {
    let mut buf = String::from("=");
    let mut fresh = false;
    let (drag, h) = dispatch(&mut buf, &mut fresh, None, Event::Idle, square_addr);
    assert_eq!(drag, None);
    assert_eq!(h, None);
    assert_eq!(buf, "=");
}

#[test]
fn event_from_response_clicked_returns_clicked() {
    let e: Event<(u32, u32)> = event_from_response(true, false, false, false, Some((1, 2)));
    assert_eq!(e, Event::Clicked((1, 2)));
}

#[test]
fn event_from_response_drag_started_returns_drag_started() {
    let e: Event<(u32, u32)> = event_from_response(false, true, false, false, Some((0, 0)));
    assert_eq!(e, Event::DragStarted((0, 0)));
}

#[test]
fn event_from_response_dragged_returns_dragged() {
    let e: Event<(u32, u32)> = event_from_response(false, false, true, false, Some((3, 4)));
    assert_eq!(e, Event::Dragged((3, 4)));
}

#[test]
fn event_from_response_drag_stopped_returns_drag_stopped() {
    let e: Event<(u32, u32)> = event_from_response(false, false, false, true, None);
    assert_eq!(e, Event::DragStopped);
}

#[test]
fn event_from_response_no_flags_returns_idle() {
    let e: Event<(u32, u32)> = event_from_response(false, false, false, false, Some((1, 1)));
    assert_eq!(e, Event::Idle);
}

#[test]
fn event_from_response_no_cell_under_pointer_falls_back() {
    let e: Event<(u32, u32)> = event_from_response(true, false, false, false, None);
    assert_eq!(e, Event::Idle);
}

#[test]
fn a_drag_start_then_extend_rewrites_only_the_reference() {
    let mut buf = String::from("=MAX(");
    let mut fresh = false;
    let (drag, _) = drag_start(&mut buf, &mut fresh, (1u32, 1u32), square_addr);
    drag_extend(&mut buf, &mut fresh, &drag, (3, 1), square_addr);
    assert_eq!(buf, "=MAX(B2:D2");
    drag_extend(&mut buf, &mut fresh, &drag, (1, 4), square_addr);
    assert_eq!(buf, "=MAX(B2:B5");
    drag_extend(&mut buf, &mut fresh, &drag, (1, 1), square_addr);
    assert_eq!(buf, "=MAX(B2");
}

#[test]
fn a_drag_anchor_counts_bytes_not_characters() {
    let mut buf = String::from("=\u{00e9}(");
    let mut fresh = false;
    let (drag, _) = drag_start(&mut buf, &mut fresh, (0u32, 0u32), square_addr);
    assert_eq!(drag.buffer_anchor, 4);
    drag_extend(&mut buf, &mut fresh, &drag, (1, 1), square_addr);
    assert_eq!(buf, "=\u{00e9}(A1:B2");
}

#[test]
fn a_dragged_event_without_a_start_inserts_the_cell() {
    let mut buf = String::from("=");
    let mut fresh = false;
    let (drag, h) = dispatch(&mut buf, &mut fresh, None, Event::Dragged((0u32, 1u32)), square_addr);
    assert_eq!(drag, None);
    assert_eq!(buf, "=A2");
    assert_eq!(h.map(|h| (h.start, h.end)), Some(((0, 1), (0, 1))));
}

#[test]
fn an_unused_drag_anchor_may_lie_anywhere() {
    // The carried drag's anchor is past the buffer's end, but an idle
    // frame, a stopped drag and a buffer that is no formula never use it.
    let stale = Some(DragState { start: (0u32, 0u32), buffer_anchor: 99 });
    let mut buf = String::from("=A1");
    let mut fresh = false;
    let (drag, h) = dispatch(&mut buf, &mut fresh, stale, Event::Idle, square_addr);
    assert_eq!(drag, stale);
    assert_eq!(h, None);
    assert_eq!(buf, "=A1");
    assert!(!fresh);
    let (drag, h) = dispatch(&mut buf, &mut fresh, stale, Event::DragStopped, square_addr);
    assert_eq!(drag, None);
    assert_eq!(h, None);
    let mut text = String::from("plain");
    let (drag, h) = dispatch(&mut text, &mut fresh, stale, Event::Dragged((1, 1)), square_addr);
    assert_eq!(drag, stale);
    assert_eq!(h, None);
    assert_eq!(text, "plain");
}
