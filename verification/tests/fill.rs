use tescellate_ui::fill::{
    fill_axis, fill_drag_step, fill_lanes, fill_plan, FillAxis, FillDrag, FillSlot, SeedCell,
};

use FillSlot::{Empty, Repeat, Step};
use SeedCell::{Number, Other};

#[test]
fn a_numeric_seed_continues_step_by_step() {
    // Seed 1, 2 extended by 3: the first, second and third step past 2.
    assert_eq!(fill_plan(&[Number, Number], 3), vec![Step(1), Step(2), Step(3)]);
}

#[test]
fn a_text_seed_repeats_cyclically() {
    assert_eq!(
        fill_plan(&[Other, Other], 5),
        vec![Repeat(0), Repeat(1), Repeat(0), Repeat(1), Repeat(0)],
    );
}

#[test]
fn any_non_numeric_seed_cell_falls_back_to_repeating() {
    assert_eq!(fill_plan(&[Number, Other], 4), vec![Repeat(0), Repeat(1), Repeat(0), Repeat(1)]);
}

#[test]
fn a_single_seed_value_is_copied() {
    assert_eq!(fill_plan(&[Other], 3), vec![Repeat(0), Repeat(0), Repeat(0)]);
    // One number is not enough to find a step.
    assert_eq!(fill_plan(&[Number], 3), vec![Repeat(0), Repeat(0), Repeat(0)]);
}

#[test]
fn nothing_to_fill_gives_an_empty_plan() {
    assert!(fill_plan(&[Number, Number], 0).is_empty());
}

#[test]
fn an_empty_seed_leaves_every_cell_empty() {
    assert_eq!(fill_plan(&[], 3), vec![Empty, Empty, Empty]);
}

#[test]
fn blanks_in_a_numeric_seed_stay_blank_in_the_extension() {
    // Seed 1, _, 3: the blank recurs at every third cell and the numbers
    // keep counting steps past the last one.
    assert_eq!(
        fill_plan(&[Number, SeedCell::Empty, Number], 5),
        vec![Step(1), Empty, Step(2), Step(3), Empty],
    );
}

#[test]
fn a_drag_fills_down_before_right() {
    let original = ((1, 1), (2, 3));
    assert_eq!(fill_axis(original, ((1, 1), (2, 6))), Some(FillAxis::Down));
    assert_eq!(fill_axis(original, ((1, 1), (4, 3))), Some(FillAxis::Right));
    assert_eq!(fill_axis(original, original), None);
    assert_eq!(fill_axis(original, ((1, 1), (1, 2))), None);
}

#[test]
fn fill_lanes_run_along_the_drag() {
    let original = ((1, 1), (2, 2));
    let down = fill_lanes(original, FillAxis::Down, 2);
    assert_eq!(down.len(), 2);
    assert_eq!(down[0], (vec![(1, 1), (1, 2)], vec![(1, 3), (1, 4)]));
    assert_eq!(down[1], (vec![(2, 1), (2, 2)], vec![(2, 3), (2, 4)]));
    let right = fill_lanes(original, FillAxis::Right, 1);
    assert_eq!(right, vec![
        (vec![(1, 1), (2, 1)], vec![(3, 1)]),
        (vec![(1, 2), (2, 2)], vec![(3, 2)]),
    ]);
}

#[test]
fn a_fill_drag_locks_to_the_first_axis_it_leaves_along() {
    let start = FillDrag { original: ((1, 1), (2, 2)), axis: None };
    // Still inside the block: nothing locks, the cursor stays in it.
    let (d, cur) = fill_drag_step(start, (0, 2));
    assert_eq!(d.axis, None);
    assert_eq!(cur, (1, 2));
    // Past the bottom edge only: locks down; the column stays in the block.
    let (d, cur) = fill_drag_step(start, (2, 5));
    assert_eq!(d.axis, Some(FillAxis::Down));
    assert_eq!(cur, (2, 5));
    // Once locked, a wobble to the right keeps going down.
    let (d2, cur) = fill_drag_step(d, (6, 4));
    assert_eq!(d2.axis, Some(FillAxis::Down));
    assert_eq!(cur, (2, 4));
    // Past both edges: the farther one wins, down on a tie.
    assert_eq!(fill_drag_step(start, (5, 4)).0.axis, Some(FillAxis::Right));
    assert_eq!(fill_drag_step(start, (4, 4)).0.axis, Some(FillAxis::Down));
    // Locked right, the row is held to the block.
    let right = FillDrag { original: ((1, 1), (2, 2)), axis: Some(FillAxis::Right) };
    assert_eq!(fill_drag_step(right, (0, 9)).1, (1, 2));
}
