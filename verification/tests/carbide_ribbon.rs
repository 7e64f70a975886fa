use tescellate_ui::carbide::conditional::swap_for_move;
use tescellate_ui::carbide::ribbon::{number_format_label, number_formats};
use tescellate_ui::format::NumberFormat;

#[test]
fn ribbon_number_format_label_ignores_decimal_places() {
    assert_eq!(number_format_label(NumberFormat::General), "General");
    assert_eq!(number_format_label(NumberFormat::Number { decimals: 2 }), "Number");
    assert_eq!(number_format_label(NumberFormat::Number { decimals: 5 }), "Number");
    assert_eq!(number_format_label(NumberFormat::Percent { decimals: 0 }), "Percent");
    assert_eq!(number_format_label(NumberFormat::Currency), "Currency");
}

#[test]
fn ribbon_number_formats_list_starts_with_general() {
    let list = number_formats();
    assert_eq!(list.len(), 9);
    assert_eq!(list[0].0, NumberFormat::General);
}

#[test]
fn ribbon_every_listed_format_matches_its_label() {
    for (format, label) in number_formats() {
        assert_eq!(number_format_label(format), label);
    }
}

#[test]
fn swap_for_move_finds_the_neighbour_or_stops_at_the_end() {
    assert_eq!(swap_for_move(4, 2, true), Some((2, 1)));
    assert_eq!(swap_for_move(4, 2, false), Some((2, 3)));
    assert_eq!(swap_for_move(4, 0, true), None);
    assert_eq!(swap_for_move(4, 3, false), None);
    assert_eq!(swap_for_move(1, 0, true), None);
    assert_eq!(swap_for_move(1, 0, false), None);
    assert_eq!(swap_for_move(3, 9, true), None);
}

#[test]
fn moving_a_rule_up_then_down_is_the_same_swap() {
    let up = swap_for_move(5, 3, true).unwrap();
    let down = swap_for_move(5, up.1, false).unwrap();
    assert_eq!(down, (up.1, up.0));
}
