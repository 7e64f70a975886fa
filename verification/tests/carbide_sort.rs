use std::cmp::Ordering;

use tescellate_ui::carbide::sort::{compare_values, row_order, sorted_sources, SortKey};

/// A number's key: the integer `f64::total_cmp` orders it by.
fn num(n: f64) -> SortKey {
    let bits = n.to_bits() as i64;
    SortKey::Number(bits ^ ((((bits >> 63) as u64) >> 1) as i64))
}

fn integer(i: i64) -> SortKey {
    num(i as f64)
}

fn text(s: &str) -> SortKey {
    SortKey::Text(s.to_string())
}

#[test]
fn numbers_compare_numerically() {
    assert_eq!(compare_values(&num(2.0), &num(10.0)), Ordering::Less);
    assert_eq!(compare_values(&num(10.0), &num(2.0)), Ordering::Greater);
    // An Integer and a Number of equal value compare equal.
    assert_eq!(compare_values(&integer(5), &num(5.0)), Ordering::Equal);
}

#[test]
fn numbers_sort_before_text() {
    assert_eq!(compare_values(&num(999.0), &text("a")), Ordering::Less);
    assert_eq!(compare_values(&text("a"), &num(999.0)), Ordering::Greater);
}

#[test]
fn text_compares_lexically() {
    assert_eq!(compare_values(&text("apple"), &text("banana")), Ordering::Less);
    assert_eq!(compare_values(&text("zed"), &text("apple")), Ordering::Greater);
}

#[test]
fn bools_then_blanks_rank_last() {
    assert_eq!(
        compare_values(&SortKey::Bool(false), &SortKey::Bool(true)),
        Ordering::Less,
    );
    assert_eq!(compare_values(&text("z"), &SortKey::Bool(false)), Ordering::Less);
    assert_eq!(compare_values(&SortKey::Bool(true), &SortKey::Other), Ordering::Less);
}

#[test]
fn row_order_sorts_indices_by_their_keys() {
    let keys = [num(30.0), num(10.0), num(20.0)];
    assert_eq!(row_order(&keys, true), vec![1, 2, 0]);
    assert_eq!(row_order(&keys, false), vec![0, 2, 1]);
}

#[test]
fn row_order_is_stable_for_equal_keys() {
    let keys = [num(5.0), text("a"), num(5.0), text("b")];
    let asc = row_order(&keys, true);
    let p0 = asc.iter().position(|&i| i == 0).unwrap();
    let p2 = asc.iter().position(|&i| i == 2).unwrap();
    assert!(p0 < p2);
    let desc = row_order(&keys, false);
    let d0 = desc.iter().position(|&i| i == 0).unwrap();
    let d2 = desc.iter().position(|&i| i == 2).unwrap();
    assert!(d0 < d2);
}

#[test]
fn row_order_of_no_keys_is_empty() {
    assert!(row_order(&[], true).is_empty());
}

#[test]
fn negative_numbers_and_zero_sort_numerically() {
    assert_eq!(compare_values(&num(-3.5), &num(-1.0)), Ordering::Less);
    assert_eq!(compare_values(&num(-1.0), &num(0.0)), Ordering::Less);
    assert_eq!(compare_values(&num(0.25), &num(-7.0)), Ordering::Greater);
}

#[test]
fn a_prefix_sorts_before_the_longer_text() {
    assert_eq!(compare_values(&text("app"), &text("apple")), Ordering::Less);
    assert_eq!(compare_values(&text("apple"), &text("apple")), Ordering::Equal);
    assert_eq!(compare_values(&text(""), &text("a")), Ordering::Less);
}

#[test]
fn blanks_compare_equal_and_keep_their_rows() {
    assert_eq!(compare_values(&SortKey::Other, &SortKey::Other), Ordering::Equal);
    let keys = [SortKey::Other, num(1.0), SortKey::Other, text("x")];
    assert_eq!(row_order(&keys, true), vec![1, 3, 0, 2]);
    assert_eq!(row_order(&keys, false), vec![0, 2, 3, 1]);
}

#[test]
fn a_sorted_column_moves_sources_with_their_rows() {
    let keys = [num(30.0), num(10.0), num(20.0)];
    let order = row_order(&keys, true);
    let sources = vec!["=A1*3".to_string(), String::new(), "x".to_string()];
    assert_eq!(
        sorted_sources(&sources, &order),
        vec![None, Some("x".to_string()), Some("=A1*3".to_string())],
    );
}
