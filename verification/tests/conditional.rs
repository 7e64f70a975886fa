use tescellate_ui::carbide::conditional::effective_format as workbook_effective_format;
use tescellate_ui::conditional::effective_format;
use tescellate_ui::format::{CellFormat, Rgba};

const RED: Rgba = Rgba { r: 255, g: 0, b: 0, a: 255 };
const BLUE: Rgba = Rgba { r: 0, g: 0, b: 255, a: 255 };

fn greater_than(value: f64, threshold: f64) -> bool {
    value > threshold
}

#[test]
fn no_rules_leaves_the_base_format_untouched() {
    let base = CellFormat { bold: true, ..CellFormat::default() };
    let got = effective_format(base, &[], &[]);
    assert_eq!(got, base);
}

#[test]
fn a_matching_rule_overlays_its_fill() {
    let effect = CellFormat { fill: Some(RED), ..CellFormat::default() };
    let hit = effective_format(CellFormat::default(), &[greater_than(150.0, 100.0)], &[effect]);
    assert_eq!(hit.fill, Some(RED));
    let miss = effective_format(CellFormat::default(), &[greater_than(50.0, 100.0)], &[effect]);
    assert_eq!(miss.fill, None);
}

#[test]
fn the_first_matching_rule_wins() {
    let effects = [
        CellFormat { fill: Some(RED), ..CellFormat::default() },
        CellFormat { fill: Some(BLUE), ..CellFormat::default() },
    ];
    let got = effective_format(CellFormat::default(), &[true, true], &effects);
    assert_eq!(got.fill, Some(RED));
    let later = effective_format(CellFormat::default(), &[false, true], &effects);
    assert_eq!(later.fill, Some(BLUE));
}

#[test]
fn a_rule_adds_bold_but_never_removes_it() {
    let base = CellFormat { bold: true, text_color: Some(BLUE), ..CellFormat::default() };
    let effect = CellFormat { italic: true, ..CellFormat::default() };
    let got = effective_format(base, &[true], &[effect]);
    assert!(got.bold && got.italic);
    assert_eq!(got.text_color, Some(BLUE));
}

#[test]
fn conditional_no_rules_leaves_the_base_format_untouched() {
    let base = CellFormat { bold: true, ..CellFormat::default() };
    assert_eq!(workbook_effective_format(base, &[], &[]), base);
}

#[test]
fn conditional_a_matching_rule_overlays_its_fill() {
    let effect = CellFormat { fill: Some(RED), ..CellFormat::default() };
    let hit =
        workbook_effective_format(CellFormat::default(), &[greater_than(150.0, 100.0)], &[effect]);
    assert_eq!(hit.fill, Some(RED));
    let miss =
        workbook_effective_format(CellFormat::default(), &[greater_than(50.0, 100.0)], &[effect]);
    assert_eq!(miss.fill, None);
}

#[test]
fn a_matching_rule_overlays_text_color() {
    let effect = CellFormat { text_color: Some(RED), ..CellFormat::default() };
    let got = workbook_effective_format(CellFormat::default(), &[greater_than(5.0, 0.0)], &[effect]);
    assert_eq!(got.text_color, Some(RED));
}

#[test]
fn conditional_the_first_matching_rule_wins() {
    let effects = [
        CellFormat { fill: Some(RED), ..CellFormat::default() },
        CellFormat { fill: Some(BLUE), ..CellFormat::default() },
    ];
    let got = workbook_effective_format(CellFormat::default(), &[true, true], &effects);
    assert_eq!(got.fill, Some(RED));
}

#[test]
fn a_matching_rule_adds_strikethrough_and_underline() {
    let effect = CellFormat { strikethrough: true, underline: true, ..CellFormat::default() };
    let got = workbook_effective_format(CellFormat::default(), &[greater_than(5.0, 0.0)], &[effect]);
    assert!(got.strikethrough && got.underline);
    let base = CellFormat { strikethrough: true, ..CellFormat::default() };
    let miss = workbook_effective_format(base, &[greater_than(-1.0, 0.0)], &[effect]);
    assert!(miss.strikethrough && !miss.underline);
}
