//! The number-format side of the formatting toolbar: the formats its
//! combo offers and the label each one shows.

use vstd::prelude::*;
use crate::format::NumberFormat;

verus! {

/// The label a number format shows in the toolbar; formats that differ
/// only in decimal places share a label.
pub open spec fn format_label(format: NumberFormat) -> Seq<char> {
    match format {
        NumberFormat::General => "General"@,
        NumberFormat::Number { .. } => "Number"@,
        NumberFormat::Percent { .. } => "Percent"@,
        NumberFormat::Currency => "Currency"@,
        NumberFormat::Thousands { .. } => "Thousands"@,
        NumberFormat::Scientific { .. } => "Scientific"@,
        NumberFormat::Date => "Date"@,
        NumberFormat::Time => "Time"@,
        NumberFormat::DateTime => "Date & time"@,
    }
}

/// A short label for a number format, for the combo's selected text.
/// Decimal-place differences collapse to the same label.
pub fn number_format_label(format: NumberFormat) -> (s: &'static str)
    ensures
        s@ == format_label(format),
{
    match format {
        NumberFormat::General => "General",
        NumberFormat::Number { .. } => "Number",
        NumberFormat::Percent { .. } => "Percent",
        NumberFormat::Currency => "Currency",
        NumberFormat::Thousands { .. } => "Thousands",
        NumberFormat::Scientific { .. } => "Scientific",
        NumberFormat::Date => "Date",
        NumberFormat::Time => "Time",
        NumberFormat::DateTime => "Date & time",
    }
}

/// The number formats the toolbar's combo offers, General first, each
/// with its label; the decimals are the combo's starting point.
pub fn number_formats() -> (v: Vec<(NumberFormat, &'static str)>)
    ensures
        v@ == seq![
            (NumberFormat::General, "General"),
            (NumberFormat::Number { decimals: 2 }, "Number"),
            (NumberFormat::Thousands { decimals: 2 }, "Thousands"),
            (NumberFormat::Percent { decimals: 0 }, "Percent"),
            (NumberFormat::Currency, "Currency"),
            (NumberFormat::Scientific { decimals: 2 }, "Scientific"),
            (NumberFormat::Date, "Date"),
            (NumberFormat::Time, "Time"),
            (NumberFormat::DateTime, "Date & time"),
        ],
        forall|i: int| 0 <= i < v@.len() ==> #[trigger] format_label(v@[i].0) == v@[i].1@,
{
    let mut v: Vec<(NumberFormat, &'static str)> = Vec::new();
    v.push((NumberFormat::General, "General"));
    v.push((NumberFormat::Number { decimals: 2 }, "Number"));
    v.push((NumberFormat::Thousands { decimals: 2 }, "Thousands"));
    v.push((NumberFormat::Percent { decimals: 0 }, "Percent"));
    v.push((NumberFormat::Currency, "Currency"));
    v.push((NumberFormat::Scientific { decimals: 2 }, "Scientific"));
    v.push((NumberFormat::Date, "Date"));
    v.push((NumberFormat::Time, "Time"));
    v.push((NumberFormat::DateTime, "Date & time"));
    v
}

} // verus!
