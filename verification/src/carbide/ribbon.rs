//! The number-format side of the workbook's toolbar.

use vstd::prelude::*;
use crate::format::NumberFormat;
use crate::ribbon::format_label;

verus! {

/// A short label for a number format, for the combo's selected text.
/// Decimal-place differences collapse to the same label.
pub fn number_format_label(format: NumberFormat) -> (s: &'static str)
    ensures
        s@ == format_label(format),
{
    crate::ribbon::number_format_label(format)
}

/// The number formats the toolbar's combo offers, General first, each
/// with its label.
pub fn number_formats() -> (v: Vec<(NumberFormat, &'static str)>)
    ensures
        v@.len() == 9,
        v@[0].0 == NumberFormat::General,
        forall|i: int| 0 <= i < v@.len() ==> #[trigger] format_label(v@[i].0) == v@[i].1@,
{
    crate::ribbon::number_formats()
}

} // verus!
