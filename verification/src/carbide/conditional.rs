//! The workbook's conditional-format rules: the first rule whose
//! condition holds lays its effect over the cell's own format, so the
//! order of the rules is their priority.

use vstd::prelude::*;
use crate::conditional::{first_true, lemma_first_true};
use crate::format::CellFormat;

verus! {

/// The swap that moves rule `index` of `len` rules one step toward the
/// front (`up`) or the back, if it is not already at that end.
pub open spec fn move_swap(len: int, index: int, up: bool) -> Option<(int, int)> {
    if index < 0 || index >= len {
        None
    } else if up && index > 0 {
        Some((index, index - 1))
    } else if !up && index + 1 < len {
        Some((index, index + 1))
    } else {
        None
    }
}

/// The index pair to swap to move the rule at `index` one step toward the
/// front (`up`) or the back of a list of `len` rules — `None` when that
/// rule is already at the end it would move toward, or out of range.
pub fn swap_for_move(len: usize, index: usize, up: bool) -> (r: Option<(usize, usize)>)
    ensures
        match move_swap(len as int, index as int, up) {
            Some((a, b)) => r == Some((a as usize, b as usize)),
            None => r == None::<(usize, usize)>,
        },
{
    if index >= len {
        return None;
    }
    if up && index > 0 {
        Some((index, index - 1))
    } else if !up && index + 1 < len {
        Some((index, index + 1))
    } else {
        None
    }
}

/// Moving a rule up and then moving it back down is the same swap seen
/// from the other side: the rule returns to where it was.
pub proof fn lemma_move_up_then_down(len: int, index: int)
    requires
        move_swap(len, index, true) is Some,
    ensures
        move_swap(len, index - 1, false) == Some((index - 1, index)),
        move_swap(len, index, true) == Some((index, index - 1)),
{
}

/// Moving a rule down and then back up returns it to where it was.
pub proof fn lemma_move_down_then_up(len: int, index: int)
    requires
        move_swap(len, index, false) is Some,
    ensures
        move_swap(len, index + 1, true) == Some((index + 1, index)),
        move_swap(len, index, false) == Some((index, index + 1)),
{
}

/// `base` with a rule's effect laid over it: bold, italic, strikethrough
/// and underline are kept on when either has them, and a colour the
/// effect sets replaces the base colour.
pub open spec fn overlay(base: CellFormat, effect: CellFormat) -> CellFormat {
    CellFormat {
        bold: base.bold || effect.bold,
        italic: base.italic || effect.italic,
        strikethrough: base.strikethrough || effect.strikethrough,
        underline: base.underline || effect.underline,
        text_color: if effect.text_color is Some {
            effect.text_color
        } else {
            base.text_color
        },
        fill: if effect.fill is Some {
            effect.fill
        } else {
            base.fill
        },
        ..base
    }
}

/// The format a cell's rule outcomes `matched` give it: the first
/// matching rule's effect over `base`, or `base` when no rule matches.
pub open spec fn rules_result(base: CellFormat, matched: Seq<bool>, effects: Seq<CellFormat>) -> CellFormat {
    match first_true(matched) {
        Some(i) => overlay(base, effects[i]),
        None => base,
    }
}

/// The rule that matches first decides the effective format: a colour it
/// sets replaces the cell's own, a colour it leaves unset keeps the
/// cell's, its styles are switched on over the cell's, and the rest of the
/// cell's format is kept.
pub proof fn lemma_first_matching_rule_decides(
    base: CellFormat,
    matched: Seq<bool>,
    effects: Seq<CellFormat>,
    i: int,
)
    requires
        matched.len() == effects.len(),
        0 <= i < matched.len(),
        matched[i],
        forall|k: int| 0 <= k < i ==> !matched[k],
    ensures
        ({
            let f = rules_result(base, matched, effects);
            let e = effects[i];
            &&& f.text_color == (if e.text_color is Some {
                e.text_color
            } else {
                base.text_color
            })
            &&& f.fill == (if e.fill is Some {
                e.fill
            } else {
                base.fill
            })
            &&& f.bold == (base.bold || e.bold)
            &&& f.italic == (base.italic || e.italic)
            &&& f.strikethrough == (base.strikethrough || e.strikethrough)
            &&& f.underline == (base.underline || e.underline)
            &&& f.align == base.align
            &&& f.number == base.number
            &&& f.borders == base.borders
            &&& f.hex_borders == base.hex_borders
        }),
{
    lemma_first_true(matched);
    if first_true(matched) != Some(i) {
        match first_true(matched) {
            Some(j) => {
                if j < i {
                    assert(!matched[j]);
                } else {
                    assert(!matched[i]);
                }
            },
            None => {
                assert(!matched[i]);
            },
        }
    }
}

/// When no rule matches, the cell keeps its own format.
pub proof fn lemma_no_matching_rule_keeps_base(base: CellFormat, matched: Seq<bool>, effects: Seq<CellFormat>)
    requires
        forall|k: int| 0 <= k < matched.len() ==> !matched[k],
    ensures
        rules_result(base, matched, effects) == base,
{
    lemma_first_true(matched);
    if let Some(j) = first_true(matched) {
        assert(matched[j]);
    }
}

/// The effective format of a cell whose rules' conditions came out as
/// `matched`: the first matching rule's effect over `base`, or `base`
/// when no rule matches.
pub fn effective_format(base: CellFormat, matched: &[bool], effects: &[CellFormat]) -> (f: CellFormat)
    requires
        matched@.len() == effects@.len(),
    ensures
        f == rules_result(base, matched@, effects@),
{
    let mut i: usize = 0;
    assert(matched@.skip(0) =~= matched@);
    while i < matched.len()
        invariant
            i <= matched@.len(),
            matched@.len() == effects@.len(),
            first_true(matched@) == (match first_true(matched@.skip(i as int)) {
                Some(j) => Some(j + i),
                None => None::<int>,
            }),
        decreases matched@.len() - i,
    {
        if matched[i] {
            let effect = effects[i];
            let mut f = base;
            f.bold = f.bold || effect.bold;
            f.italic = f.italic || effect.italic;
            f.strikethrough = f.strikethrough || effect.strikethrough;
            f.underline = f.underline || effect.underline;
            if effect.text_color.is_some() {
                f.text_color = effect.text_color;
            }
            if effect.fill.is_some() {
                f.fill = effect.fill;
            }
            assert(matched@.skip(i as int)[0]);
            return f;
        }
        assert(matched@.skip(i as int).drop_first() =~= matched@.skip(i + 1));
        i = i + 1;
    }
    base
}

} // verus!
