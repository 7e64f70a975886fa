//! Layering conditional-format rules over a cell's own format. Whether a
//! rule's condition holds is decided where the cell's value is read; here
//! the first rule that holds lays its effect over the base format — bold
//! and italic switched on, colours replaced when the rule sets them — and
//! later rules are not applied.

use vstd::prelude::*;
use crate::format::CellFormat;

verus! {

/// `base` with a rule's effect laid over it: bold and italic are kept on
/// when either has them, and a colour the effect sets replaces the base
/// colour.
pub open spec fn overlay(base: CellFormat, effect: CellFormat) -> CellFormat {
    CellFormat {
        bold: base.bold || effect.bold,
        italic: base.italic || effect.italic,
        text_color: if effect.text_color is Some {
            effect.text_color
        } else {
            base.text_color
        },
        fill: if effect.fill is Some {
            effect.fill
        } else {
            base.fill
        },
        ..base
    }
}

/// The index of the first `true` in `matched`, if any.
pub open spec fn first_true(matched: Seq<bool>) -> Option<int>
    decreases matched.len(),
{
    if matched.len() == 0 {
        None
    } else if matched[0] {
        Some(0)
    } else {
        match first_true(matched.drop_first()) {
            Some(i) => Some(i + 1),
            None => None,
        }
    }
}

/// `first_true` gives the first matching index, and `None` only when
/// nothing matches.
pub proof fn lemma_first_true(matched: Seq<bool>)
    ensures
        match first_true(matched) {
            Some(i) => 0 <= i < matched.len() && matched[i] && forall|k: int| 0 <= k < i ==> !matched[k],
            None => forall|k: int| 0 <= k < matched.len() ==> !matched[k],
        },
    decreases matched.len(),
{
    if matched.len() > 0 {
        lemma_first_true(matched.drop_first());
        assert forall|k: int| 0 < k < matched.len() implies matched[k] == matched.drop_first()[k - 1] by {}
    }
}

/// The format a cell's rule outcomes `matched` give it: the first
/// matching rule's effect over `base`, or `base` when no rule matches.
pub open spec fn rules_result(base: CellFormat, matched: Seq<bool>, effects: Seq<CellFormat>) -> CellFormat {
    match first_true(matched) {
        Some(i) => overlay(base, effects[i]),
        None => base,
    }
}

/// The rule that matches first decides the effective format: a colour it
/// sets replaces the cell's own, a colour it leaves unset keeps the
/// cell's, its styles are switched on over the cell's, and the rest of the
/// cell's format is kept.
pub proof fn lemma_first_matching_rule_decides(
    base: CellFormat,
    matched: Seq<bool>,
    effects: Seq<CellFormat>,
    i: int,
)
    requires
        matched.len() == effects.len(),
        0 <= i < matched.len(),
        matched[i],
        forall|k: int| 0 <= k < i ==> !matched[k],
    ensures
        ({
            let f = rules_result(base, matched, effects);
            let e = effects[i];
            &&& f.text_color == (if e.text_color is Some {
                e.text_color
            } else {
                base.text_color
            })
            &&& f.fill == (if e.fill is Some {
                e.fill
            } else {
                base.fill
            })
            &&& f.bold == (base.bold || e.bold)
            &&& f.italic == (base.italic || e.italic)
            &&& f.strikethrough == base.strikethrough
            &&& f.underline == base.underline
            &&& f.align == base.align
            &&& f.number == base.number
            &&& f.borders == base.borders
            &&& f.hex_borders == base.hex_borders
        }),
{
    lemma_first_true(matched);
    if first_true(matched) != Some(i) {
        match first_true(matched) {
            Some(j) => {
                if j < i {
                    assert(!matched[j]);
                } else {
                    assert(!matched[i]);
                }
            },
            None => {
                assert(!matched[i]);
            },
        }
    }
}

/// When no rule matches, the cell keeps its own format.
pub proof fn lemma_no_matching_rule_keeps_base(base: CellFormat, matched: Seq<bool>, effects: Seq<CellFormat>)
    requires
        forall|k: int| 0 <= k < matched.len() ==> !matched[k],
    ensures
        rules_result(base, matched, effects) == base,
{
    lemma_first_true(matched);
    if let Some(j) = first_true(matched) {
        assert(matched[j]);
    }
}

/// The effective format of a cell whose rules' conditions came out as
/// `matched`: the first matching rule's effect over `base`, or `base`
/// when no rule matches.
pub fn effective_format(base: CellFormat, matched: &[bool], effects: &[CellFormat]) -> (f: CellFormat)
    requires
        matched@.len() == effects@.len(),
    ensures
        f == rules_result(base, matched@, effects@),
{
    proof {
        lemma_first_true(matched@);
    }
    let mut i: usize = 0;
    while i < matched.len()
        invariant
            i <= matched@.len(),
            matched@.len() == effects@.len(),
            forall|k: int| 0 <= k < i ==> !matched@[k],
            match first_true(matched@) {
                Some(j) => 0 <= j < matched@.len() && matched@[j] && forall|k: int| 0 <= k < j ==> !matched@[k],
                None => forall|k: int| 0 <= k < matched@.len() ==> !matched@[k],
            },
        decreases matched@.len() - i,
    {
        if matched[i] {
            let effect = effects[i];
            let mut f = base;
            f.bold = f.bold || effect.bold;
            f.italic = f.italic || effect.italic;
            if effect.text_color.is_some() {
                f.text_color = effect.text_color;
            }
            if effect.fill.is_some() {
                f.fill = effect.fill;
            }
            return f;
        }
        i = i + 1;
    }
    base
}

/// Rules after the first matching one change nothing: adding rules to the
/// end of a list whose first rule matches leaves the result as it was.
pub proof fn lemma_first_match_wins(matched: Seq<bool>, more: Seq<bool>)
    requires
        matched.len() > 0,
        matched[0],
    ensures
        first_true(matched + more) == Some(0int),
{
    assert((matched + more)[0]);
}

} // verus!
