//! Find — case-insensitive substring search over the square sheet.
//!
//! [`FindState`] holds the query, the cells that currently match it, and
//! which match is "current"; the app populates the matches by feeding it
//! each cell's display text.

use vstd::prelude::*;
use crate::text::{chars_of, lowercase, occurs_in, seq_contains, str_to_lowercase};

verus! {

/// `text` contains `query`, compared after lowercasing both; a blank
/// query matches nothing.
pub open spec fn matches_query(query: Seq<char>, text: Seq<char>) -> bool {
    query.len() > 0 && occurs_in(lowercase(text), lowercase(query))
}

/// Whether `text` contains `query`, case-insensitively. An empty query
/// matches nothing — Find with a blank box highlights no cells.
pub fn cell_matches(query: &str, text: &str) -> (b: bool)
    ensures
        b == matches_query(query@, text@),
{
    if query.is_empty() {
        return false;
    }
    let t = str_to_lowercase(text);
    let q = str_to_lowercase(query);
    let tv = chars_of(t.as_str());
    let qv = chars_of(q.as_str());
    seq_contains(&tv, &qv)
}

/// A non-blank query matches every text whose lowercase form holds the
/// query's lowercase form anywhere — at its start, in its middle or at
/// its very end.
pub proof fn lemma_occurrence_is_found(query: Seq<char>, text: Seq<char>, before: Seq<char>, after: Seq<char>)
    requires
        query.len() > 0,
        lowercase(text) == before + lowercase(query) + after,
    ensures
        matches_query(query, text),
{
    let q = lowercase(query);
    let t = lowercase(text);
    let i = before.len() as int;
    assert(t.subrange(i, i + q.len()) =~= q);
}

/// A query matches a text only when it is not blank and the text's
/// lowercase form is some text, then the query's lowercase form, then
/// some more text.
pub proof fn lemma_match_is_an_occurrence(query: Seq<char>, text: Seq<char>)
    requires
        matches_query(query, text),
    ensures
        query.len() > 0,
        exists|before: Seq<char>, after: Seq<char>|
            lowercase(text) == before + lowercase(query) + after,
{
    let q = lowercase(query);
    let t = lowercase(text);
    let i = choose|i: int| 0 <= i && i + q.len() <= t.len() && #[trigger] t.subrange(i, i + q.len()) == q;
    let before = t.subrange(0, i);
    let after = t.subrange(i + q.len(), t.len() as int);
    assert(t =~= before + q + after);
}

/// A blank query matches nothing.
pub proof fn lemma_blank_query_matches_nothing(text: Seq<char>)
    ensures
        !matches_query(Seq::empty(), text),
{
}

/// The cells among `cells` whose text matches `query`, in order.
pub open spec fn matching_cells(query: Seq<char>, cells: Seq<((u32, u32), String)>) -> Seq<
    (u32, u32),
>
    decreases cells.len(),
{
    if cells.len() == 0 {
        Seq::empty()
    } else {
        let rest = matching_cells(query, cells.drop_last());
        if matches_query(query, cells.last().1@) {
            rest.push(cells.last().0)
        } else {
            rest
        }
    }
}

/// The match after `p` among `n` (forward) or before it, wrapping around.
pub open spec fn step_position(p: int, n: int, forward: bool) -> int {
    if forward {
        (p + 1) % n
    } else {
        (p + n - 1) % n
    }
}

/// Some cell among `cells` is `cell` and has a text matching `query`.
pub open spec fn fed_matching(query: Seq<char>, cells: Seq<((u32, u32), String)>, cell: (u32, u32)) -> bool {
    exists|k: int| 0 <= k < cells.len() && (#[trigger] cells[k]).0 == cell && matches_query(query, cells[k].1@)
}

/// Refreshing keeps exactly the matching cells: every cell whose text
/// matches the query is listed, and every cell listed has a matching
/// text among the cells fed in.
pub proof fn lemma_matching_cells_are_the_matches(query: Seq<char>, cells: Seq<((u32, u32), String)>)
    ensures
        forall|k: int|
            0 <= k < cells.len() && matches_query(query, (#[trigger] cells[k]).1@) ==> matching_cells(
                query,
                cells,
            ).contains(cells[k].0),
        forall|m: int|
            0 <= m < matching_cells(query, cells).len() ==> fed_matching(
                query,
                cells,
                #[trigger] matching_cells(query, cells)[m],
            ),
        matching_cells(query, cells).len() <= cells.len(),
    decreases cells.len(),
{
    if cells.len() > 0 {
        let rest = cells.drop_last();
        lemma_matching_cells_are_the_matches(query, rest);
        let mr = matching_cells(query, rest);
        let m = matching_cells(query, cells);
        assert forall|k: int|
            0 <= k < cells.len() && matches_query(query, (#[trigger] cells[k]).1@) implies m.contains(
            cells[k].0,
        ) by {
            if k < rest.len() {
                assert(rest[k] == cells[k]);
                let j = choose|j: int| 0 <= j < mr.len() && mr[j] == cells[k].0;
                assert(m[j] == mr[j]);
            } else {
                assert(cells[k] == cells.last());
                assert(m[m.len() - 1] == cells[k].0);
            }
        }
        assert forall|i: int| 0 <= i < m.len() implies fed_matching(query, cells, #[trigger] m[i]) by {
            if i < mr.len() {
                assert(m[i] == mr[i]);
                assert(fed_matching(query, rest, mr[i]));
                let k = choose|k: int|
                    0 <= k < rest.len() && (#[trigger] rest[k]).0 == mr[i] && matches_query(query, rest[k].1@);
                assert(cells[k] == rest[k]);
            } else {
                let k = cells.len() - 1;
                assert(m != mr);
                assert(matches_query(query, cells.last().1@));
                assert(m[i] == cells.last().0);
                assert(cells[k] == cells.last());
            }
        }
    }
}

/// The Find panel's state: the query, the matching cells in row-major
/// order, and the index of the current match within them.
#[derive(Debug, Clone)]
pub struct FindState {
    pub query: String,
    matches: Vec<(u32, u32)>,
    current: usize,
}

impl Default for FindState {
    /// No query and no matches.
    fn default() -> (f: Self)
        ensures
            f.query_text().len() == 0,
            f.found().len() == 0,
            f.position() == 0,
            f.wf(),
    {
        FindState { query: String::new(), matches: Vec::new(), current: 0 }
    }
}

impl FindState {
    /// The query's text.
    pub closed spec fn query_text(&self) -> Seq<char> {
        self.query@
    }

    /// The matching cells, in order.
    pub closed spec fn found(&self) -> Seq<(u32, u32)> {
        self.matches@
    }

    /// The index of the current match.
    pub closed spec fn position(&self) -> int {
        self.current as int
    }

    /// The current match lies within the matches (at 0 when there are
    /// none).
    pub open spec fn wf(&self) -> bool {
        if self.found().len() == 0 {
            self.position() == 0
        } else {
            0 <= self.position() < self.found().len()
        }
    }

    /// Rebuild the match list from `(cell, text)` pairs, resetting the
    /// current match to the first. Call whenever the query or the sheet
    /// contents change.
    pub fn refresh(&mut self, cells: Vec<((u32, u32), String)>)
        ensures
            final(self).query_text() == old(self).query_text(),
            final(self).found() == matching_cells(old(self).query_text(), cells@),
            final(self).position() == 0,
            final(self).wf(),
    {
        let mut matches: Vec<(u32, u32)> = Vec::new();
        let mut i: usize = 0;
        while i < cells.len()
            invariant
                i <= cells@.len(),
                matches@ == matching_cells(self.query@, cells@.take(i as int)),
            decreases cells@.len() - i,
        {
            let (cell, text) = &cells[i];
            assert(cells@.take(i + 1).drop_last() =~= cells@.take(i as int));
            if cell_matches(self.query.as_str(), text.as_str()) {
                matches.push(*cell);
            }
            i = i + 1;
        }
        assert(cells@.take(cells@.len() as int) =~= cells@);
        self.matches = matches;
        self.current = 0;
    }

    /// Forget the query and every match.
    pub fn clear(&mut self)
        ensures
            final(self).query_text().len() == 0,
            final(self).found().len() == 0,
            final(self).position() == 0,
            final(self).wf(),
    {
        self.query = String::new();
        self.matches = Vec::new();
        self.current = 0;
    }

    /// How many cells match.
    pub fn match_count(&self) -> (n: usize)
        ensures
            n == self.found().len(),
    {
        self.matches.len()
    }

    /// The current match, or `None` when nothing matches.
    pub fn current_match(&self) -> (r: Option<(u32, u32)>)
        ensures
            r == (if self.position() < self.found().len() {
                Some(self.found()[self.position()])
            } else {
                None
            }),
    {
        if self.current < self.matches.len() {
            Some(self.matches[self.current])
        } else {
            None
        }
    }

    /// One-based index of the current match, for an "n of m" label; `0`
    /// when there are no matches.
    pub fn current_index(&self) -> (r: usize)
        requires
            self.wf(),
        ensures
            r == (if self.found().len() == 0 {
                0
            } else {
                self.position() + 1
            }),
    {
        if self.matches.is_empty() {
            0
        } else {
            let n = self.matches.len();
            assert(self.current < n);
            self.current + 1
        }
    }

    /// Step to the next (`forward`) or previous match, wrapping around,
    /// and return it. `None` when there are no matches.
    pub fn step(&mut self, forward: bool) -> (r: Option<(u32, u32)>)
        requires
            old(self).wf(),
        ensures
            final(self).wf(),
            final(self).query_text() == old(self).query_text(),
            final(self).found() == old(self).found(),
            old(self).found().len() == 0 ==> r is None && final(self).position() == old(
                self,
            ).position(),
            old(self).found().len() > 0 ==> final(self).position() == step_position(
                old(self).position(),
                old(self).found().len() as int,
                forward,
            ) && r == Some(old(self).found()[final(self).position()]),
    {
        let len = self.matches.len();
        if len == 0 {
            return None;
        }
        if forward {
            self.current = if self.current + 1 == len {
                0
            } else {
                self.current + 1
            };
        } else {
            self.current = if self.current == 0 {
                len - 1
            } else {
                self.current - 1
            };
        }
        proof {
            let p = old(self).position();
            let n = len as int;
            if forward {
                if p + 1 == n {
                    vstd::arithmetic::div_mod::lemma_mod_self_0(n);
                } else {
                    vstd::arithmetic::div_mod::lemma_small_mod((p + 1) as nat, n as nat);
                }
            } else {
                if p == 0 {
                    vstd::arithmetic::div_mod::lemma_small_mod((n - 1) as nat, n as nat);
                } else {
                    vstd::arithmetic::div_mod::lemma_mod_add_multiples_vanish(p - 1, n);
                    vstd::arithmetic::div_mod::lemma_small_mod((p - 1) as nat, n as nat);
                }
            }
        }
        self.current_match()
    }

    /// Whether `cell` is one of the matches — used to tint it in the grid.
    pub fn is_match(&self, cell: (u32, u32)) -> (b: bool)
        ensures
            b == self.found().contains(cell),
    {
        let mut i: usize = 0;
        while i < self.matches.len()
            invariant
                i <= self.matches@.len(),
                forall|j: int| 0 <= j < i ==> self.matches@[j] != cell,
            decreases self.matches@.len() - i,
        {
            let m = self.matches[i];
            if m.0 == cell.0 && m.1 == cell.1 {
                return true;
            }
            i = i + 1;
        }
        false
    }
}

/// Stepping moves to the next match, wrapping from the last to the
/// first, or (backward) to the previous one, wrapping from the first to
/// the last.
pub proof fn lemma_step_wraps(p: int, n: int)
    requires
        0 <= p < n,
    ensures
        step_position(p, n, true) == if p + 1 < n {
            p + 1
        } else {
            0
        },
        step_position(p, n, false) == if p > 0 {
            p - 1
        } else {
            n - 1
        },
{
    if p + 1 < n {
        vstd::arithmetic::div_mod::lemma_small_mod((p + 1) as nat, n as nat);
    } else {
        vstd::arithmetic::div_mod::lemma_mod_self_0(n);
    }
    if p > 0 {
        assert((p + n - 1) % n == p - 1) by {
            vstd::arithmetic::div_mod::lemma_mod_add_multiples_vanish(p - 1, n);
            vstd::arithmetic::div_mod::lemma_small_mod((p - 1) as nat, n as nat);
        }
    } else {
        vstd::arithmetic::div_mod::lemma_small_mod((n - 1) as nat, n as nat);
    }
}

/// Stepping forward and then back returns to the same match, and the
/// reverse.
pub proof fn lemma_step_there_and_back(p: int, n: int)
    requires
        0 <= p < n,
    ensures
        step_position(step_position(p, n, true), n, false) == p,
        step_position(step_position(p, n, false), n, true) == p,
{
    let f = step_position(p, n, true);
    let b = step_position(p, n, false);
    if p + 1 == n {
        assert(f == 0) by {
            vstd::arithmetic::div_mod::lemma_mod_self_0(n);
        }
        assert((0 + n - 1) % n == n - 1) by {
            vstd::arithmetic::div_mod::lemma_small_mod((n - 1) as nat, n as nat);
        }
    } else {
        assert(f == p + 1) by {
            vstd::arithmetic::div_mod::lemma_small_mod((p + 1) as nat, n as nat);
        }
        assert((p + 1 + n - 1) % n == p) by {
            vstd::arithmetic::div_mod::lemma_mod_add_multiples_vanish(p, n);
            vstd::arithmetic::div_mod::lemma_small_mod(p as nat, n as nat);
        }
    }
    if p == 0 {
        assert(b == n - 1) by {
            vstd::arithmetic::div_mod::lemma_small_mod((n - 1) as nat, n as nat);
        }
        assert((n - 1 + 1) % n == 0) by {
            vstd::arithmetic::div_mod::lemma_mod_self_0(n);
        }
    } else {
        assert(b == p - 1) by {
            vstd::arithmetic::div_mod::lemma_mod_add_multiples_vanish(p - 1, n);
            vstd::arithmetic::div_mod::lemma_small_mod((p - 1) as nat, n as nat);
        }
        assert((p - 1 + 1) % n == p) by {
            vstd::arithmetic::div_mod::lemma_small_mod(p as nat, n as nat);
        }
    }
}

} // verus!
