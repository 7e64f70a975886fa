//! Turning user gestures into edits: the source a cell editor commits,
//! one-edit-per-cell batches, range toggles, coalesced format edits, and
//! the labels the app shows for errors, engines and rule kinds.

use vstd::prelude::*;
use vstd::string::*;
use crate::format::{format_of, holds_no_plain, store_format, CellFormat, FormatMap};
use crate::history::{record_step, History};
use crate::lattice::{CellKey, HexCoord};
use crate::text::{is_blank, str_is_blank};

verus! {

/// The source an edit buffer commits: `None` (the cell is cleared) when
/// the buffer is empty or all whitespace, otherwise the buffer as typed.
pub fn commit_source(buffer: &str) -> (r: Option<String>)
    ensures
        is_blank(buffer@) ==> r is None,
        !is_blank(buffer@) ==> r is Some && (r->0)@ == buffer@,
{
    if str_is_blank(buffer) {
        None
    } else {
        Some(buffer.to_owned())
    }
}

/// An edit target as text: the address and the new source, if any.
pub open spec fn target_view(t: (String, Option<String>)) -> (Seq<char>, Option<Seq<char>>) {
    (
        t.0@,
        match t.1 {
            Some(s) => Some(s@),
            None => None,
        },
    )
}

/// Where address `a` first appears among the edits `d`.
pub open spec fn addr_index(d: Seq<(Seq<char>, Option<Seq<char>>)>, a: Seq<char>) -> Option<int>
    decreases d.len(),
{
    if d.len() == 0 {
        None
    } else if d.last().0 == a && addr_index(d.drop_last(), a) is None {
        Some(d.len() - 1)
    } else {
        addr_index(d.drop_last(), a)
    }
}

/// An edit batch with one edit per address: each address keeps the place
/// of its first edit and takes the value of its last.
pub open spec fn last_writes(s: Seq<(Seq<char>, Option<Seq<char>>)>) -> Seq<(Seq<char>, Option<Seq<char>>)>
    decreases s.len(),
{
    if s.len() == 0 {
        seq![]
    } else {
        let d = last_writes(s.drop_last());
        let e = s.last();
        match addr_index(d, e.0) {
            Some(i) => d.update(i, (e.0, e.1)),
            None => d.push(e),
        }
    }
}

/// No address occurs twice among the edits.
pub open spec fn distinct_addrs(d: Seq<(Seq<char>, Option<Seq<char>>)>) -> bool {
    forall|i: int, j: int| 0 <= i < d.len() && 0 <= j < d.len() && i != j ==> d[i].0 != d[j].0
}

/// Some edit in `d` is for address `a`.
pub open spec fn has_addr(d: Seq<(Seq<char>, Option<Seq<char>>)>, a: Seq<char>) -> bool {
    exists|i: int| 0 <= i < d.len() && d[i].0 == a
}

proof fn lemma_addr_index(d: Seq<(Seq<char>, Option<Seq<char>>)>, a: Seq<char>)
    ensures
        match addr_index(d, a) {
            Some(i) => 0 <= i < d.len() && d[i].0 == a && forall|k: int| 0 <= k < i ==> d[k].0 != a,
            None => forall|k: int| 0 <= k < d.len() ==> d[k].0 != a,
        },
    decreases d.len(),
{
    if d.len() > 0 {
        let p = d.drop_last();
        lemma_addr_index(p, a);
        assert forall|k: int| 0 <= k < p.len() implies p[k] == d[k] by {
        }
        assert(d.last() == d[d.len() - 1]);
    }
}

/// A batch after [`dedup_targets`] holds each address once, and exactly
/// the addresses of the original batch.
pub proof fn lemma_last_writes_distinct(s: Seq<(Seq<char>, Option<Seq<char>>)>)
    ensures
        distinct_addrs(last_writes(s)),
        forall|a: Seq<char>| #[trigger] has_addr(s, a) <==> has_addr(last_writes(s), a),
    decreases s.len(),
{
    if s.len() > 0 {
        let p = s.drop_last();
        lemma_last_writes_distinct(p);
        let d = last_writes(p);
        let e = s.last();
        lemma_addr_index(d, e.0);
        let r = last_writes(s);
        assert forall|a: Seq<char>| #[trigger] has_addr(s, a) <==> has_addr(r, a) by {
            assert(has_addr(p, a) <==> has_addr(d, a));
            if has_addr(s, a) {
                let i = choose|i: int| 0 <= i < s.len() && s[i].0 == a;
                if i < p.len() {
                    assert(p[i].0 == a);
                    assert(has_addr(p, a));
                    let j = choose|j: int| 0 <= j < d.len() && d[j].0 == a;
                    assert(r[j].0 == a);
                } else {
                    match addr_index(d, e.0) {
                        Some(k) => {
                            assert(r[k].0 == a);
                        },
                        None => {
                            assert(r[d.len() as int].0 == a);
                        },
                    }
                }
            }
            if has_addr(r, a) {
                let j = choose|j: int| 0 <= j < r.len() && r[j].0 == a;
                if j < d.len() && d[j].0 == a {
                    assert(has_addr(d, a));
                    let i = choose|i: int| 0 <= i < p.len() && p[i].0 == a;
                    assert(s[i].0 == a);
                } else {
                    assert(s[s.len() - 1].0 == a);
                }
            }
        }
    }
}

/// Collapses duplicate addresses in an edit batch so one undo step never
/// holds two edits for the same cell: the last write for an address
/// wins, at the place of its first.
pub fn dedup_targets(targets: Vec<(String, Option<String>)>) -> (out: Vec<(String, Option<String>)>)
    ensures
        out@.map_values(|t: (String, Option<String>)| target_view(t)) == last_writes(
            targets@.map_values(|t: (String, Option<String>)| target_view(t)),
        ),
{
    let ghost tv = targets@.map_values(|t: (String, Option<String>)| target_view(t));
    let mut out: Vec<(String, Option<String>)> = Vec::new();
    let mut i: usize = 0;
    while i < targets.len()
        invariant
            i <= targets@.len(),
            tv == targets@.map_values(|t: (String, Option<String>)| target_view(t)),
            out@.map_values(|t: (String, Option<String>)| target_view(t)) == last_writes(
                tv.take(i as int),
            ),
        decreases targets@.len() - i,
    {
        let addr = targets[i].0.clone();
        let after: Option<String> = match &targets[i].1 {
            Some(s) => Some(s.clone()),
            None => None,
        };
        assert(target_view((addr, after)) == tv[i as int]);
        let ghost ov = out@.map_values(|t: (String, Option<String>)| target_view(t));
        proof {
            lemma_addr_index(ov, addr@);
        }
        let mut j: usize = 0;
        let mut found: Option<usize> = None;
        while j < out.len()
            invariant
                j <= out@.len(),
                ov == out@.map_values(|t: (String, Option<String>)| target_view(t)),
                match addr_index(ov, addr@) {
                    Some(x) => 0 <= x < ov.len() && ov[x].0 == addr@ && forall|k: int|
                        0 <= k < x ==> ov[k].0 != addr@,
                    None => forall|k: int| 0 <= k < ov.len() ==> ov[k].0 != addr@,
                },
                match found {
                    Some(k) => addr_index(ov, addr@) == Some(k as int),
                    None => forall|k: int| 0 <= k < j ==> ov[k].0 != addr@,
                },
            decreases out@.len() - j,
        {
            if found.is_none() && out[j].0 == addr {
                assert(ov[j as int].0 == addr@);
                found = Some(j);
            }
            j = j + 1;
        }
        let ghost before = out@;
        match found {
            Some(k) => {
                let key = out[k].0.clone();
                out.set(k, (key, after));
                proof {
                    assert(out@.map_values(|t: (String, Option<String>)| target_view(t)) =~= ov.update(
                        k as int,
                        (addr@, tv[i as int].1),
                    ));
                }
            },
            None => {
                proof {
                    assert(addr_index(ov, addr@) is None);
                }
                out.push((addr, after));
                proof {
                    assert(out@.map_values(|t: (String, Option<String>)| target_view(t)) =~= ov.push(
                        tv[i as int],
                    ));
                }
            },
        }
        proof {
            assert(tv.take(i + 1).drop_last() =~= tv.take(i as int));
            assert(tv.take(i + 1).last() == tv[i as int]);
        }
        i = i + 1;
    }
    proof {
        assert(tv.take(targets@.len() as int) =~= tv);
    }
    out
}

/// The state a range toggle sets: off when every cell already has the
/// flag, on otherwise — bold or italic over a range.
pub fn toggle_target(currently_on: &[bool]) -> (b: bool)
    ensures
        b == !(forall|i: int| 0 <= i < currently_on@.len() ==> currently_on@[i]),
{
    let mut i: usize = 0;
    while i < currently_on.len()
        invariant
            i <= currently_on@.len(),
            forall|k: int| 0 <= k < i ==> currently_on@[k],
        decreases currently_on@.len() - i,
    {
        if !currently_on[i] {
            return true;
        }
        i = i + 1;
    }
    false
}

/// One cell's format before and after a change.
#[derive(Debug, Clone, Copy, PartialEq)]
pub struct CellFormatEdit<C> {
    pub cell: C,
    pub before: CellFormat,
    pub after: CellFormat,
}

/// A square cell's format edit.
pub type FormatEdit = CellFormatEdit<(u32, u32)>;

/// A hex cell's format edit.
pub type HexFormatEdit = CellFormatEdit<HexCoord>;

/// The `before` of the first edit of `cell` in `prev`, or `fallback` when
/// `prev` does not touch `cell`.
pub open spec fn earliest_before<C>(prev: Seq<CellFormatEdit<C>>, cell: C, fallback: CellFormat) -> CellFormat
    decreases prev.len(),
{
    if prev.len() == 0 {
        fallback
    } else if prev[0].cell == cell {
        prev[0].before
    } else {
        earliest_before(prev.drop_first(), cell, fallback)
    }
}

/// The merge of two consecutive format-edit batches: the new batch's
/// cells and `after`s, each with the earliest `before` for its cell.
pub open spec fn merged_edits<C>(prev: Seq<CellFormatEdit<C>>, new: Seq<CellFormatEdit<C>>) -> Seq<CellFormatEdit<C>> {
    new.map_values(
        |n: CellFormatEdit<C>|
            CellFormatEdit { cell: n.cell, before: earliest_before(prev, n.cell, n.before), after: n.after },
    )
}

fn earliest_before_in<C: CellKey + Copy>(prev: &Vec<CellFormatEdit<C>>, cell: C, fallback: CellFormat) -> (f: CellFormat)
    ensures
        f == earliest_before(prev@, cell, fallback),
{
    let mut i: usize = 0;
    assert(prev@.skip(0) =~= prev@);
    while i < prev.len()
        invariant
            i <= prev@.len(),
            earliest_before(prev@, cell, fallback) == earliest_before(prev@.skip(i as int), cell, fallback),
        decreases prev@.len() - i,
    {
        if prev[i].cell.same(&cell) {
            return prev[i].before;
        }
        assert(prev@.skip(i as int).drop_first() =~= prev@.skip(i + 1));
        i = i + 1;
    }
    fallback
}

fn merge_edits<C: CellKey + Copy>(prev: Vec<CellFormatEdit<C>>, new: Vec<CellFormatEdit<C>>) -> (out: Vec<CellFormatEdit<C>>)
    ensures
        out@ == merged_edits(prev@, new@),
{
    let mut out: Vec<CellFormatEdit<C>> = Vec::new();
    let mut i: usize = 0;
    assert(prev@.skip(0) =~= prev@);
    while i < new.len()
        invariant
            i <= new@.len(),
            out@ == merged_edits(prev@, new@.take(i as int)),
        decreases new@.len() - i,
    {
        let n = new[i];
        let before = earliest_before_in(&prev, n.cell, n.before);
        out.push(CellFormatEdit { cell: n.cell, before, after: n.after });
        assert(out@ =~= merged_edits(prev@, new@.take(i + 1)));
        i = i + 1;
    }
    assert(new@.take(new@.len() as int) =~= new@);
    out
}

/// Merges two consecutive format-edit batches over the same cells into
/// one — the earliest `before` and the latest `after` per cell — so a
/// coalesced gesture undoes to its true starting state.
pub fn merge_format_edits(prev: Vec<FormatEdit>, new: Vec<FormatEdit>) -> (out: Vec<FormatEdit>)
    ensures
        out@ == merged_edits(prev@, new@),
{
    merge_edits(prev, new)
}

/// A restyling closure that gives every cell and format one answer.
pub open spec fn restyle_deterministic<C, F: Fn(C, CellFormat) -> CellFormat>(edit: F) -> bool {
    forall|c: C, a: CellFormat, b1: CellFormat, b2: CellFormat|
        edit.ensures((c, a), b1) && edit.ensures((c, a), b2) ==> b1 == b2
}

/// The format a restyling closure gives `cell` in place of `before`.
pub open spec fn restyled<C, F: Fn(C, CellFormat) -> CellFormat>(
    edit: F,
    cell: C,
    before: CellFormat,
) -> CellFormat {
    choose|after: CellFormat| edit.ensures((cell, before), after)
}

/// Restyling `cells` in order, from the table `m`: each cell's current
/// format goes through `g`; a cell whose format changes is stored with
/// its new format and listed as an edit, one whose format stays is
/// skipped. The table and the edit list at the end.
pub open spec fn restyle_run<C>(
    m: Map<C, CellFormat>,
    cells: Seq<C>,
    g: spec_fn(C, CellFormat) -> CellFormat,
) -> (Map<C, CellFormat>, Seq<CellFormatEdit<C>>)
    decreases cells.len(),
{
    if cells.len() == 0 {
        (m, Seq::empty())
    } else {
        let (m1, e1) = restyle_run(m, cells.drop_last(), g);
        let cell = cells.last();
        let before = format_of(m1, cell);
        let after = g(cell, before);
        if after == before {
            (m1, e1)
        } else {
            (store_format(m1, cell, after), e1.push(CellFormatEdit { cell, before, after }))
        }
    }
}

/// Apply a format change across `cells` — the selection's cells — and
/// list what changed, for the undo history. `edit` gives a cell's new
/// format from the cell and its current one; cells whose format comes
/// out unchanged are left alone and not listed.
pub fn restyle<C: CellKey + Copy, F: Fn(C, CellFormat) -> CellFormat>(
    formats: &mut FormatMap<C>,
    cells: &Vec<C>,
    edit: F,
) -> (edits: Vec<CellFormatEdit<C>>)
    requires
        forall|c: C, a: CellFormat| edit.requires((c, a)),
        restyle_deterministic(edit),
    ensures
        (final(formats)@, edits@) == restyle_run(
            old(formats)@,
            cells@,
            |c: C, a: CellFormat| restyled(edit, c, a),
        ),
{
    assert forall|c: C, a: CellFormat, b: CellFormat| edit.ensures((c, a), b) implies b == restyled(
        edit,
        c,
        a,
    ) by {
        let chosen = restyled(edit, c, a);
        assert(edit.ensures((c, a), chosen));
    }
    restyle_by(formats, cells, edit, Ghost(|c: C, a: CellFormat| restyled(edit, c, a)))
}

/// Apply a format change across `cells`, where `edit` computes the spec
/// function `g` — see [`restyle`], whose result this is, stated over `g`.
pub fn restyle_by<C: CellKey + Copy, F: Fn(C, CellFormat) -> CellFormat>(
    formats: &mut FormatMap<C>,
    cells: &Vec<C>,
    edit: F,
    Ghost(g): Ghost<spec_fn(C, CellFormat) -> CellFormat>,
) -> (edits: Vec<CellFormatEdit<C>>)
    requires
        forall|c: C, a: CellFormat| edit.requires((c, a)),
        forall|c: C, a: CellFormat, b: CellFormat| edit.ensures((c, a), b) ==> b == g(c, a),
    ensures
        (final(formats)@, edits@) == restyle_run(old(formats)@, cells@, g),
{
    let mut edits: Vec<CellFormatEdit<C>> = Vec::new();
    let mut i: usize = 0;
    assert(cells@.take(0) =~= Seq::<C>::empty());
    while i < cells.len()
        invariant
            i <= cells@.len(),
            forall|c: C, a: CellFormat| edit.requires((c, a)),
            forall|c: C, a: CellFormat, b: CellFormat| edit.ensures((c, a), b) ==> b == g(c, a),
            (formats@, edits@) == restyle_run(old(formats)@, cells@.take(i as int), g),
        decreases cells@.len() - i,
    {
        let cell = cells[i];
        let before = formats.get(cell);
        let after = edit(cell, before);
        assert(after == g(cell, before));
        assert(cells@.take(i + 1).drop_last() =~= cells@.take(i as int));
        assert(cells@.take(i + 1).last() == cell);
        if !after.same_as(&before) {
            formats.set(cell, after);
            edits.push(CellFormatEdit { cell, before, after });
        }
        i = i + 1;
    }
    assert(cells@.take(cells@.len() as int) =~= cells@);
    edits
}

/// The table after writing each edit's `before` back, in list order —
/// what undoing a batch of format edits does.
pub open spec fn with_befores<C>(m: Map<C, CellFormat>, edits: Seq<CellFormatEdit<C>>) -> Map<
    C,
    CellFormat,
>
    decreases edits.len(),
{
    if edits.len() == 0 {
        m
    } else {
        store_format(with_befores(m, edits.drop_last()), edits.last().cell, edits.last().before)
    }
}

/// The table after writing each edit's `after`, in list order — what
/// redoing a batch of format edits does.
pub open spec fn with_afters<C>(m: Map<C, CellFormat>, edits: Seq<CellFormatEdit<C>>) -> Map<
    C,
    CellFormat,
>
    decreases edits.len(),
{
    if edits.len() == 0 {
        m
    } else {
        store_format(with_afters(m, edits.drop_last()), edits.last().cell, edits.last().after)
    }
}

fn write_edits<C: CellKey + Copy>(
    formats: &mut FormatMap<C>,
    edits: &Vec<CellFormatEdit<C>>,
    afters: bool,
)
    ensures
        final(formats)@ == if afters {
            with_afters(old(formats)@, edits@)
        } else {
            with_befores(old(formats)@, edits@)
        },
{
    let mut i: usize = 0;
    while i < edits.len()
        invariant
            i <= edits@.len(),
            formats@ == if afters {
                with_afters(old(formats)@, edits@.take(i as int))
            } else {
                with_befores(old(formats)@, edits@.take(i as int))
            },
        decreases edits@.len() - i,
    {
        let e = edits[i];
        assert(edits@.take(i + 1).drop_last() =~= edits@.take(i as int));
        assert(edits@.take(i + 1).last() == e);
        if afters {
            formats.set(e.cell, e.after);
        } else {
            formats.set(e.cell, e.before);
        }
        i = i + 1;
    }
    assert(edits@.take(edits@.len() as int) =~= edits@);
}

/// Undo a batch of format edits: give each edited cell its `before`
/// format back.
pub fn undo_format_edits<C: CellKey + Copy>(formats: &mut FormatMap<C>, edits: &Vec<CellFormatEdit<C>>)
    ensures
        final(formats)@ == with_befores(old(formats)@, edits@),
{
    write_edits(formats, edits, false);
}

/// Redo a batch of format edits: give each edited cell its `after`
/// format again.
pub fn redo_format_edits<C: CellKey + Copy>(formats: &mut FormatMap<C>, edits: &Vec<CellFormatEdit<C>>)
    ensures
        final(formats)@ == with_afters(old(formats)@, edits@),
{
    write_edits(formats, edits, true);
}

proof fn lemma_store_twice<C>(m: Map<C, CellFormat>, c: C, x: CellFormat, y: CellFormat)
    ensures
        store_format(store_format(m, c, x), c, y) == store_format(m, c, y),
{
    assert(store_format(store_format(m, c, x), c, y) =~= store_format(m, c, y));
}

proof fn lemma_store_commutes<C>(m: Map<C, CellFormat>, c: C, x: CellFormat, d: C, y: CellFormat)
    requires
        c != d,
    ensures
        store_format(store_format(m, c, x), d, y) == store_format(store_format(m, d, y), c, x),
{
    assert(store_format(store_format(m, c, x), d, y) =~= store_format(store_format(m, d, y), c, x));
}

proof fn lemma_store_current<C>(m: Map<C, CellFormat>, c: C)
    requires
        holds_no_plain(m),
    ensures
        store_format(m, c, format_of(m, c)) == m,
{
    assert(store_format(m, c, format_of(m, c)) =~= m);
}

/// The cells a list of edits touches.
pub open spec fn edited_cells<C>(edits: Seq<CellFormatEdit<C>>) -> Seq<C> {
    edits.map_values(|e: CellFormatEdit<C>| e.cell)
}

proof fn lemma_befores_past_other_cell<C>(
    m: Map<C, CellFormat>,
    edits: Seq<CellFormatEdit<C>>,
    c: C,
    x: CellFormat,
)
    requires
        !edited_cells(edits).contains(c),
    ensures
        with_befores(store_format(m, c, x), edits) == store_format(with_befores(m, edits), c, x),
    decreases edits.len(),
{
    if edits.len() > 0 {
        let rest = edits.drop_last();
        let e = edits.last();
        assert(edited_cells(edits)[edits.len() - 1] == e.cell);
        assert(e.cell != c);
        assert forall|k: C| edited_cells(rest).contains(k) implies edited_cells(edits).contains(k) by {
            let j = choose|j: int| 0 <= j < edited_cells(rest).len() && edited_cells(rest)[j] == k;
            assert(edited_cells(edits)[j] == k);
        }
        lemma_befores_past_other_cell(m, rest, c, x);
        lemma_store_commutes(with_befores(m, rest), c, x, e.cell, e.before);
    }
}

/// Restyling only edits cells it was given, and leaves every other cell
/// as it was.
proof fn lemma_restyle_run_frame<C>(
    m: Map<C, CellFormat>,
    cells: Seq<C>,
    g: spec_fn(C, CellFormat) -> CellFormat,
    k: C,
)
    ensures
        edited_cells(restyle_run(m, cells, g).1).contains(k) ==> cells.contains(k),
        !cells.contains(k) ==> format_of(restyle_run(m, cells, g).0, k) == format_of(m, k),
    decreases cells.len(),
{
    if cells.len() > 0 {
        let rest = cells.drop_last();
        lemma_restyle_run_frame(m, rest, g, k);
        let (m1, e1) = restyle_run(m, rest, g);
        let c = cells.last();
        if rest.contains(k) {
            let j = choose|j: int| 0 <= j < rest.len() && rest[j] == k;
            assert(cells[j] == k);
        }
        assert(cells[cells.len() - 1] == c);
        let before = format_of(m1, c);
        let after = g(c, before);
        if after != before {
            let e2 = e1.push(CellFormatEdit { cell: c, before, after });
            if edited_cells(e2).contains(k) {
                let j = choose|j: int| 0 <= j < edited_cells(e2).len() && edited_cells(e2)[j] == k;
                if j < e1.len() {
                    assert(edited_cells(e1)[j] == k);
                }
            }
        }
    }
}

/// Redoing a restyle's edits on the table it started from gives the
/// restyled table.
pub proof fn lemma_redo_restyle<C>(
    m: Map<C, CellFormat>,
    cells: Seq<C>,
    g: spec_fn(C, CellFormat) -> CellFormat,
)
    ensures
        with_afters(m, restyle_run(m, cells, g).1) == restyle_run(m, cells, g).0,
    decreases cells.len(),
{
    if cells.len() > 0 {
        lemma_redo_restyle(m, cells.drop_last(), g);
        let (m1, e1) = restyle_run(m, cells.drop_last(), g);
        let c = cells.last();
        let before = format_of(m1, c);
        let after = g(c, before);
        if after != before {
            let e2 = e1.push(CellFormatEdit { cell: c, before, after });
            assert(e2.drop_last() =~= e1);
        }
    }
}

/// Undoing a restyle of distinct cells gives back the table it started
/// from.
pub proof fn lemma_undo_restyle<C>(
    m: Map<C, CellFormat>,
    cells: Seq<C>,
    g: spec_fn(C, CellFormat) -> CellFormat,
)
    requires
        holds_no_plain(m),
        cells.no_duplicates(),
    ensures
        with_befores(restyle_run(m, cells, g).0, restyle_run(m, cells, g).1) == m,
    decreases cells.len(),
{
    if cells.len() > 0 {
        let rest = cells.drop_last();
        let c = cells.last();
        assert forall|a: int, b: int| 0 <= a < b < rest.len() implies rest[a] != rest[b] by {
            assert(rest[a] == cells[a] && rest[b] == cells[b]);
        }
        lemma_undo_restyle(m, rest, g);
        let (m1, e1) = restyle_run(m, rest, g);
        assert(!rest.contains(c)) by {
            if rest.contains(c) {
                let j = choose|j: int| 0 <= j < rest.len() && rest[j] == c;
                assert(cells[j] == cells[cells.len() - 1]);
            }
        }
        lemma_restyle_run_frame(m, rest, g, c);
        let before = format_of(m1, c);
        let after = g(c, before);
        if after != before {
            let e2 = e1.push(CellFormatEdit { cell: c, before, after });
            assert(e2.drop_last() =~= e1);
            lemma_befores_past_other_cell(m1, e1, c, after);
            lemma_store_twice(with_befores(m1, e1), c, after, before);
            lemma_store_current(m, c);
        }
    }
}

/// Two tables agree on `k`: both leave it unstyled, or both store the
/// same format for it.
pub open spec fn agree_at<C>(x: Map<C, CellFormat>, y: Map<C, CellFormat>, k: C) -> bool {
    &&& x.contains_key(k) == y.contains_key(k)
    &&& x.contains_key(k) ==> x[k] == y[k]
}

/// Restyling leaves every cell it did not list as an edit as it was.
proof fn lemma_restyle_run_keeps_unedited<C>(
    m: Map<C, CellFormat>,
    cells: Seq<C>,
    g: spec_fn(C, CellFormat) -> CellFormat,
    k: C,
)
    ensures
        !edited_cells(restyle_run(m, cells, g).1).contains(k) ==> agree_at(
            restyle_run(m, cells, g).0,
            m,
            k,
        ),
    decreases cells.len(),
{
    if cells.len() > 0 {
        let rest = cells.drop_last();
        lemma_restyle_run_keeps_unedited(m, rest, g, k);
        let (m1, e1) = restyle_run(m, rest, g);
        let c = cells.last();
        let before = format_of(m1, c);
        let after = g(c, before);
        if after != before {
            let e2 = e1.push(CellFormatEdit { cell: c, before, after });
            if !edited_cells(e2).contains(k) {
                assert(edited_cells(e2)[e2.len() - 1] == c);
                assert forall|j: int| 0 <= j < e1.len() implies edited_cells(e1)[j] != k by {
                    assert(edited_cells(e2)[j] == edited_cells(e1)[j]);
                }
            }
        }
    }
}

/// A restyle of distinct cells lists each edited cell once.
proof fn lemma_restyle_run_distinct_edits<C>(
    m: Map<C, CellFormat>,
    cells: Seq<C>,
    g: spec_fn(C, CellFormat) -> CellFormat,
)
    requires
        cells.no_duplicates(),
    ensures
        edited_cells(restyle_run(m, cells, g).1).no_duplicates(),
    decreases cells.len(),
{
    if cells.len() > 0 {
        let rest = cells.drop_last();
        let c = cells.last();
        assert forall|a: int, b: int| 0 <= a < b < rest.len() implies rest[a] != rest[b] by {
            assert(rest[a] == cells[a] && rest[b] == cells[b]);
        }
        lemma_restyle_run_distinct_edits(m, rest, g);
        lemma_restyle_run_frame(m, rest, g, c);
        assert(!rest.contains(c)) by {
            if rest.contains(c) {
                let j = choose|j: int| 0 <= j < rest.len() && rest[j] == c;
                assert(cells[j] == cells[cells.len() - 1]);
            }
        }
        let (m1, e1) = restyle_run(m, rest, g);
        let before = format_of(m1, c);
        let after = g(c, before);
        if after != before {
            let e2 = e1.push(CellFormatEdit { cell: c, before, after });
            let d1 = edited_cells(e1);
            let d2 = edited_cells(e2);
            assert forall|a: int, b: int| 0 <= a < b < d2.len() implies d2[a] != d2[b] by {
                if b == d2.len() - 1 {
                    assert(d2[a] == d1[a]);
                    assert(d1.contains(d1[a]));
                } else {
                    assert(d2[a] == d1[a] && d2[b] == d1[b]);
                }
            }
        }
    }
}

/// Writing the same befores over tables that agree outside a set `d`
/// gives tables that agree outside `d`, and on every cell written.
proof fn lemma_befores_agree<C>(
    x: Map<C, CellFormat>,
    y: Map<C, CellFormat>,
    edits: Seq<CellFormatEdit<C>>,
    d: Set<C>,
)
    requires
        forall|k: C| !d.contains(k) ==> agree_at(x, y, k),
    ensures
        forall|k: C|
            (!d.contains(k) || edited_cells(edits).contains(k)) ==> agree_at(
                with_befores(x, edits),
                with_befores(y, edits),
                k,
            ),
    decreases edits.len(),
{
    if edits.len() > 0 {
        let rest = edits.drop_last();
        let e = edits.last();
        lemma_befores_agree(x, y, rest, d);
        assert forall|k: C| (!d.contains(k) || edited_cells(edits).contains(k)) implies agree_at(
            with_befores(x, edits),
            with_befores(y, edits),
            k,
        ) by {
            assert(with_befores(x, edits) == store_format(with_befores(x, rest), e.cell, e.before));
            assert(with_befores(y, edits) == store_format(with_befores(y, rest), e.cell, e.before));
            if k != e.cell {
                if edited_cells(edits).contains(k) {
                    let j = choose|j: int|
                        0 <= j < edited_cells(edits).len() && edited_cells(edits)[j] == k;
                    assert(j != edits.len() - 1);
                    assert(edited_cells(rest)[j] == k);
                    assert(edited_cells(rest).contains(k));
                }
                assert(agree_at(with_befores(x, rest), with_befores(y, rest), k));
            }
        }
    }
}

/// Lists with the same cells and befores, entry by entry, undo alike.
proof fn lemma_befores_same_entries<C>(
    m: Map<C, CellFormat>,
    a: Seq<CellFormatEdit<C>>,
    b: Seq<CellFormatEdit<C>>,
)
    requires
        a.len() == b.len(),
        forall|i: int| 0 <= i < a.len() ==> a[i].cell == b[i].cell && a[i].before == b[i].before,
    ensures
        with_befores(m, a) == with_befores(m, b),
    decreases a.len(),
{
    if a.len() > 0 {
        lemma_befores_same_entries(m, a.drop_last(), b.drop_last());
    }
}

/// In a list of edits of distinct cells, the earliest `before` of an
/// entry's cell is that entry's own.
proof fn lemma_earliest_before_at<C>(prev: Seq<CellFormatEdit<C>>, k: int, fallback: CellFormat)
    requires
        edited_cells(prev).no_duplicates(),
        0 <= k < prev.len(),
    ensures
        earliest_before(prev, prev[k].cell, fallback) == prev[k].before,
    decreases prev.len(),
{
    if k > 0 {
        let rest = prev.drop_first();
        assert(edited_cells(prev)[0] != edited_cells(prev)[k]);
        assert forall|a: int, b: int| 0 <= a < b < edited_cells(rest).len() implies edited_cells(
            rest,
        )[a] != edited_cells(rest)[b] by {
            assert(edited_cells(rest)[a] == edited_cells(prev)[a + 1]);
            assert(edited_cells(rest)[b] == edited_cells(prev)[b + 1]);
        }
        assert(rest[k - 1] == prev[k]);
        lemma_earliest_before_at(rest, k - 1, fallback);
    }
}

/// A colour drag coalesced into one step undoes at once: restyling a
/// table twice, the second time touching the very cells the first one
/// edited, and undoing the merged batch gives back the table from
/// before the first restyle.
pub proof fn lemma_undo_coalesced_restyle<C>(
    m: Map<C, CellFormat>,
    cells1: Seq<C>,
    g1: spec_fn(C, CellFormat) -> CellFormat,
    cells2: Seq<C>,
    g2: spec_fn(C, CellFormat) -> CellFormat,
)
    requires
        holds_no_plain(m),
        cells1.no_duplicates(),
        edited_cells(restyle_run(m, cells1, g1).1) == edited_cells(
            restyle_run(restyle_run(m, cells1, g1).0, cells2, g2).1,
        ),
    ensures
        with_befores(
            restyle_run(restyle_run(m, cells1, g1).0, cells2, g2).0,
            merged_edits(
                restyle_run(m, cells1, g1).1,
                restyle_run(restyle_run(m, cells1, g1).0, cells2, g2).1,
            ),
        ) == m,
{
    let (m1, e1) = restyle_run(m, cells1, g1);
    let (m2, e2) = restyle_run(m1, cells2, g2);
    let merged = merged_edits(e1, e2);
    let d1 = edited_cells(e1);
    let d2 = edited_cells(e2);
    lemma_restyle_run_distinct_edits(m, cells1, g1);
    // The merged batch writes back the first batch's befores.
    assert(d1.len() == e1.len() && d2.len() == e2.len());
    assert forall|i: int| 0 <= i < e1.len() implies merged[i].cell == e1[i].cell
        && merged[i].before == e1[i].before by {
        assert(d1[i] == d2[i]);
        lemma_earliest_before_at(e1, i, e2[i].before);
    }
    lemma_befores_same_entries(m2, merged, e1);
    // The second restyle changed only cells the first batch writes back.
    let dset = d2.to_set();
    assert forall|k: C| !dset.contains(k) implies agree_at(m2, m1, k) by {
        lemma_restyle_run_keeps_unedited(m1, cells2, g2, k);
    }
    lemma_befores_agree(m2, m1, e1, dset);
    let a = with_befores(m2, e1);
    let b = with_befores(m1, e1);
    assert forall|k: C| #![all_triggers] agree_at(a, b, k) by {
        if dset.contains(k) {
            assert(d2.contains(k));
            assert(d1.contains(k));
        }
    }
    assert(a.dom() =~= b.dom()) by {
        assert forall|k: C| a.dom().contains(k) == b.dom().contains(k) by {
            assert(agree_at(a, b, k));
        }
    }
    assert forall|k: C| a.dom().contains(k) implies a[k] == b[k] by {
        assert(agree_at(a, b, k));
    }
    assert(a =~= b);
    lemma_undo_restyle(m, cells1, g1);
}

/// The hex twin of [`merge_format_edits`].
pub fn merge_hex_format_edits(prev: Vec<HexFormatEdit>, new: Vec<HexFormatEdit>) -> (out: Vec<HexFormatEdit>)
    ensures
        out@ == merged_edits(prev@, new@),
{
    merge_edits(prev, new)
}

/// One cell write: the cell's source before and after, on sheet
/// `sheet` (`None` is an empty cell).
#[derive(Debug, Clone)]
pub struct CellEdit<S> {
    pub sheet: S,
    pub addr: String,
    pub before: Option<String>,
    pub after: Option<String>,
}

/// One undoable step: a batch of cell writes, or of square or hex format
/// changes.
#[derive(Debug, Clone)]
pub enum Action<S> {
    Cells(Vec<CellEdit<S>>),
    Formats(Vec<FormatEdit>),
    HexFormats(Vec<HexFormatEdit>),
}

/// A cell source as text: `None` for an empty cell.
pub open spec fn source_text(s: Option<String>) -> Option<Seq<char>> {
    match s {
        Some(t) => Some(t@),
        None => None,
    }
}

/// Whether two cell sources say the same.
pub fn same_source(a: &Option<String>, b: &Option<String>) -> (same: bool)
    ensures
        same == (source_text(*a) == source_text(*b)),
{
    match (a, b) {
        (Some(x), Some(y)) => x.eq(y),
        (None, None) => true,
        _ => false,
    }
}

/// The cell edits of writing `writes` (address and new source) over
/// cells whose sources are `befores`, entry by entry: a write that
/// leaves the source as it was is dropped.
pub open spec fn kept_edits<S>(
    sheet: S,
    writes: Seq<(String, Option<String>)>,
    befores: Seq<Option<String>>,
) -> Seq<CellEdit<S>>
    decreases writes.len(),
{
    if writes.len() == 0 || befores.len() != writes.len() {
        Seq::empty()
    } else {
        let rest = kept_edits(sheet, writes.drop_last(), befores.drop_last());
        let (addr, after) = writes.last();
        let before = befores.last();
        if source_text(before) == source_text(after) {
            rest
        } else {
            rest.push(CellEdit { sheet, addr, before, after })
        }
    }
}

/// An undo step of cell edits never holds a no-op: every edit kept
/// changes its cell's source, and its address and new source are those
/// of some write of the batch.
pub proof fn lemma_kept_edits_change<S>(
    sheet: S,
    writes: Seq<(String, Option<String>)>,
    befores: Seq<Option<String>>,
)
    ensures
        forall|k: int|
            0 <= k < kept_edits(sheet, writes, befores).len() ==> {
                let e = #[trigger] kept_edits(sheet, writes, befores)[k];
                &&& source_text(e.before) != source_text(e.after)
                &&& exists|j: int| 0 <= j < writes.len() && writes[j] == (e.addr, e.after)
            },
    decreases writes.len(),
{
    if writes.len() > 0 && befores.len() == writes.len() {
        let rest_w = writes.drop_last();
        lemma_kept_edits_change(sheet, rest_w, befores.drop_last());
        let kept = kept_edits(sheet, writes, befores);
        let rest = kept_edits(sheet, rest_w, befores.drop_last());
        assert forall|k: int| 0 <= k < kept.len() implies {
            let e = #[trigger] kept[k];
            &&& source_text(e.before) != source_text(e.after)
            &&& exists|j: int| 0 <= j < writes.len() && writes[j] == (e.addr, e.after)
        } by {
            if k < rest.len() {
                let e = rest[k];
                assert(kept[k] == e);
                let j = choose|j: int| 0 <= j < rest_w.len() && rest_w[j] == (e.addr, e.after);
                assert(writes[j] == rest_w[j]);
            } else {
                assert(writes[writes.len() - 1] == writes.last());
            }
        }
    }
}

/// The undoable edits of a batch of cell writes: `writes` pairs each
/// address with its new source and `befores` holds each cell's current
/// source, in the same order. Writes that would not change their cell
/// are dropped, so an undo step never holds a no-op.
pub fn cell_edits<S: Copy>(
    sheet: S,
    writes: &Vec<(String, Option<String>)>,
    befores: &Vec<Option<String>>,
) -> (edits: Vec<CellEdit<S>>)
    requires
        writes@.len() == befores@.len(),
    ensures
        edits@ == kept_edits(sheet, writes@, befores@),
{
    let mut edits: Vec<CellEdit<S>> = Vec::new();
    let mut i: usize = 0;
    while i < writes.len()
        invariant
            writes@.len() == befores@.len(),
            i <= writes@.len(),
            edits@ == kept_edits(sheet, writes@.take(i as int), befores@.take(i as int)),
        decreases writes@.len() - i,
    {
        let (addr, after) = &writes[i];
        let before = &befores[i];
        proof {
            assert(writes@.take(i + 1).drop_last() =~= writes@.take(i as int));
            assert(befores@.take(i + 1).drop_last() =~= befores@.take(i as int));
            assert(writes@.take(i + 1).last() == writes@[i as int]);
            assert(befores@.take(i + 1).last() == befores@[i as int]);
        }
        if !same_source(before, after) {
            edits.push(
                CellEdit {
                    sheet,
                    addr: addr.clone(),
                    before: clone_source(before),
                    after: clone_source(after),
                },
            );
        }
        i = i + 1;
    }
    assert(writes@.take(writes@.len() as int) =~= writes@);
    assert(befores@.take(befores@.len() as int) =~= befores@);
    edits
}

fn clone_source(s: &Option<String>) -> (c: Option<String>)
    ensures
        c == *s,
{
    match s {
        Some(t) => Some(t.clone()),
        None => None,
    }
}

/// Record a batch of cell edits as one undo step — nothing, when the
/// batch is empty.
pub fn record_cell_edits<S: Clone>(history: &mut History<Action<S>>, edits: Vec<CellEdit<S>>)
    ensures
        final(history)@ == if edits@.len() == 0 {
            old(history)@
        } else {
            record_step(old(history)@, Action::Cells(edits))
        },
{
    if edits.len() > 0 {
        history.record(Action::Cells(edits));
    }
}

/// The cells a batch of format edits touches, in order.
pub fn touched_cells<C: Copy>(edits: &Vec<CellFormatEdit<C>>) -> (cells: Vec<C>)
    ensures
        cells@ == edited_cells(edits@),
{
    let mut cells: Vec<C> = Vec::new();
    let mut i: usize = 0;
    while i < edits.len()
        invariant
            i <= edits@.len(),
            cells@ == edited_cells(edits@.take(i as int)),
        decreases edits@.len() - i,
    {
        cells.push(edits[i].cell);
        assert(edited_cells(edits@.take(i + 1)) =~= edited_cells(edits@.take(i as int)).push(
            edits@[i as int].cell,
        ));
        i = i + 1;
    }
    assert(edits@.take(edits@.len() as int) =~= edits@);
    cells
}

/// Whether two lists name the same cells in the same order.
pub fn same_cells<C: CellKey + Copy>(a: &Vec<C>, b: &Vec<C>) -> (same: bool)
    ensures
        same == (a@ == b@),
{
    if a.len() != b.len() {
        return false;
    }
    let mut i: usize = 0;
    while i < a.len()
        invariant
            a@.len() == b@.len(),
            i <= a@.len(),
            forall|j: int| 0 <= j < i ==> a@[j] == b@[j],
        decreases a@.len() - i,
    {
        if !a[i].same(&b[i]) {
            return false;
        }
        i = i + 1;
    }
    assert(a@ =~= b@);
    true
}

/// Record a batch of square format edits as one undo step. With
/// `coalesce` — the same cells edited again a moment later, as a colour
/// drag does every frame — a format step on top of the history absorbs
/// the batch, keeping each cell's earliest `before`, so the whole drag
/// undoes at once; any other top stays and the batch goes on top.
pub fn record_format_edits<S: Clone>(
    history: &mut History<Action<S>>,
    edits: Vec<FormatEdit>,
    coalesce: bool,
)
    ensures
        (coalesce && old(history)@.0.len() > 0 && old(history)@.0.last() is Formats) ==> {
            &&& final(history)@.0.drop_last() == old(history)@.0.drop_last()
            &&& final(history)@.0.len() == old(history)@.0.len()
            &&& final(history)@.1.len() == 0
            &&& final(history)@.0.last() is Formats
            &&& final(history)@.0.last()->Formats_0@ == merged_edits(
                old(history)@.0.last()->Formats_0@,
                edits@,
            )
        },
        !(coalesce && old(history)@.0.len() > 0 && old(history)@.0.last() is Formats)
            ==> final(history)@ == record_step(old(history)@, Action::Formats(edits)),
{
    if !coalesce {
        history.record(Action::Formats(edits));
        return;
    }
    match history.pop_undo() {
        Some(Action::Formats(prev)) => {
            let merged = merge_format_edits(prev, edits);
            history.record(Action::Formats(merged));
        },
        Some(other) => {
            history.record(other);
            history.record(Action::Formats(edits));
            assert(history@.0 =~= old(history)@.0.push(Action::Formats(edits)));
        },
        None => {
            history.record(Action::Formats(edits));
        },
    }
}

/// The hex twin of [`record_format_edits`].
pub fn record_hex_format_edits<S: Clone>(
    history: &mut History<Action<S>>,
    edits: Vec<HexFormatEdit>,
    coalesce: bool,
)
    ensures
        (coalesce && old(history)@.0.len() > 0 && old(history)@.0.last() is HexFormats) ==> {
            &&& final(history)@.0.drop_last() == old(history)@.0.drop_last()
            &&& final(history)@.0.len() == old(history)@.0.len()
            &&& final(history)@.1.len() == 0
            &&& final(history)@.0.last() is HexFormats
            &&& final(history)@.0.last()->HexFormats_0@ == merged_edits(
                old(history)@.0.last()->HexFormats_0@,
                edits@,
            )
        },
        !(coalesce && old(history)@.0.len() > 0 && old(history)@.0.last() is HexFormats)
            ==> final(history)@ == record_step(old(history)@, Action::HexFormats(edits)),
{
    if !coalesce {
        history.record(Action::HexFormats(edits));
        return;
    }
    match history.pop_undo() {
        Some(Action::HexFormats(prev)) => {
            let merged = merge_hex_format_edits(prev, edits);
            history.record(Action::HexFormats(merged));
        },
        Some(other) => {
            history.record(other);
            history.record(Action::HexFormats(edits));
            assert(history@.0 =~= old(history)@.0.push(Action::HexFormats(edits)));
        },
        None => {
            history.record(Action::HexFormats(edits));
        },
    }
}

/// A formula error a cell can hold.
#[derive(Debug, Clone, PartialEq, Eq)]
pub enum CellError {
    Ref,
    Cycle,
    DivZero,
    Num,
    Value,
    /// A formula that does not parse, with the engine's message.
    Lang(String),
    /// A native formula that does not compile, with the compiler's message.
    Compile(String),
    Timeout,
    Spill,
    StaleFunction,
}

/// The spreadsheet-style short code of an error.
pub open spec fn code_of(err: CellError) -> Seq<char> {
    match err {
        CellError::Ref => "#REF!"@,
        CellError::Cycle => "#CYCLE!"@,
        CellError::DivZero => "#DIV/0!"@,
        CellError::Num => "#NUM!"@,
        CellError::Value => "#VALUE!"@,
        CellError::Lang(_) => "#PARSE!"@,
        CellError::Compile(_) => "#COMPILE!"@,
        CellError::Timeout => "#TIMEOUT!"@,
        CellError::Spill => "#SPILL!"@,
        CellError::StaleFunction => "#STALE!"@,
    }
}

/// The short code an errored cell displays.
pub fn error_code(err: &CellError) -> (s: &'static str)
    ensures
        s@ == code_of(*err),
{
    match err {
        CellError::Ref => "#REF!",
        CellError::Cycle => "#CYCLE!",
        CellError::DivZero => "#DIV/0!",
        CellError::Num => "#NUM!",
        CellError::Value => "#VALUE!",
        CellError::Lang(_) => "#PARSE!",
        CellError::Compile(_) => "#COMPILE!",
        CellError::Timeout => "#TIMEOUT!",
        CellError::Spill => "#SPILL!",
        CellError::StaleFunction => "#STALE!",
    }
}

/// The description of an error shown when an errored cell is hovered.
pub open spec fn detail_of(err: CellError) -> Seq<char> {
    match err {
        CellError::Ref => "Reference to a missing cell"@,
        CellError::Cycle => "Part of a dependency cycle"@,
        CellError::DivZero => "Division by zero"@,
        CellError::Num => "Numeric overflow or invalid number"@,
        CellError::Value => "Wrong type of value"@,
        CellError::Lang(msg) => "Formula error: "@ + msg@,
        CellError::Compile(msg) => "Compile error: "@ + msg@,
        CellError::Timeout => "Formula timed out"@,
        CellError::Spill => "Spill range is blocked"@,
        CellError::StaleFunction => "Stored function needs recalculation"@,
    }
}

/// A friendly description of a formula error; parse and compile errors
/// carry the engine's own message.
pub fn error_detail(err: &CellError) -> (s: String)
    ensures
        s@ == detail_of(*err),
{
    match err {
        CellError::Ref => "Reference to a missing cell".to_owned(),
        CellError::Cycle => "Part of a dependency cycle".to_owned(),
        CellError::DivZero => "Division by zero".to_owned(),
        CellError::Num => "Numeric overflow or invalid number".to_owned(),
        CellError::Value => "Wrong type of value".to_owned(),
        CellError::Lang(msg) => {
            let mut s = "Formula error: ".to_owned();
            s.append(msg.as_str());
            s
        },
        CellError::Compile(msg) => {
            let mut s = "Compile error: ".to_owned();
            s.append(msg.as_str());
            s
        },
        CellError::Timeout => "Formula timed out".to_owned(),
        CellError::Spill => "Spill range is blocked".to_owned(),
        CellError::StaleFunction => "Stored function needs recalculation".to_owned(),
    }
}

/// The formula languages a cell can be written in.
#[derive(Debug, Clone, Copy, PartialEq, Eq, Structural)]
pub enum EngineKind {
    ExcelLite,
    Python,
    Rhai,
    RustNative,
}

/// The name of a formula language.
pub open spec fn engine_name(kind: EngineKind) -> Seq<char> {
    match kind {
        EngineKind::ExcelLite => "Excelite"@,
        EngineKind::Python => "Python"@,
        EngineKind::Rhai => "Rhai"@,
        EngineKind::RustNative => "Rust"@,
    }
}

/// The language picker's label: the language's name, followed by
/// ` (default)` when the cell inherits the workbook's language rather
/// than overriding it.
pub fn engine_label(kind: EngineKind, is_override: bool) -> (s: String)
    ensures
        s@ == (if is_override {
            engine_name(kind)
        } else {
            engine_name(kind) + " (default)"@
        }),
{
    let base = match kind {
        EngineKind::ExcelLite => "Excelite",
        EngineKind::Python => "Python",
        EngineKind::Rhai => "Rhai",
        EngineKind::RustNative => "Rust",
    };
    let mut s = base.to_owned();
    if !is_override {
        s.append(" (default)");
    }
    s
}

/// The kind of condition picked in the conditional-format editor — a
/// condition without its threshold, which the editor's fields supply.
#[derive(Debug, Clone, Copy, PartialEq, Eq, Structural)]
pub enum CondKind {
    Greater,
    GreaterEqual,
    Less,
    LessEqual,
    Equal,
    NotEqual,
    Between,
    Contains,
    IsTrue,
    IsFalse,
    NonEmpty,
    IsEmpty,
}

/// The label a condition kind shows in the editor.
pub open spec fn cond_label(kind: CondKind) -> Seq<char> {
    match kind {
        CondKind::Greater => "greater than"@,
        CondKind::GreaterEqual => "greater or equal"@,
        CondKind::Less => "less than"@,
        CondKind::LessEqual => "less or equal"@,
        CondKind::Equal => "equal to"@,
        CondKind::NotEqual => "not equal to"@,
        CondKind::Between => "between"@,
        CondKind::Contains => "contains text"@,
        CondKind::IsTrue => "is TRUE"@,
        CondKind::IsFalse => "is FALSE"@,
        CondKind::NonEmpty => "non-empty"@,
        CondKind::IsEmpty => "empty"@,
    }
}

/// The kinds whose editor shows the first threshold field: the
/// comparisons, `Between` and `Contains`.
pub open spec fn takes_threshold(kind: CondKind) -> bool {
    match kind {
        CondKind::Greater | CondKind::GreaterEqual | CondKind::Less | CondKind::LessEqual
        | CondKind::Equal | CondKind::NotEqual | CondKind::Between | CondKind::Contains => true,
        _ => false,
    }
}

impl CondKind {
    /// Every kind, in the editor's order.
    pub fn all() -> (v: Vec<CondKind>)
        ensures
            v@ == seq![
                CondKind::Greater,
                CondKind::GreaterEqual,
                CondKind::Less,
                CondKind::LessEqual,
                CondKind::Equal,
                CondKind::NotEqual,
                CondKind::Between,
                CondKind::Contains,
                CondKind::IsTrue,
                CondKind::IsFalse,
                CondKind::NonEmpty,
                CondKind::IsEmpty,
            ],
    {
        let mut v: Vec<CondKind> = Vec::new();
        v.push(CondKind::Greater);
        v.push(CondKind::GreaterEqual);
        v.push(CondKind::Less);
        v.push(CondKind::LessEqual);
        v.push(CondKind::Equal);
        v.push(CondKind::NotEqual);
        v.push(CondKind::Between);
        v.push(CondKind::Contains);
        v.push(CondKind::IsTrue);
        v.push(CondKind::IsFalse);
        v.push(CondKind::NonEmpty);
        v.push(CondKind::IsEmpty);
        v
    }

    /// The label the kind shows in the editor.
    pub fn label(self) -> (s: &'static str)
        ensures
            s@ == cond_label(self),
    {
        match self {
            CondKind::Greater => "greater than",
            CondKind::GreaterEqual => "greater or equal",
            CondKind::Less => "less than",
            CondKind::LessEqual => "less or equal",
            CondKind::Equal => "equal to",
            CondKind::NotEqual => "not equal to",
            CondKind::Between => "between",
            CondKind::Contains => "contains text",
            CondKind::IsTrue => "is TRUE",
            CondKind::IsFalse => "is FALSE",
            CondKind::NonEmpty => "non-empty",
            CondKind::IsEmpty => "empty",
        }
    }

    /// Whether the kind needs the first threshold field.
    pub fn needs_threshold(self) -> (b: bool)
        ensures
            b == takes_threshold(self),
    {
        match self {
            CondKind::Greater | CondKind::GreaterEqual | CondKind::Less | CondKind::LessEqual
            | CondKind::Equal | CondKind::NotEqual | CondKind::Between | CondKind::Contains => true,
            _ => false,
        }
    }

    /// Whether the kind needs the second threshold field — only
    /// `Between`, whose range has an upper bound.
    pub fn needs_threshold2(self) -> (b: bool)
        ensures
            b == (self == CondKind::Between),
    {
        match self {
            CondKind::Between => true,
            _ => false,
        }
    }
}

/// A kind that needs the second threshold field needs the first too.
pub proof fn lemma_second_threshold_needs_first(kind: CondKind)
    requires
        kind == CondKind::Between,
    ensures
        takes_threshold(kind),
{
}

} // verus!
