//! Editing a formula by pointing at cells. Every lattice routes its
//! formula-mode clicks and drags through these functions: the lattice
//! supplies a way to write a cell's address and a way to compare two
//! cells, and that is enough to put `A1`, `A1:C3` or the hex equivalents
//! into the edit buffer.

use vstd::prelude::*;
use vstd::string::*;
use crate::lattice::CellKey;
use crate::text::{byte_len, cut, cuts_at, lemma_cut_at_prefix, is_ws, trim_start};

verus! {

/// A formula-mode drag in progress: the start cell and the byte offset in
/// the edit buffer where the range text begins. Each later drag frame
/// cuts the buffer back to `buffer_anchor` and writes the newest range.
#[derive(Debug, Clone, Copy, PartialEq)]
pub struct DragState<C: Copy> {
    pub start: C,
    pub buffer_anchor: usize,
}

/// The first and last cell of the reference the user last pointed at,
/// drawn as a marquee on the grid.
#[derive(Debug, Clone, Copy, PartialEq)]
pub struct Highlight<C: Copy> {
    pub start: C,
    pub end: C,
}

/// A pointer event over a lattice cell. `Idle` is a frame in which
/// nothing happened.
#[derive(Debug, Clone, Copy, PartialEq)]
pub enum Event<C: Copy> {
    Idle,
    Clicked(C),
    DragStarted(C),
    Dragged(C),
    DragStopped,
}

/// The text written for a drag between two distinct cells, given their
/// addresses `a` and `b`: `a:b`.
pub open spec fn span_text(a: Seq<char>, b: Seq<char>) -> Seq<char> {
    a + seq![':'] + b
}

/// What a drag frame leaves in a buffer that held `before`, when the drag
/// is anchored at byte `anchor`, started on `start` and is now over
/// `cell`: the text up to the anchor, then the start address alone while
/// the pointer is on the start cell, or `start:cell` otherwise.
pub open spec fn extended<C, F: Fn(C) -> String>(
    before: Seq<char>,
    anchor: int,
    start: C,
    cell: C,
    address: F,
    after: Seq<char>,
) -> bool {
    if cell == start {
        exists|a: String| call_ensures(address, (start,), a) && after == cut(before, anchor) + a@
    } else {
        exists|a: String, b: String|
            call_ensures(address, (start,), a) && call_ensures(address, (cell,), b) && after
                == cut(before, anchor) + span_text(a@, b@)
    }
}

/// What a single-cell insert leaves in a buffer that held `before`: the
/// address of `cell` appended.
pub open spec fn appended<C, F: Fn(C) -> String>(
    before: Seq<char>,
    cell: C,
    address: F,
    after: Seq<char>,
) -> bool {
    exists|a: String| call_ensures(address, (cell,), a) && after == before + a@
}

/// Whether `s` is a formula: its first non-whitespace character is `=`.
pub open spec fn is_formula(s: Seq<char>) -> bool {
    trim_start(s).len() > 0 && trim_start(s)[0] == '='
}

/// The anchor a drag starts with — the byte length of the buffer before
/// the start address went in — is a place `String::truncate` accepts in
/// the grown buffer, and cutting there gives back the text from before the
/// drag; so every later drag frame rewrites only the reference.
pub proof fn lemma_anchor_cuts_back(before: Seq<char>, added: Seq<char>)
    ensures
        cuts_at(before + added, byte_len(before)),
        cut(before + added, byte_len(before)) == before,
{
    let grown = before + added;
    assert(grown.take(before.len() as int) =~= before);
    lemma_cut_at_prefix(grown, before.len() as int);
}

/// Appends a single-cell reference to `buffer` and asks for re-focus
/// through `fresh`. Returns the highlight to draw until the edit ends.
pub fn click_insert<C: Copy>(
    buffer: &mut String,
    fresh: &mut bool,
    cell: C,
    address: impl Fn(C) -> String,
) -> (h: Highlight<C>)
    requires
        call_requires(address, (cell,)),
    ensures
        appended(old(buffer)@, cell, address, final(buffer)@),
        *final(fresh),
        h == (Highlight { start: cell, end: cell }),
{
    let a = address(cell);
    buffer.append(a.as_str());
    *fresh = true;
    Highlight { start: cell, end: cell }
}

/// Begins a formula-mode drag at `cell`: the buffer's byte length becomes
/// the anchor and the start cell's address is appended. Returns the drag
/// to remember across frames and the single-cell highlight.
pub fn drag_start<C: Copy>(
    buffer: &mut String,
    fresh: &mut bool,
    cell: C,
    address: impl Fn(C) -> String,
) -> (r: (DragState<C>, Highlight<C>))
    requires
        call_requires(address, (cell,)),
    ensures
        appended(old(buffer)@, cell, address, final(buffer)@),
        *final(fresh),
        r.0 == (DragState { start: cell, buffer_anchor: byte_len(old(buffer)@) as usize }),
        r.1 == (Highlight { start: cell, end: cell }),
{
    let buffer_anchor = buffer.as_str().len();
    let a = address(cell);
    buffer.append(a.as_str());
    *fresh = true;
    (DragState { start: cell, buffer_anchor }, Highlight { start: cell, end: cell })
}

/// Continues a drag: cuts the buffer back to the anchor and writes the
/// current range there — the start address alone while the pointer is on
/// the start cell, `start:current` otherwise. Returns the highlight.
pub fn drag_extend<C: Copy + CellKey>(
    buffer: &mut String,
    fresh: &mut bool,
    drag: &DragState<C>,
    cell: C,
    address: impl Fn(C) -> String,
) -> (h: Highlight<C>)
    requires
        call_requires(address, (drag.start,)),
        call_requires(address, (cell,)),
        cuts_at(old(buffer)@, drag.buffer_anchor as int),
    ensures
        extended(old(buffer)@, drag.buffer_anchor as int, drag.start, cell, address, final(buffer)@),
        *final(fresh),
        h == (Highlight { start: drag.start, end: cell }),
{
    let a = address(drag.start);
    let mut range = String::new();
    range.append(a.as_str());
    let ghost mut b_view: Seq<char> = Seq::empty();
    if !cell.same(&drag.start) {
        let b = address(cell);
        range.append(":");
        range.append(b.as_str());
        proof {
            reveal_strlit(":");
            assert(range@ =~= span_text(a@, b@));
            b_view = b@;
        }
    }
    let ghost before = buffer@;
    crate::text::truncate_bytes(buffer, drag.buffer_anchor);
    proof {
        if (drag.buffer_anchor as int) < byte_len(before) {
            let k = choose|k: int|
                0 <= k <= before.len() && #[trigger] byte_len(before.take(k))
                    == drag.buffer_anchor as int && buffer@ == before.take(k);
            lemma_cut_at_prefix(before, k);
        }
    }
    buffer.append(range.as_str());
    *fresh = true;
    proof {
        assert(range@ == a@ || range@ == span_text(a@, b_view));
    }
    Highlight { start: drag.start, end: cell }
}

/// Whether the buffer is a formula being edited: its first
/// non-whitespace character is `=`.
pub fn is_formula_buffer(buffer: &str) -> (b: bool)
    ensures
        b == is_formula(buffer@),
{
    let n = buffer.unicode_len();
    let mut i: usize = 0;
    assert(buffer@.skip(0) =~= buffer@);
    while i < n && crate::text::char_is_whitespace(buffer.get_char(i))
        invariant
            n == buffer@.len(),
            i <= n,
            trim_start(buffer@) == trim_start(buffer@.skip(i as int)),
        decreases n - i,
    {
        proof {
            let t = buffer@.skip(i as int);
            assert(t.drop_first() =~= buffer@.skip(i + 1));
        }
        i = i + 1;
    }
    proof {
        let t = buffer@.skip(i as int);
        if i < n {
            assert(!is_ws(t[0]));
        }
    }
    i < n && buffer.get_char(i) == '='
}

/// Turns one frame's pointer flags into a single event. A started drag
/// wins over a continuing one, which wins over a stopped one, which wins
/// over a click; with no cell under the pointer a cell-bearing event
/// becomes `Idle`.
pub fn event_from_response<C: Copy>(
    clicked: bool,
    drag_started: bool,
    dragged: bool,
    drag_stopped: bool,
    cell: Option<C>,
) -> (e: Event<C>)
    ensures
        e == (if drag_started {
            match cell {
                Some(c) => Event::DragStarted(c),
                None => Event::Idle,
            }
        } else if dragged {
            match cell {
                Some(c) => Event::Dragged(c),
                None => Event::Idle,
            }
        } else if drag_stopped {
            Event::DragStopped
        } else if clicked {
            match cell {
                Some(c) => Event::Clicked(c),
                None => Event::Idle,
            }
        } else {
            Event::Idle
        }),
{
    if drag_started {
        return match cell {
            Some(c) => Event::DragStarted(c),
            None => Event::Idle,
        };
    }
    if dragged {
        return match cell {
            Some(c) => Event::Dragged(c),
            None => Event::Idle,
        };
    }
    if drag_stopped {
        return Event::DragStopped;
    }
    if clicked {
        return match cell {
            Some(c) => Event::Clicked(c),
            None => Event::Idle,
        };
    }
    Event::Idle
}

/// Runs an event through the formula-mode click and drag handling and
/// returns the new drag and highlight. When the buffer is not a formula,
/// or nothing happened, the drag is kept, no highlight is returned and
/// the buffer is left alone.
pub fn dispatch<C: Copy + CellKey>(
    buffer: &mut String,
    fresh: &mut bool,
    current_drag: Option<DragState<C>>,
    event: Event<C>,
    address: impl Fn(C) -> String,
) -> (r: (Option<DragState<C>>, Option<Highlight<C>>))
    requires
        forall|c: C| call_requires(address, (c,)),
        (is_formula(old(buffer)@) && event is Dragged && current_drag is Some) ==> cuts_at(
            old(buffer)@,
            current_drag->0.buffer_anchor as int,
        ),
    ensures
        !is_formula(old(buffer)@) ==> r == (current_drag, None::<Highlight<C>>) && final(buffer)@
            == old(buffer)@ && *final(fresh) == *old(fresh),
        is_formula(old(buffer)@) ==> match event {
            Event::Idle => r == (current_drag, None::<Highlight<C>>)
                && final(buffer)@ == old(buffer)@ && *final(fresh) == *old(fresh),
            Event::DragStopped => r == (None::<DragState<C>>, None::<Highlight<C>>)
                && final(buffer)@ == old(buffer)@ && *final(fresh) == *old(fresh),
            Event::DragStarted(c) => *final(fresh) && r == (
                Some(DragState { start: c, buffer_anchor: byte_len(old(buffer)@) as usize }),
                Some(Highlight { start: c, end: c }),
            ) && appended(old(buffer)@, c, address, final(buffer)@),
            Event::Clicked(c) => *final(fresh) && r == (
                None::<DragState<C>>,
                Some(Highlight { start: c, end: c }),
            ) && appended(old(buffer)@, c, address, final(buffer)@),
            Event::Dragged(c) => match current_drag {
                Some(d) => *final(fresh) && r == (Some(d), Some(Highlight { start: d.start, end: c }))
                    && extended(old(buffer)@, d.buffer_anchor as int, d.start, c, address, final(buffer)@),
                None => *final(fresh) && r == (
                    None::<DragState<C>>,
                    Some(Highlight { start: c, end: c }),
                ) && appended(old(buffer)@, c, address, final(buffer)@),
            },
        },
{
    if !is_formula_buffer(buffer.as_str()) {
        return (current_drag, None);
    }
    match event {
        Event::Idle => (current_drag, None),
        Event::DragStarted(c) => {
            let (drag, h) = drag_start(buffer, fresh, c, address);
            (Some(drag), Some(h))
        },
        Event::Dragged(c) => {
            if let Some(drag) = current_drag {
                let h = drag_extend(buffer, fresh, &drag, c, address);
                (Some(drag), Some(h))
            } else {
                let h = click_insert(buffer, fresh, c, address);
                (None, Some(h))
            }
        },
        Event::DragStopped => (None, None),
        Event::Clicked(c) => {
            let h = click_insert(buffer, fresh, c, address);
            (None, Some(h))
        },
    }
}

} // verus!
