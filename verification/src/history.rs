//! A generic undo/redo history — two stacks of entries.
//!
//! `History<E>` knows nothing about cells or the engine; it just moves
//! opaque entries between an undo stack and a redo stack. Its abstract
//! state is the pair `(undo, redo)` of stacks, most recent entry last.

use vstd::prelude::*;

verus! {

/// The abstract state of a history: the undo stack and the redo stack,
/// each with its most recent entry last.
pub type Stacks<E> = (Seq<E>, Seq<E>);

/// Recording a fresh action: it goes on the undo stack and the redo
/// future is dropped.
pub open spec fn record_step<E>(s: Stacks<E>, entry: E) -> Stacks<E> {
    (s.0.push(entry), Seq::empty())
}

/// Undoing: the most recent undo entry moves to the redo stack. With
/// nothing to undo, nothing changes.
pub open spec fn undo_step<E>(s: Stacks<E>) -> Stacks<E> {
    if s.0.len() == 0 {
        s
    } else {
        (s.0.drop_last(), s.1.push(s.0.last()))
    }
}

/// Redoing: the most recent redo entry moves back to the undo stack. With
/// nothing to redo, nothing changes.
pub open spec fn redo_step<E>(s: Stacks<E>) -> Stacks<E> {
    if s.1.len() == 0 {
        s
    } else {
        (s.0.push(s.1.last()), s.1.drop_last())
    }
}

/// Undoing with `copy` kept for redo: the most recent undo entry leaves
/// the undo stack and `copy` goes on the redo stack.
pub open spec fn undo_with<E>(s: Stacks<E>, copy: E) -> Stacks<E> {
    (s.0.drop_last(), s.1.push(copy))
}

/// Redoing with `copy` kept for undo: the most recent redo entry leaves
/// the redo stack and `copy` goes on the undo stack.
pub open spec fn redo_with<E>(s: Stacks<E>, copy: E) -> Stacks<E> {
    (s.0.push(copy), s.1.drop_last())
}

/// Cloning an entry gives an exact copy of it, as it does for the plain
/// values vstd specifies.
pub open spec fn exact_clones<E: Clone>() -> bool {
    forall|a: E, b: E| #[trigger] cloned(a, b) ==> a == b
}

/// Two stacks — done actions and undone actions — over an opaque entry.
pub struct History<E> {
    /// Applied actions, most recent on top.
    undo_stack: Vec<E>,
    /// Undone actions available to redo, most recent on top.
    redo_stack: Vec<E>,
}

impl<E> View for History<E> {
    type V = Stacks<E>;

    closed spec fn view(&self) -> Stacks<E> {
        (self.undo_stack@, self.redo_stack@)
    }
}

impl<E: Clone> History<E> {
    /// An empty history.
    pub fn new() -> (h: Self)
        ensures
            h@ == (Seq::<E>::empty(), Seq::<E>::empty()),
    {
        History { undo_stack: Vec::new(), redo_stack: Vec::new() }
    }

    /// Record a freshly-applied action. This invalidates the redo
    /// future — once you act, the actions you'd undone can't come back.
    pub fn record(&mut self, entry: E)
        ensures
            final(self)@ == record_step(old(self)@, entry),
    {
        self.undo_stack.push(entry);
        self.redo_stack.clear();
        assert(self@ =~= record_step(old(self)@, entry));
    }

    /// Remove and return the most recent undo entry, leaving the redo
    /// stack untouched — used to coalesce a fresh action into the
    /// previous one (the caller re-`record`s the merged result).
    pub fn pop_undo(&mut self) -> (r: Option<E>)
        ensures
            old(self)@.0.len() == 0 ==> r is None && final(self)@ == old(self)@,
            old(self)@.0.len() > 0 ==> r == Some(old(self)@.0.last()) && final(self)@ == (
                old(self)@.0.drop_last(),
                old(self)@.1,
            ),
    {
        let r = self.undo_stack.pop();
        proof {
            if old(self)@.0.len() > 0 {
                assert(self@.0 =~= old(self)@.0.drop_last());
            }
        }
        r
    }

    /// Take the most recent action to undo and hand it to the caller; a
    /// clone of it goes onto the redo stack, so a later
    /// [`redo`](Self::redo) can replay it.
    pub fn undo(&mut self) -> (r: Option<E>)
        ensures
            old(self)@.0.len() == 0 ==> r is None && final(self)@ == old(self)@,
            old(self)@.0.len() > 0 ==> {
                &&& r == Some(old(self)@.0.last())
                &&& final(self)@ == undo_with(old(self)@, final(self)@.1.last())
                &&& cloned(old(self)@.0.last(), final(self)@.1.last())
            },
            exact_clones::<E>() ==> final(self)@ == undo_step(old(self)@),
    {
        match self.undo_stack.pop() {
            None => None,
            Some(entry) => {
                let copy = entry.clone();
                self.redo_stack.push(copy);
                assert(self@ =~= undo_with(old(self)@, copy));
                Some(entry)
            },
        }
    }

    /// Take the most recently undone action to redo and hand it to the
    /// caller; a clone of it goes back onto the undo stack.
    pub fn redo(&mut self) -> (r: Option<E>)
        ensures
            old(self)@.1.len() == 0 ==> r is None && final(self)@ == old(self)@,
            old(self)@.1.len() > 0 ==> {
                &&& r == Some(old(self)@.1.last())
                &&& final(self)@ == redo_with(old(self)@, final(self)@.0.last())
                &&& cloned(old(self)@.1.last(), final(self)@.0.last())
            },
            exact_clones::<E>() ==> final(self)@ == redo_step(old(self)@),
    {
        match self.redo_stack.pop() {
            None => None,
            Some(entry) => {
                let copy = entry.clone();
                self.undo_stack.push(copy);
                assert(self@ =~= redo_with(old(self)@, copy));
                Some(entry)
            },
        }
    }

    /// Whether there is anything to undo.
    pub fn can_undo(&self) -> (b: bool)
        ensures
            b == (self@.0.len() > 0),
    {
        !self.undo_stack.is_empty()
    }

    /// Drop both stacks. Used after loading a workbook so undo doesn't
    /// reach back into actions from the prior workbook.
    pub fn clear(&mut self)
        ensures
            final(self)@ == (Seq::<E>::empty(), Seq::<E>::empty()),
    {
        self.undo_stack.clear();
        self.redo_stack.clear();
    }

    /// Whether there is anything to redo.
    pub fn can_redo(&self) -> (b: bool)
        ensures
            b == (self@.1.len() > 0),
    {
        !self.redo_stack.is_empty()
    }
}

impl<E: Clone> Default for History<E> {
    fn default() -> (h: Self)
        ensures
            h@ == (Seq::<E>::empty(), Seq::<E>::empty()),
    {
        Self::new()
    }
}

/// Undoing an action and then redoing it restores the history exactly
/// (the `undo` and `redo` methods take these steps when cloning an entry
/// copies it exactly).
pub proof fn lemma_redo_undoes_undo<E>(s: Stacks<E>)
    requires
        s.0.len() > 0,
    ensures
        redo_step(undo_step(s)) == s,
{
    assert(redo_step(undo_step(s)).0 =~= s.0);
    assert(redo_step(undo_step(s)).1 =~= s.1);
}

/// Redoing an action and then undoing it restores the history exactly
/// (the `undo` and `redo` methods take these steps when cloning an entry
/// copies it exactly).
pub proof fn lemma_undo_undoes_redo<E>(s: Stacks<E>)
    requires
        s.1.len() > 0,
    ensures
        undo_step(redo_step(s)) == s,
{
    assert(undo_step(redo_step(s)).0 =~= s.0);
    assert(undo_step(redo_step(s)).1 =~= s.1);
}

/// Undo and redo only move entries between the stacks: together they
/// always hold the same number of entries.
pub proof fn lemma_undo_redo_keep_entries<E>(s: Stacks<E>)
    ensures
        undo_step(s).0.len() + undo_step(s).1.len() == s.0.len() + s.1.len(),
        redo_step(s).0.len() + redo_step(s).1.len() == s.0.len() + s.1.len(),
{
}

/// After recording, nothing can be redone, and an undo takes the recorded
/// entry off the undo stack (the `undo` method hands back that very
/// entry).
pub proof fn lemma_record_then_undo<E>(s: Stacks<E>, entry: E)
    ensures
        record_step(s, entry).1.len() == 0,
        undo_step(record_step(s, entry)) == (s.0, seq![entry]),
{
    assert(undo_step(record_step(s, entry)).0 =~= s.0);
    assert(undo_step(record_step(s, entry)).1 =~= seq![entry]);
}

} // verus!
