//! Cell notes — a free-text comment attached to a cell.
//!
//! [`NoteMap`] maps a lattice coordinate `K` to a note. A cell absent from
//! the map has no note, and setting a blank note removes the entry — so
//! an empty map is a sheet with no notes.

use vstd::prelude::*;
use crate::keyed::{assoc, distinct_keys, find_key, keys_of, lemma_assoc_at, lemma_assoc_len,
    lemma_assoc_push, lemma_assoc_remove, lemma_assoc_update};
use crate::lattice::CellKey;
use crate::text::{is_blank, str_is_blank};

verus! {

/// The note a map gives a cell: its text, or the empty text when the cell
/// has none.
pub open spec fn note_text<K>(m: Map<K, Seq<char>>, cell: K) -> Seq<char> {
    if m.contains_key(cell) {
        m[cell]
    } else {
        Seq::empty()
    }
}

/// The notes after setting `cell`'s note to `text`: a blank text removes
/// the note, any other replaces it.
pub open spec fn set_note<K>(m: Map<K, Seq<char>>, cell: K, text: Seq<char>) -> Map<K, Seq<char>> {
    if is_blank(text) {
        m.remove(cell)
    } else {
        m.insert(cell, text)
    }
}

/// Free-text notes attached to cells, keyed by a lattice's coordinate
/// type `K` — `(u32, u32)` for the square sheet, `HexCoord` for the hex
/// sheet.
#[derive(Debug)]
pub struct NoteMap<K> {
    notes: Vec<(K, String)>,
}

impl<K> NoteMap<K> {
    /// No cell is listed twice, and no stored note is blank.
    #[verifier::type_invariant]
    spec fn well_formed(self) -> bool {
        &&& distinct_keys(self.notes@)
        &&& forall|i: int| 0 <= i < self.notes@.len() ==> !is_blank((#[trigger] self.notes@[i]).1@)
    }
}

impl<K> View for NoteMap<K> {
    type V = Map<K, Seq<char>>;

    closed spec fn view(&self) -> Map<K, Seq<char>> {
        assoc(self.notes@).map_values(|s: String| s@)
    }
}

impl<K: CellKey + Copy> Default for NoteMap<K> {
    fn default() -> (m: Self)
        ensures
            m@ == Map::<K, Seq<char>>::empty(),
    {
        let m = NoteMap { notes: Vec::new() };
        assert(m@ =~= Map::<K, Seq<char>>::empty());
        m
    }
}

impl<K: CellKey + Copy> Clone for NoteMap<K> {
    fn clone(&self) -> (c: Self)
        ensures
            c@ == self@,
    {
        proof {
            use_type_invariant(self);
        }
        let mut notes: Vec<(K, String)> = Vec::new();
        let mut i: usize = 0;
        while i < self.notes.len()
            invariant
                i <= self.notes@.len(),
                notes@ == self.notes@.take(i as int),
            decreases self.notes@.len() - i,
        {
            let (k, t) = &self.notes[i];
            notes.push((*k, t.clone()));
            assert(notes@ =~= self.notes@.take(i + 1));
            i = i + 1;
        }
        assert(notes@ =~= self.notes@);
        NoteMap { notes }
    }
}

impl<K: CellKey + Copy> NoteMap<K> {
    pub fn new() -> (m: Self)
        ensures
            m@ == Map::<K, Seq<char>>::empty(),
    {
        Self::default()
    }

    /// The note on a cell — `""` when it has none. A stored note is never
    /// blank.
    pub fn get(&self, cell: K) -> (r: &str)
        ensures
            r@ == note_text(self@, cell),
            self@.contains_key(cell) ==> !is_blank(r@),
    {
        proof {
            use_type_invariant(self);
        }
        match find_key(&self.notes, &cell) {
            Some(i) => {
                proof {
                    lemma_assoc_at(self.notes@, i as int);
                    assert(!is_blank(self.notes@[i as int].1@));
                }
                self.notes[i].1.as_str()
            },
            None => {
                proof {
                    reveal_strlit("");
                }
                ""
            },
        }
    }

    /// Whether a cell carries a note.
    pub fn has(&self, cell: K) -> (b: bool)
        ensures
            b == self@.contains_key(cell),
    {
        proof {
            use_type_invariant(self);
        }
        match find_key(&self.notes, &cell) {
            Some(i) => {
                proof {
                    lemma_assoc_at(self.notes@, i as int);
                }
                true
            },
            None => false,
        }
    }

    /// Set a cell's note. Text that is empty or all whitespace removes
    /// the note instead, so the map only ever holds real content.
    pub fn set(&mut self, cell: K, text: &str)
        ensures
            final(self)@ == set_note(old(self)@, cell, text@),
            old(self)@.dom().finite(),
            final(self)@.dom().finite(),
    {
        proof {
            use_type_invariant(&*self);
            lemma_assoc_len(self.notes@);
            assert(self@.dom() =~= assoc(self.notes@).dom());
        }
        let blank = str_is_blank(text);
        let found = find_key(&self.notes, &cell);
        let ghost s = self.notes@;
        match found {
            Some(i) => {
                if blank {
                    let mut notes: Vec<(K, String)> = Vec::new();
                    std::mem::swap(&mut notes, &mut self.notes);
                    notes.remove(i);
                    proof {
                        lemma_assoc_remove(s, i as int);
                        assert forall|j: int| 0 <= j < notes@.len() implies !is_blank(
                            (#[trigger] notes@[j]).1@,
                        ) by {
                            if j < i {
                                assert(notes@[j] == s[j]);
                            } else {
                                assert(notes@[j] == s[j + 1]);
                            }
                        }
                    }
                    self.notes = notes;
                    assert(self@ =~= set_note(old(self)@, cell, text@));
                } else {
                    let mut notes: Vec<(K, String)> = Vec::new();
                    std::mem::swap(&mut notes, &mut self.notes);
                    notes.set(i, (cell, text.to_string()));
                    proof {
                        lemma_assoc_update(s, i as int, notes@[i as int].1);
                        assert(notes@ =~= s.update(i as int, (s[i as int].0, notes@[i as int].1)));
                    }
                    self.notes = notes;
                    assert(self@ =~= set_note(old(self)@, cell, text@));
                }
            },
            None => {
                if blank {
                    assert(!old(self)@.contains_key(cell));
                    assert(self@ =~= set_note(old(self)@, cell, text@));
                } else {
                    let mut notes: Vec<(K, String)> = Vec::new();
                    std::mem::swap(&mut notes, &mut self.notes);
                    notes.push((cell, text.to_string()));
                    proof {
                        lemma_assoc_push(s, cell, notes@[notes@.len() - 1].1);
                        assert(notes@ =~= s.push((cell, notes@[notes@.len() - 1].1)));
                    }
                    self.notes = notes;
                    assert(self@ =~= set_note(old(self)@, cell, text@));
                }
            },
        }
        proof {
            use_type_invariant(&*self);
            lemma_assoc_len(self.notes@);
            assert(self@.dom() =~= assoc(self.notes@).dom());
        }
    }

    /// How many cells carry a note.
    pub fn count(&self) -> (n: usize)
        ensures
            n == self@.len(),
            self@.dom().finite(),
    {
        proof {
            use_type_invariant(self);
            lemma_assoc_len(self.notes@);
            assert(self@.dom() =~= assoc(self.notes@).dom());
        }
        self.notes.len()
    }
}

/// Reading a cell right after setting its note gives that note back — or
/// the empty text when the note set was blank.
pub proof fn lemma_get_after_set<K>(m: Map<K, Seq<char>>, cell: K, text: Seq<char>)
    ensures
        note_text(set_note(m, cell, text), cell) == (if is_blank(text) {
            Seq::<char>::empty()
        } else {
            text
        }),
{
}

/// Setting one cell's note leaves every other cell's note as it was.
pub proof fn lemma_set_leaves_other_cells<K>(
    m: Map<K, Seq<char>>,
    cell: K,
    text: Seq<char>,
    other: K,
)
    requires
        other != cell,
    ensures
        note_text(set_note(m, cell, text), other) == note_text(m, other),
{
}

} // verus!
