//! Interactive cell widgets: which square cells render as a checkbox, a
//! slider or a button, and what a checkbox writes back into its cell.

use vstd::prelude::*;
use crate::keyed::{assoc, distinct_keys, find_key, lemma_assoc_at, lemma_assoc_len,
    lemma_assoc_push, lemma_assoc_remove, lemma_assoc_update};

verus! {

/// The widget a cell renders as. A slider carries its range as a value
/// of type `R` that the map only stores and hands back.
#[derive(Debug, Clone, Copy, PartialEq)]
pub enum WidgetKind<R> {
    /// A checkbox, checked when the cell holds `TRUE`.
    Toggle,
    /// A horizontal slider over `[min, max]`.
    Slider { min: R, max: R },
    /// A button that re-evaluates the cell's source when clicked.
    Button,
}

/// The widget a map gives a cell, if any.
pub open spec fn kind_at<R>(m: Map<(u32, u32), WidgetKind<R>>, cell: (u32, u32)) -> Option<
    WidgetKind<R>,
> {
    if m.contains_key(cell) {
        Some(m[cell])
    } else {
        None
    }
}

/// The map after giving `cell` the widget `kind`, or clearing it with
/// `None`.
pub open spec fn with_widget<R>(
    m: Map<(u32, u32), WidgetKind<R>>,
    cell: (u32, u32),
    kind: Option<WidgetKind<R>>,
) -> Map<(u32, u32), WidgetKind<R>> {
    match kind {
        Some(k) => m.insert(cell, k),
        None => m.remove(cell),
    }
}

/// The square cells that render as widgets.
#[derive(Debug)]
pub struct Widgets<R> {
    cells: Vec<((u32, u32), WidgetKind<R>)>,
}

impl<R> Widgets<R> {
    /// No cell is listed twice.
    #[verifier::type_invariant]
    spec fn well_formed(self) -> bool {
        distinct_keys(self.cells@)
    }
}

impl<R> View for Widgets<R> {
    type V = Map<(u32, u32), WidgetKind<R>>;

    closed spec fn view(&self) -> Map<(u32, u32), WidgetKind<R>> {
        assoc(self.cells@)
    }
}

impl<R: Copy> Default for Widgets<R> {
    fn default() -> (w: Self)
        ensures
            w@ == Map::<(u32, u32), WidgetKind<R>>::empty(),
    {
        let w = Widgets { cells: Vec::new() };
        assert(w@ =~= Map::<(u32, u32), WidgetKind<R>>::empty());
        w
    }
}

impl<R: Copy> Clone for Widgets<R> {
    fn clone(&self) -> (c: Self)
        ensures
            c@ == self@,
    {
        proof {
            use_type_invariant(self);
        }
        let mut cells: Vec<((u32, u32), WidgetKind<R>)> = Vec::new();
        let mut i: usize = 0;
        while i < self.cells.len()
            invariant
                i <= self.cells@.len(),
                cells@ == self.cells@.take(i as int),
            decreases self.cells@.len() - i,
        {
            cells.push(self.cells[i]);
            assert(cells@ =~= self.cells@.take(i + 1));
            i = i + 1;
        }
        assert(cells@ =~= self.cells@);
        Widgets { cells }
    }
}

impl<R: Copy> Widgets<R> {
    /// The widget on `cell`, if any.
    pub fn kind(&self, cell: (u32, u32)) -> (k: Option<WidgetKind<R>>)
        ensures
            k == kind_at(self@, cell),
    {
        proof {
            use_type_invariant(self);
        }
        match find_key(&self.cells, &cell) {
            Some(i) => {
                proof {
                    lemma_assoc_at(self.cells@, i as int);
                }
                Some(self.cells[i].1)
            },
            None => None,
        }
    }

    /// Whether `cell` is any widget.
    pub fn is_widget(&self, cell: (u32, u32)) -> (b: bool)
        ensures
            b == self@.contains_key(cell),
    {
        self.kind(cell).is_some()
    }

    /// Whether `cell` is a checkbox.
    pub fn is_toggle(&self, cell: (u32, u32)) -> (b: bool)
        ensures
            b == (self@.contains_key(cell) && self@[cell] is Toggle),
    {
        match self.kind(cell) {
            Some(WidgetKind::Toggle) => true,
            _ => false,
        }
    }

    /// Whether `cell` is a slider.
    pub fn is_slider(&self, cell: (u32, u32)) -> (b: bool)
        ensures
            b == (self@.contains_key(cell) && self@[cell] is Slider),
    {
        match self.kind(cell) {
            Some(WidgetKind::Slider { .. }) => true,
            _ => false,
        }
    }

    /// Whether `cell` is a button.
    pub fn is_button(&self, cell: (u32, u32)) -> (b: bool)
        ensures
            b == (self@.contains_key(cell) && self@[cell] is Button),
    {
        match self.kind(cell) {
            Some(WidgetKind::Button) => true,
            _ => false,
        }
    }

    /// Give `cell` the widget `kind`, replacing any it had, or clear its
    /// widget with `None`.
    pub fn set(&mut self, cell: (u32, u32), kind: Option<WidgetKind<R>>)
        ensures
            final(self)@ == with_widget(old(self)@, cell, kind),
            old(self)@.dom().finite(),
            final(self)@.dom().finite(),
    {
        proof {
            use_type_invariant(&*self);
            lemma_assoc_len(self.cells@);
        }
        let found = find_key(&self.cells, &cell);
        let ghost s = self.cells@;
        let mut cells: Vec<((u32, u32), WidgetKind<R>)> = Vec::new();
        std::mem::swap(&mut cells, &mut self.cells);
        match (found, kind) {
            (Some(i), Some(k)) => {
                cells.set(i, (cell, k));
                proof {
                    lemma_assoc_update(s, i as int, k);
                    assert(cells@ =~= s.update(i as int, (s[i as int].0, k)));
                }
            },
            (Some(i), None) => {
                cells.remove(i);
                proof {
                    lemma_assoc_remove(s, i as int);
                }
            },
            (None, Some(k)) => {
                cells.push((cell, k));
                proof {
                    lemma_assoc_push(s, cell, k);
                }
            },
            (None, None) => {
                assert(!assoc(s).contains_key(cell));
                assert(assoc(s).remove(cell) =~= assoc(s));
            },
        }
        self.cells = cells;
        proof {
            use_type_invariant(&*self);
            lemma_assoc_len(self.cells@);
        }
    }

    /// Turn `cell` into a checkbox (`on`) or clear its widget (`!on`).
    pub fn set_toggle(&mut self, cell: (u32, u32), on: bool)
        ensures
            final(self)@ == with_widget(
                old(self)@,
                cell,
                if on {
                    Some(WidgetKind::Toggle)
                } else {
                    None
                },
            ),
    {
        if on {
            self.set(cell, Some(WidgetKind::Toggle));
        } else {
            self.set(cell, None);
        }
    }

    /// Turn `cell` into a slider over `[min, max]`, replacing any widget
    /// it had.
    pub fn set_slider(&mut self, cell: (u32, u32), min: R, max: R)
        ensures
            final(self)@ == old(self)@.insert(cell, WidgetKind::Slider { min, max }),
    {
        self.set(cell, Some(WidgetKind::Slider { min, max }));
    }

    /// Turn `cell` into a button (`on`) or clear its widget (`!on`).
    pub fn set_button(&mut self, cell: (u32, u32), on: bool)
        ensures
            final(self)@ == with_widget(
                old(self)@,
                cell,
                if on {
                    Some(WidgetKind::Button)
                } else {
                    None
                },
            ),
    {
        if on {
            self.set(cell, Some(WidgetKind::Button));
        } else {
            self.set(cell, None);
        }
    }

    /// Toggle checkboxes across `cells`, the selection: when every one of
    /// them is already a checkbox, clear them all; otherwise make them all
    /// checkboxes. Other cells keep their widgets.
    pub fn toggle_cells(&mut self, cells: &Vec<(u32, u32)>)
        ensures
            ({
                let on = !(forall|j: int|
                    0 <= j < cells@.len() ==> old(self)@.contains_key(#[trigger] cells@[j])
                        && old(self)@[cells@[j]] is Toggle);
                &&& forall|k: (u32, u32)|
                    cells@.contains(k) ==> kind_at(final(self)@, k) == if on {
                        Some(WidgetKind::<R>::Toggle)
                    } else {
                        None::<WidgetKind<R>>
                    }
                &&& forall|k: (u32, u32)|
                    !cells@.contains(k) ==> kind_at(final(self)@, k) == kind_at(old(self)@, k)
            }),
    {
        let mut all_on = true;
        let mut i: usize = 0;
        while i < cells.len()
            invariant
                i <= cells@.len(),
                all_on == (forall|j: int|
                    0 <= j < i ==> self@.contains_key(#[trigger] cells@[j]) && self@[cells@[j]] is Toggle),
            decreases cells@.len() - i,
        {
            if !self.is_toggle(cells[i]) {
                all_on = false;
            }
            i = i + 1;
        }
        let on = !all_on;
        let ghost before = self@;
        let mut i: usize = 0;
        while i < cells.len()
            invariant
                i <= cells@.len(),
                forall|j: int|
                    0 <= j < i ==> kind_at(self@, #[trigger] cells@[j]) == if on {
                        Some(WidgetKind::<R>::Toggle)
                    } else {
                        None::<WidgetKind<R>>
                    },
                forall|k: (u32, u32)|
                    !cells@.take(i as int).contains(k) ==> kind_at(self@, k) == kind_at(before, k),
            decreases cells@.len() - i,
        {
            let ghost prev = self@;
            self.set_toggle(cells[i], on);
            assert forall|k: (u32, u32)| !cells@.take(i + 1).contains(k) implies kind_at(self@, k)
                == kind_at(before, k) by {
                assert(k != cells@[i as int]) by {
                    assert(cells@.take(i + 1)[i as int] == cells@[i as int]);
                }
                if cells@.take(i as int).contains(k) {
                    let j = choose|j: int| 0 <= j < i && cells@.take(i as int)[j] == k;
                    assert(cells@.take(i + 1)[j] == k);
                }
            }
            i = i + 1;
        }
        assert(cells@.take(cells@.len() as int) =~= cells@);
        assert forall|k: (u32, u32)| cells@.contains(k) implies kind_at(self@, k) == if on {
            Some(WidgetKind::<R>::Toggle)
        } else {
            None::<WidgetKind<R>>
        } by {
            let j = choose|j: int| 0 <= j < cells@.len() && cells@[j] == k;
            assert(kind_at(self@, cells@[j]) == if on {
                Some(WidgetKind::<R>::Toggle)
            } else {
                None::<WidgetKind<R>>
            });
        }
    }

    /// Whether no cell carries a widget.
    pub fn is_empty(&self) -> (b: bool)
        ensures
            b == (self@.len() == 0),
    {
        proof {
            use_type_invariant(self);
            lemma_assoc_len(self.cells@);
        }
        self.cells.len() == 0
    }

    /// How many cells carry a widget.
    pub fn count(&self) -> (n: usize)
        ensures
            n == self@.len(),
            self@.dom().finite(),
    {
        proof {
            use_type_invariant(self);
            lemma_assoc_len(self.cells@);
        }
        self.cells.len()
    }
}

/// Reading a cell right after setting its widget gives that widget back
/// (nothing, after a clear), and every other cell keeps its widget.
pub proof fn lemma_kind_after_set<R>(
    m: Map<(u32, u32), WidgetKind<R>>,
    cell: (u32, u32),
    kind: Option<WidgetKind<R>>,
    other: (u32, u32),
)
    ensures
        kind_at(with_widget(m, cell, kind), cell) == kind,
        other != cell ==> kind_at(with_widget(m, cell, kind), other) == kind_at(m, other),
{
}

/// Setting a cell that already has a widget replaces it: the number of
/// widget cells grows by one only when the cell had none, and a clear
/// shrinks it by one only when the cell had one.
pub proof fn lemma_count_after_set<R>(
    m: Map<(u32, u32), WidgetKind<R>>,
    cell: (u32, u32),
    kind: Option<WidgetKind<R>>,
)
    requires
        m.dom().finite(),
    ensures
        with_widget(m, cell, kind).len() == match kind {
            Some(_) => if m.contains_key(cell) {
                m.len() as int
            } else {
                m.len() + 1int
            },
            None => if m.contains_key(cell) {
                m.len() - 1
            } else {
                m.len() as int
            },
        },
{
    match kind {
        Some(k) => {
            if m.contains_key(cell) {
                assert(m.insert(cell, k).dom() =~= m.dom());
            }
        },
        None => {
            if !m.contains_key(cell) {
                assert(m.remove(cell).dom() =~= m.dom());
            }
        },
    }
}

/// The source a checkbox writes for its state — a literal the formula
/// engine reads straight back as the boolean.
pub fn bool_source(checked: bool) -> (s: &'static str)
    ensures
        s@ == (if checked {
            "TRUE"@
        } else {
            "FALSE"@
        }),
{
    if checked {
        "TRUE"
    } else {
        "FALSE"
    }
}

} // verus!
