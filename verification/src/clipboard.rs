//! The in-app clipboard — a rectangular block of copied cells.
//!
//! Each copied cell keeps **both** its raw source and its evaluated
//! value. A paste onto the *same* kind of sheet writes the source, so
//! formulas carry; a paste onto a *different* kind writes the value as a
//! plain literal, since the source's cell references (`B2`, `H(1,0)`, …)
//! don't translate across lattices.

use vstd::prelude::*;
use vstd::string::*;
use crate::lattice::HexCoord;
use crate::text::push_char;
use crate::nav::{hex_in_view, hex_visible, COLS, ROWS};

verus! {

/// One copied cell — its source, and its value rendered as a literal.
#[derive(Debug, PartialEq)]
pub struct CopiedCell {
    /// The raw source as the user typed it. `None` is a blank cell.
    pub source: Option<String>,
    /// The cell's evaluated value as a plain, re-typeable literal — what
    /// a cross-lattice paste writes in place of the (untranslatable)
    /// source. `None` when the cell evaluates to nothing.
    pub value: Option<String>,
}

impl Default for CopiedCell {
    fn default() -> (c: Self)
        ensures
            c.source is None,
            c.value is None,
    {
        CopiedCell { source: None, value: None }
    }
}

/// A rectangular block of copied cells, stored row-major.
#[derive(Debug)]
pub struct Clipboard {
    width: u32,
    height: u32,
    cells: Vec<CopiedCell>,
    /// Whether the block was copied from the hex sheet — paste compares
    /// this against the destination to choose source vs. value.
    from_hex: bool,
}

/// The option a paste writes: the source when the sheets are of the same
/// kind, else the value.
pub open spec fn paste_text(
    from_hex: bool,
    cell: CopiedCell,
    target_is_hex: bool,
) -> Option<String> {
    if from_hex == target_is_hex {
        cell.source
    } else {
        cell.value
    }
}

fn clone_text(t: &Option<String>) -> (r: Option<String>)
    ensures
        r == *t,
{
    match t {
        Some(s) => Some(s.clone()),
        None => None,
    }
}

impl Clipboard {
    /// One cell per position of the block.
    #[verifier::type_invariant]
    spec fn block_shape(self) -> bool {
        &&& self.cells@.len() == self.width * self.height
        &&& self.width * self.height <= u32::MAX
    }

    /// The block's width and height.
    pub closed spec fn dims(&self) -> (u32, u32) {
        (self.width, self.height)
    }

    /// The copied cells, row-major.
    pub closed spec fn copied(&self) -> Seq<CopiedCell> {
        self.cells@
    }

    /// Whether the block came from the hex sheet.
    pub closed spec fn copied_from_hex(&self) -> bool {
        self.from_hex
    }

    /// Capture a `width × height` block, row-major. `from_hex` records
    /// which kind of sheet it came from.
    pub fn capture(width: u32, height: u32, cells: Vec<CopiedCell>, from_hex: bool) -> (c: Self)
        requires
            width * height <= u32::MAX,
            cells@.len() == width * height,
        ensures
            c.dims() == (width, height),
            c.copied() == cells@,
            c.copied_from_hex() == from_hex,
    {
        Clipboard { width, height, cells, from_hex }
    }

    /// Whether the clipboard holds nothing.
    pub fn is_empty(&self) -> (b: bool)
        ensures
            b == (self.copied().len() == 0),
    {
        self.cells.is_empty()
    }

    /// `(width, height)` of the captured block.
    pub fn dimensions(&self) -> (d: (u32, u32))
        ensures
            d == self.dims(),
    {
        (self.width, self.height)
    }

    /// Every captured cell as `(rel_col, rel_row, &cell)`, row-major.
    pub fn entries(&self) -> (v: Vec<(u32, u32, &CopiedCell)>)
        ensures
            v@.len() == self.copied().len(),
            forall|i: int|
                0 <= i < v@.len() ==> #[trigger] v@[i] == (
                    (i % self.dims().0 as int) as u32,
                    (i / self.dims().0 as int) as u32,
                    &self.copied()[i],
                ),
    {
        proof {
            use_type_invariant(self);
        }
        let width = self.width;
        let mut v: Vec<(u32, u32, &CopiedCell)> = Vec::new();
        let mut i: usize = 0;
        while i < self.cells.len()
            invariant
                self.cells@.len() == self.width * self.height,
                self.width * self.height <= u32::MAX,
                width == self.width,
                i <= self.cells@.len(),
                v@.len() == i,
                forall|j: int|
                    0 <= j < i ==> #[trigger] v@[j] == (
                        (j % width as int) as u32,
                        (j / width as int) as u32,
                        &self.cells@[j],
                    ),
            decreases self.cells@.len() - i,
        {
            let k = i as u32;
            assert(width > 0) by {
                if width == 0 {
                    assert(self.width * self.height == 0) by (nonlinear_arith)
                        requires
                            self.width == 0,
                    ;
                }
            }
            assert(k / width <= k) by (nonlinear_arith)
                requires
                    width > 0,
            ;
            v.push((k % width, k / width, &self.cells[i]));
            i = i + 1;
        }
        v
    }

    /// What to write when pasting `cell` onto a sheet that is (or isn't)
    /// the hex sheet. Same kind as the copy → the source, so formulas
    /// carry; different kind → the value, since the source can't
    /// translate across lattices.
    pub fn source_for(&self, cell: &CopiedCell, target_is_hex: bool) -> (r: Option<String>)
        ensures
            r == paste_text(self.copied_from_hex(), *cell, target_is_hex),
    {
        if self.from_hex == target_is_hex {
            clone_text(&cell.source)
        } else {
            clone_text(&cell.value)
        }
    }
}

/// The writes of pasting the first `n` copied cells (row-major, in rows
/// `width` wide): cell `k` lands where `at` places its offset
/// `(k % width, k / width)`, or nowhere when `at` gives `None`.
pub open spec fn placed<C>(
    cells: Seq<CopiedCell>,
    width: int,
    from_hex: bool,
    to_hex: bool,
    at: spec_fn(int, int) -> Option<C>,
    n: int,
) -> Seq<(C, Option<String>)>
    decreases n,
{
    if n <= 0 {
        Seq::empty()
    } else {
        let prev = placed(cells, width, from_hex, to_hex, at, n - 1);
        let k = n - 1;
        match at(k % width, k / width) {
            Some(c) => prev.push((c, paste_text(from_hex, cells[k], to_hex))),
            None => prev,
        }
    }
}

/// Where a square paste at `cursor` puts the cell at offset `(i, j)`:
/// the cell that far right and down, if it is on the grid.
pub open spec fn square_spot(cursor: (u32, u32), i: int, j: int) -> Option<(u32, u32)> {
    if cursor.0 + i < COLS && cursor.1 + j < ROWS {
        Some(((cursor.0 + i) as u32, (cursor.1 + j) as u32))
    } else {
        None
    }
}

/// Where a hex paste at `cursor` puts the cell at offset `(i, j)`: the
/// hex `i` along `q` and `j` along `r`, if it is in the view.
pub open spec fn hex_spot(cursor: HexCoord, i: int, j: int) -> Option<HexCoord> {
    let h = HexCoord { q: (cursor.q + i) as i32, r: (cursor.r + j) as i32 };
    if hex_visible(h) {
        Some(h)
    } else {
        None
    }
}

impl Clipboard {
    /// Paste the block onto the square sheet with its top-left at
    /// `cursor`: each copied cell that lands on the grid, with what to
    /// write there, row-major; and the far corner of the pasted block,
    /// clamped to the grid, for the new selection. A block copied from
    /// the square sheet writes sources, one from the hex sheet values.
    pub fn square_paste(&self, cursor: (u32, u32)) -> (r: (Vec<((u32, u32), Option<String>)>, (u32, u32)))
        requires
            self.copied().len() > 0,
            cursor.0 < COLS,
            cursor.1 < ROWS,
        ensures
            r.0@ == placed(
                self.copied(),
                self.dims().0 as int,
                self.copied_from_hex(),
                false,
                |i: int, j: int| square_spot(cursor, i, j),
                self.copied().len() as int,
            ),
            r.1 == ((if cursor.0 + self.dims().0 - 1 < COLS {
                cursor.0 + self.dims().0 - 1
            } else {
                COLS - 1
            }) as u32, (if cursor.1 + self.dims().1 - 1 < ROWS {
                cursor.1 + self.dims().1 - 1
            } else {
                ROWS - 1
            }) as u32),
    {
        proof {
            use_type_invariant(self);
            if self.width == 0 || self.height == 0 {
                assert(self.width * self.height == 0) by (nonlinear_arith)
                    requires
                        self.width == 0 || self.height == 0,
                ;
            }
        }
        let ghost at = |i: int, j: int| square_spot(cursor, i, j);
        let entries = self.entries();
        let mut out: Vec<((u32, u32), Option<String>)> = Vec::new();
        let mut k: usize = 0;
        while k < entries.len()
            invariant
                entries@.len() == self.copied().len(),
                self.width > 0,
                self.copied().len() == self.width * self.height,
                self.width * self.height <= u32::MAX,
                forall|i: int|
                    0 <= i < entries@.len() ==> #[trigger] entries@[i] == (
                        (i % self.dims().0 as int) as u32,
                        (i / self.dims().0 as int) as u32,
                        &self.copied()[i],
                    ),
                cursor.0 < COLS,
                cursor.1 < ROWS,
                at == (|i: int, j: int| square_spot(cursor, i, j)),
                k <= entries@.len(),
                out@ == placed(
                    self.copied(),
                    self.dims().0 as int,
                    self.copied_from_hex(),
                    false,
                    at,
                    k as int,
                ),
            decreases entries@.len() - k,
        {
            let (rc, rr, cell) = entries[k];
            proof {
                let w = self.dims().0 as int;
                assert(0 <= (k as int) % w < w) by (nonlinear_arith)
                    requires
                        w > 0,
                ;
                assert(0 <= (k as int) / w <= k) by (nonlinear_arith)
                    requires
                        w > 0,
                        k >= 0,
                ;
            }
            if rc < COLS - cursor.0 && rr < ROWS - cursor.1 {
                let text = self.source_for(cell, false);
                out.push(((cursor.0 + rc, cursor.1 + rr), text));
            }
            k = k + 1;
        }
        let w = self.width;
        let h = self.height;
        let end_c = if w - 1 < COLS - cursor.0 {
            cursor.0 + (w - 1)
        } else {
            COLS - 1
        };
        let end_r = if h - 1 < ROWS - cursor.1 {
            cursor.1 + (h - 1)
        } else {
            ROWS - 1
        };
        (out, (end_c, end_r))
    }

    /// Paste the block onto the hex sheet with its origin at `cursor`:
    /// each copied cell whose hex lies in the view, with what to write
    /// there, row-major; and the hex of the block's far corner, for the
    /// new selection. A block copied from the hex sheet writes sources,
    /// one from the square sheet values.
    pub fn hex_paste(&self, cursor: HexCoord) -> (r: (Vec<(HexCoord, Option<String>)>, HexCoord))
        requires
            self.copied().len() > 0,
            self.dims().0 <= i32::MAX,
            self.dims().1 <= i32::MAX,
            cursor.q + self.dims().0 <= i32::MAX,
            cursor.r + self.dims().1 <= i32::MAX,
        ensures
            r.0@ == placed(
                self.copied(),
                self.dims().0 as int,
                self.copied_from_hex(),
                true,
                |i: int, j: int| hex_spot(cursor, i, j),
                self.copied().len() as int,
            ),
            r.1 == (HexCoord {
                q: (cursor.q + self.dims().0 - 1) as i32,
                r: (cursor.r + self.dims().1 - 1) as i32,
            }),
    {
        proof {
            use_type_invariant(self);
            if self.width == 0 || self.height == 0 {
                assert(self.width * self.height == 0) by (nonlinear_arith)
                    requires
                        self.width == 0 || self.height == 0,
                ;
            }
        }
        let ghost at = |i: int, j: int| hex_spot(cursor, i, j);
        let entries = self.entries();
        let mut out: Vec<(HexCoord, Option<String>)> = Vec::new();
        let mut k: usize = 0;
        while k < entries.len()
            invariant
                entries@.len() == self.copied().len(),
                self.width > 0,
                self.copied().len() == self.width * self.height,
                forall|i: int|
                    0 <= i < entries@.len() ==> #[trigger] entries@[i] == (
                        (i % self.dims().0 as int) as u32,
                        (i / self.dims().0 as int) as u32,
                        &self.copied()[i],
                    ),
                self.dims().0 <= i32::MAX,
                self.dims().1 <= i32::MAX,
                cursor.q + self.dims().0 <= i32::MAX,
                cursor.r + self.dims().1 <= i32::MAX,
                at == (|i: int, j: int| hex_spot(cursor, i, j)),
                k <= entries@.len(),
                out@ == placed(
                    self.copied(),
                    self.dims().0 as int,
                    self.copied_from_hex(),
                    true,
                    at,
                    k as int,
                ),
            decreases entries@.len() - k,
        {
            let (rc, rr, cell) = entries[k];
            proof {
                let w = self.dims().0 as int;
                let hh = self.dims().1 as int;
                assert(0 <= (k as int) % w < w) by (nonlinear_arith)
                    requires
                        w > 0,
                ;
                assert(0 <= (k as int) / w < hh) by (nonlinear_arith)
                    requires
                        w > 0,
                        0 <= k < w * hh,
                ;
            }
            let spot = HexCoord::new(cursor.q + rc as i32, cursor.r + rr as i32);
            if hex_in_view(spot) {
                let text = self.source_for(cell, true);
                out.push((spot, text));
            }
            k = k + 1;
        }
        let far = HexCoord::new(cursor.q + (self.width - 1) as i32, cursor.r + (self.height - 1) as i32);
        (out, far)
    }
}

/// A row of cell texts joined by tabs.
pub open spec fn tab_joined(row: Seq<Seq<char>>) -> Seq<char>
    decreases row.len(),
{
    if row.len() == 0 {
        Seq::empty()
    } else if row.len() == 1 {
        row[0]
    } else {
        tab_joined(row.drop_last()) + seq!['\t'] + row.last()
    }
}

/// A block of cell texts as tab-separated values: each row's texts
/// joined by tabs, and every row ended by a newline.
pub open spec fn tsv_text(rows: Seq<Seq<Seq<char>>>) -> Seq<char>
    decreases rows.len(),
{
    if rows.len() == 0 {
        Seq::empty()
    } else {
        tsv_text(rows.drop_last()) + tab_joined(rows.last()) + seq!['\n']
    }
}

/// The texts of a row of cells.
pub open spec fn row_texts(row: Seq<String>) -> Seq<Seq<char>> {
    row.map_values(|t: String| t@)
}

/// The tab-separated text a copy puts on the system clipboard: the
/// displayed text of each copied cell, rows top to bottom, cells left
/// to right, tabs between cells and a newline after every row.
pub fn tsv_block(rows: &Vec<Vec<String>>) -> (text: String)
    ensures
        text@ == tsv_text(rows@.map_values(|row: Vec<String>| row_texts(row@))),
{
    let ghost all = rows@.map_values(|row: Vec<String>| row_texts(row@));
    let mut text = String::new();
    let mut r: usize = 0;
    while r < rows.len()
        invariant
            r <= rows@.len(),
            all == rows@.map_values(|row: Vec<String>| row_texts(row@)),
            text@ == tsv_text(all.take(r as int)),
        decreases rows@.len() - r,
    {
        let row = &rows[r];
        let ghost texts = row_texts(row@);
        let ghost before = text@;
        let mut c: usize = 0;
        while c < row.len()
            invariant
                c <= row@.len(),
                texts == row_texts(row@),
                text@ == before + tab_joined(texts.take(c as int)),
            decreases row@.len() - c,
        {
            if c > 0 {
                push_char(&mut text, '\t');
            }
            text.append(row[c].as_str());
            proof {
                let t = texts.take(c as int + 1);
                assert(t.drop_last() =~= texts.take(c as int));
                assert(t.last() == row@[c as int]@);
                if c == 0 {
                    assert(tab_joined(texts.take(0)) =~= Seq::<char>::empty());
                }
            }
            c = c + 1;
        }
        push_char(&mut text, '\n');
        proof {
            assert(texts.take(row@.len() as int) =~= texts);
            let t = all.take(r as int + 1);
            assert(t.drop_last() =~= all.take(r as int));
            assert(t.last() == texts);
        }
        r = r + 1;
    }
    assert(all.take(rows@.len() as int) =~= all);
    text
}

/// What a copy records of one cell: its source, and its displayed value
/// unless that is empty.
pub fn copied_cell(source: Option<String>, value: String) -> (c: CopiedCell)
    ensures
        c.source == source,
        c.value == if value@.len() == 0 {
            None
        } else {
            Some(value)
        },
{
    let empty = value.unicode_len() == 0;
    CopiedCell { source, value: if empty {
        None
    } else {
        Some(value)
    } }
}

impl Clone for CopiedCell {
    fn clone(&self) -> (c: Self)
        ensures
            c == *self,
    {
        CopiedCell { source: clone_text(&self.source), value: clone_text(&self.value) }
    }
}

impl Clone for Clipboard {
    fn clone(&self) -> (c: Self)
        ensures
            c.dims() == self.dims(),
            c.copied() == self.copied(),
            c.copied_from_hex() == self.copied_from_hex(),
    {
        proof {
            use_type_invariant(self);
        }
        let mut cells: Vec<CopiedCell> = Vec::new();
        let mut i: usize = 0;
        while i < self.cells.len()
            invariant
                i <= self.cells@.len(),
                cells@ == self.cells@.take(i as int),
            decreases self.cells@.len() - i,
        {
            cells.push(self.cells[i].clone());
            assert(cells@ =~= self.cells@.take(i + 1));
            i = i + 1;
        }
        assert(cells@ =~= self.cells@);
        Clipboard { width: self.width, height: self.height, cells, from_hex: self.from_hex }
    }
}

impl Default for Clipboard {
    fn default() -> (c: Self)
        ensures
            c.dims() == (0u32, 0u32),
            c.copied().len() == 0,
            !c.copied_from_hex(),
    {
        Clipboard { width: 0, height: 0, cells: Vec::new(), from_hex: false }
    }
}

} // verus!
