//! The selected-range model, shared by every lattice.
//!
//! A [`Selection<C>`] is an `anchor` cell and a `cursor` (the active
//! cell); the selected range is the inclusive rectangle spanning the two,
//! a single cell when they coincide. Each lattice supplies a [`Coord`]
//! implementation; the selection logic itself is lattice-agnostic.

use vstd::prelude::*;
use crate::lattice::{CellKey, HexCoord, TriCoord, VoronoiCoord};

verus! {

/// A zero-indexed `(column, row)` cell on the square grid.
pub type Cell = (u32, u32);

/// Which way a fill propagates across the selection.
#[derive(Debug, Clone, Copy, PartialEq, Eq, Structural)]
pub enum FillDir {
    Down,
    Right,
}

/// The pairs `(o, i)` with `o` in `olo..=ohi` and `i` in `ilo..=ihi`,
/// `o`-major: every `i` of the first `o`, then every `i` of the next.
pub open spec fn block(olo: int, ohi: int, ilo: int, ihi: int) -> Seq<(int, int)>
    decreases ohi - olo + 1,
{
    if ohi < olo {
        seq![]
    } else {
        block(olo, ohi - 1, ilo, ihi) + line(ohi, ilo, ihi)
    }
}

/// The pairs `(o, i)` with `i` in `ilo..=ihi`, in order.
pub open spec fn line(o: int, ilo: int, ihi: int) -> Seq<(int, int)> {
    Seq::new(
        if ihi < ilo {
            0
        } else {
            (ihi - ilo + 1) as nat
        },
        |k: int| (o, ilo + k),
    )
}

/// A pair is in a block exactly when both parts lie in their ranges.
pub proof fn lemma_block_members(olo: int, ohi: int, ilo: int, ihi: int, p: (int, int))
    ensures
        block(olo, ohi, ilo, ihi).contains(p) <==> (olo <= p.0 <= ohi && ilo <= p.1 <= ihi),
    decreases ohi - olo + 1,
{
    if ohi >= olo {
        lemma_block_members(olo, ohi - 1, ilo, ihi, p);
        let b = block(olo, ohi - 1, ilo, ihi);
        let l = line(ohi, ilo, ihi);
        if (b + l).contains(p) {
            let k = choose|k: int| 0 <= k < (b + l).len() && (b + l)[k] == p;
            if k >= b.len() {
                assert(l[k - b.len()] == p);
            } else {
                assert(b[k] == p);
            }
        }
        if olo <= p.0 <= ohi && ilo <= p.1 <= ihi {
            if p.0 == ohi {
                assert(l[p.1 - ilo] == p);
                assert((b + l)[b.len() + p.1 - ilo] == p);
            } else {
                let k = choose|k: int| 0 <= k < b.len() && b[k] == p;
                assert((b + l)[k] == p);
            }
        }
    }
}

/// No pair occurs twice in a block.
pub proof fn lemma_block_distinct(olo: int, ohi: int, ilo: int, ihi: int)
    ensures
        block(olo, ohi, ilo, ihi).no_duplicates(),
    decreases ohi - olo + 1,
{
    if ohi >= olo {
        lemma_block_distinct(olo, ohi - 1, ilo, ihi);
        let b = block(olo, ohi - 1, ilo, ihi);
        let l = line(ohi, ilo, ihi);
        let s = b + l;
        assert forall|i: int, j: int| 0 <= i < s.len() && 0 <= j < s.len() && i != j implies s[i]
            != s[j] by {
            if i < b.len() && j >= b.len() {
                lemma_block_members(olo, ohi - 1, ilo, ihi, s[i]);
                assert(b.contains(s[i]));
            } else if j < b.len() && i >= b.len() {
                lemma_block_members(olo, ohi - 1, ilo, ihi, s[j]);
                assert(b.contains(s[j]));
            }
        }
    }
}

/// Coordinate operations a [`Selection`] needs, framed on normalised
/// `(min, max)` rectangles. Each lattice's coordinate implements them.
pub trait Coord: CellKey + Sized {
    /// The min corner of the rectangle spanning `a` and `b`.
    spec fn lo(a: Self, b: Self) -> Self;

    /// The max corner of the rectangle spanning `a` and `b`.
    spec fn hi(a: Self, b: Self) -> Self;

    /// Whether `c` lies in the inclusive rectangle `[min, max]`.
    spec fn in_rect(min: Self, max: Self, c: Self) -> bool;

    /// The cells of `[min, max]` in enumeration order.
    spec fn rect_seq(min: Self, max: Self) -> Seq<Self>;

    /// Whether the spans of `[min, max]` fit the coordinate arithmetic.
    spec fn spans_fit(min: Self, max: Self) -> bool;

    /// Whether the spans and the cell count of `[min, max]` fit the
    /// coordinate arithmetic.
    spec fn rect_fits(min: Self, max: Self) -> bool;

    /// The per-axis spans of `[min, max]`.
    spec fn dims(min: Self, max: Self) -> (u32, u32);

    /// The `(target, source)` pairs of a fill of `[min, max]` along `dir`.
    spec fn fill_seq(min: Self, max: Self, dir: FillDir) -> Seq<(Self, Self)>;

    /// Whether a fill of `[min, max]` along `dir` stays within the
    /// coordinate arithmetic.
    spec fn fill_fits(min: Self, max: Self, dir: FillDir) -> bool;

    /// The neighbour one step back along `dir`, if the lattice has one.
    spec fn back(c: Self, dir: FillDir) -> Option<Self>;

    /// Whether stepping back from `c` stays within the coordinate
    /// arithmetic.
    spec fn back_fits(c: Self, dir: FillDir) -> bool;

    /// The enumeration lists exactly the cells of the rectangle, each
    /// once.
    proof fn lemma_rect_members(min: Self, max: Self)
        ensures
            forall|c: Self| Self::rect_seq(min, max).contains(c) <==> Self::in_rect(min, max, c),
            Self::rect_seq(min, max).no_duplicates(),
    ;

    /// The rectangle spanning a cell and itself is that one cell.
    proof fn lemma_single_cell(c: Self)
        ensures
            forall|x: Self| Self::in_rect(Self::lo(c, c), Self::hi(c, c), x) <==> x == c,
    ;

    /// Normalised `(min, max)` corners of the rectangle spanning `self`
    /// and `other`.
    fn min_max(self, other: Self) -> (r: (Self, Self))
        ensures
            r == (Self::lo(self, other), Self::hi(self, other)),
    ;

    /// Every cell of the inclusive rectangle `[min, max]`.
    fn rect_cells(min: Self, max: Self) -> (v: Vec<Self>)
        requires
            Self::rect_fits(min, max),
        ensures
            v@ == Self::rect_seq(min, max),
    ;

    /// Whether `coord` falls inside the inclusive rectangle.
    fn rect_contains(min: Self, max: Self, coord: Self) -> (b: bool)
        ensures
            b == Self::in_rect(min, max, coord),
    ;

    /// Per-axis spans of the rectangle.
    fn rect_dims(min: Self, max: Self) -> (d: (u32, u32))
        requires
            Self::spans_fit(min, max),
        ensures
            d == Self::dims(min, max),
    ;

    /// `(target, source)` pairs filling the rectangle from its leading
    /// edge along `dir`; empty when the rectangle is one cell deep along
    /// that axis.
    fn rect_fill_targets(min: Self, max: Self, dir: FillDir) -> (v: Vec<(Self, Self)>)
        requires
            Self::fill_fits(min, max, dir),
        ensures
            v@ == Self::fill_seq(min, max, dir),
    ;

    /// One cell back along `dir`, or `None` past the lattice's edge.
    fn step_back(self, dir: FillDir) -> (r: Option<Self>)
        requires
            Self::back_fits(self, dir),
        ensures
            r == Self::back(self, dir),
    ;
}

/// The square cell at `(column, row)` for a `(row, column)` pair.
pub open spec fn square_at(p: (int, int)) -> Cell {
    (p.1 as u32, p.0 as u32)
}

/// The square cells of rows `r0..=r1`, columns `c0..=c1`, row-major.
pub open spec fn square_block(r0: int, r1: int, c0: int, c1: int) -> Seq<Cell> {
    block(r0, r1, c0, c1).map_values(|p: (int, int)| square_at(p))
}

/// Fill-down pairs of columns `c0..=c1`: each cell of rows `r0 + 1..=r1`
/// takes the cell of row `r0` above it.
pub open spec fn square_fill_down(c0: int, c1: int, r0: int, r1: int) -> Seq<(Cell, Cell)> {
    block(c0, c1, r0 + 1, r1).map_values(
        |p: (int, int)| ((p.0 as u32, p.1 as u32), (p.0 as u32, r0 as u32)),
    )
}

/// Fill-right pairs of rows `r0..=r1`: each cell of columns `c0 + 1..=c1`
/// takes the cell of column `c0` on its left.
pub open spec fn square_fill_right(r0: int, r1: int, c0: int, c1: int) -> Seq<(Cell, Cell)> {
    block(r0, r1, c0 + 1, c1).map_values(
        |p: (int, int)| ((p.1 as u32, p.0 as u32), (c0 as u32, p.0 as u32)),
    )
}

impl Coord for (u32, u32) {
    open spec fn lo(a: Self, b: Self) -> Self {
        (
            if a.0 <= b.0 {
                a.0
            } else {
                b.0
            },
            if a.1 <= b.1 {
                a.1
            } else {
                b.1
            },
        )
    }

    open spec fn hi(a: Self, b: Self) -> Self {
        (
            if a.0 >= b.0 {
                a.0
            } else {
                b.0
            },
            if a.1 >= b.1 {
                a.1
            } else {
                b.1
            },
        )
    }

    open spec fn in_rect(min: Self, max: Self, c: Self) -> bool {
        min.0 <= c.0 <= max.0 && min.1 <= c.1 <= max.1
    }

    open spec fn rect_seq(min: Self, max: Self) -> Seq<Self> {
        square_block(min.1 as int, max.1 as int, min.0 as int, max.0 as int)
    }

    open spec fn spans_fit(min: Self, max: Self) -> bool {
        min.0 <= max.0 && min.1 <= max.1 && max.0 - min.0 < u32::MAX && max.1 - min.1 < u32::MAX
    }

    open spec fn rect_fits(min: Self, max: Self) -> bool {
        Self::spans_fit(min, max) && (max.0 - min.0 + 1) * (max.1 - min.1 + 1) <= u32::MAX
    }

    open spec fn dims(min: Self, max: Self) -> (u32, u32) {
        ((max.0 - min.0 + 1) as u32, (max.1 - min.1 + 1) as u32)
    }

    open spec fn fill_seq(min: Self, max: Self, dir: FillDir) -> Seq<(Self, Self)> {
        match dir {
            FillDir::Down => square_fill_down(min.0 as int, max.0 as int, min.1 as int, max.1 as int),
            FillDir::Right => square_fill_right(
                min.1 as int,
                max.1 as int,
                min.0 as int,
                max.0 as int,
            ),
        }
    }

    open spec fn fill_fits(min: Self, max: Self, dir: FillDir) -> bool {
        match dir {
            FillDir::Down => min.0 <= max.0 ==> min.1 < u32::MAX,
            FillDir::Right => min.1 <= max.1 ==> min.0 < u32::MAX,
        }
    }

    open spec fn back(c: Self, dir: FillDir) -> Option<Self> {
        match dir {
            FillDir::Down => if c.1 > 0 {
                Some((c.0, (c.1 - 1) as u32))
            } else {
                None
            },
            FillDir::Right => if c.0 > 0 {
                Some(((c.0 - 1) as u32, c.1))
            } else {
                None
            },
        }
    }

    open spec fn back_fits(c: Self, dir: FillDir) -> bool {
        true
    }

    proof fn lemma_rect_members(min: Self, max: Self) {
        let b = block(min.1 as int, max.1 as int, min.0 as int, max.0 as int);
        let s = Self::rect_seq(min, max);
        assert forall|c: Self| s.contains(c) <==> Self::in_rect(min, max, c) by {
            lemma_block_members(min.1 as int, max.1 as int, min.0 as int, max.0 as int, (c.1 as int, c.0 as int));
            if s.contains(c) {
                let k = choose|k: int| 0 <= k < s.len() && s[k] == c;
                lemma_block_members(min.1 as int, max.1 as int, min.0 as int, max.0 as int, b[k]);
                assert(b.contains(b[k]));
            }
            if Self::in_rect(min, max, c) {
                let k = choose|k: int| 0 <= k < b.len() && b[k] == (c.1 as int, c.0 as int);
                assert(s[k] == c);
            }
        }
        lemma_block_distinct(min.1 as int, max.1 as int, min.0 as int, max.0 as int);
        assert forall|i: int, j: int| 0 <= i < s.len() && 0 <= j < s.len() && i != j implies s[i]
            != s[j] by {
            lemma_block_members(min.1 as int, max.1 as int, min.0 as int, max.0 as int, b[i]);
            lemma_block_members(min.1 as int, max.1 as int, min.0 as int, max.0 as int, b[j]);
            assert(b.contains(b[i]));
            assert(b.contains(b[j]));
        }
    }

    proof fn lemma_single_cell(c: Self) {
    }

    fn min_max(self, other: Self) -> (r: (Self, Self)) {
        let (a, b) = (self, other);
        (
            (
                if a.0 <= b.0 {
                    a.0
                } else {
                    b.0
                },
                if a.1 <= b.1 {
                    a.1
                } else {
                    b.1
                },
            ),
            (
                if a.0 >= b.0 {
                    a.0
                } else {
                    b.0
                },
                if a.1 >= b.1 {
                    a.1
                } else {
                    b.1
                },
            ),
        )
    }

    fn rect_cells(min: Self, max: Self) -> (v: Vec<Self>) {
        let (mc, mr) = min;
        let (xc, xr) = max;
        let mut out: Vec<Cell> = Vec::new();
        let mut r: u64 = mr as u64;
        while r <= xr as u64
            invariant
                mr <= r <= xr as int + 1,
                mc <= xc,
                out@ == square_block(mr as int, r - 1, mc as int, xc as int),
            decreases xr as int + 1 - r,
        {
            let mut c: u64 = mc as u64;
            while c <= xc as u64
                invariant
                    mc <= c <= xc as int + 1,
                    mr <= r <= xr,
                    out@ == square_block(mr as int, r - 1, mc as int, xc as int) + line(
                        r as int,
                        mc as int,
                        c - 1,
                    ).map_values(|p: (int, int)| square_at(p)),
                decreases xc as int + 1 - c,
            {
                out.push((c as u32, r as u32));
                assert(line(r as int, mc as int, c as int) =~= line(r as int, mc as int, c - 1).push(
                    (r as int, c as int),
                ));
                assert(out@ =~= square_block(mr as int, r - 1, mc as int, xc as int) + line(
                    r as int,
                    mc as int,
                    c as int,
                ).map_values(|p: (int, int)| square_at(p)));
                c = c + 1;
            }
            assert(square_block(mr as int, r as int, mc as int, xc as int) =~= square_block(
                mr as int,
                r - 1,
                mc as int,
                xc as int,
            ) + line(r as int, mc as int, xc as int).map_values(|p: (int, int)| square_at(p)));
            r = r + 1;
        }
        out
    }

    fn rect_contains(min: Self, max: Self, coord: Self) -> (b: bool) {
        let (mc, mr) = min;
        let (xc, xr) = max;
        let (c, r) = coord;
        c >= mc && c <= xc && r >= mr && r <= xr
    }

    fn rect_dims(min: Self, max: Self) -> (d: (u32, u32)) {
        let (mc, mr) = min;
        let (xc, xr) = max;
        (xc - mc + 1, xr - mr + 1)
    }

    fn rect_fill_targets(min: Self, max: Self, dir: FillDir) -> (v: Vec<(Self, Self)>) {
        let (mc, mr) = min;
        let (xc, xr) = max;
        let mut pairs: Vec<(Cell, Cell)> = Vec::new();
        match dir {
            FillDir::Down => {
                let mut c: u64 = mc as u64;
                while c <= xc as u64
                    invariant
                        mc <= c <= (if mc <= xc { xc as int + 1 } else { mc as int }),
                        mc <= xc ==> mr < u32::MAX,
                        pairs@ == square_fill_down(mc as int, c - 1, mr as int, xr as int),
                    decreases xc as int + 1 - c,
                {
                    let mut r: u64 = mr as u64 + 1;
                    while r <= xr as u64
                        invariant
                            mr + 1 <= r <= (if xr >= mr + 1 { xr as int + 1 } else { mr as int + 1 }),
                            mc <= c <= xc,
                            mr < u32::MAX,
                            pairs@ == square_fill_down(mc as int, c - 1, mr as int, xr as int)
                                + line(c as int, mr + 1, r - 1).map_values(
                                |p: (int, int)| ((p.0 as u32, p.1 as u32), (p.0 as u32, mr)),
                            ),
                        decreases xr as int + 1 - r,
                    {
                        pairs.push(((c as u32, r as u32), (c as u32, mr)));
                        assert(line(c as int, mr + 1, r as int) =~= line(c as int, mr + 1, r - 1).push(
                            (c as int, r as int),
                        ));
                        assert(pairs@ =~= square_fill_down(mc as int, c - 1, mr as int, xr as int)
                            + line(c as int, mr + 1, r as int).map_values(
                            |p: (int, int)| ((p.0 as u32, p.1 as u32), (p.0 as u32, mr)),
                        ));
                        r = r + 1;
                    }
                    assert(line(c as int, mr + 1, r - 1) =~= line(c as int, mr + 1, xr as int));
                    assert(square_fill_down(mc as int, c as int, mr as int, xr as int)
                        =~= square_fill_down(mc as int, c - 1, mr as int, xr as int) + line(
                        c as int,
                        mr + 1,
                        xr as int,
                    ).map_values(|p: (int, int)| ((p.0 as u32, p.1 as u32), (p.0 as u32, mr))));
                    c = c + 1;
                }
                assert(square_fill_down(mc as int, c - 1, mr as int, xr as int) =~= square_fill_down(
                    mc as int,
                    xc as int,
                    mr as int,
                    xr as int,
                ));
            },
            FillDir::Right => {
                let mut r: u64 = mr as u64;
                while r <= xr as u64
                    invariant
                        mr <= r <= (if mr <= xr { xr as int + 1 } else { mr as int }),
                        mr <= xr ==> mc < u32::MAX,
                        pairs@ == square_fill_right(mr as int, r - 1, mc as int, xc as int),
                    decreases xr as int + 1 - r,
                {
                    let mut c: u64 = mc as u64 + 1;
                    while c <= xc as u64
                        invariant
                            mc + 1 <= c <= (if xc >= mc + 1 { xc as int + 1 } else { mc as int + 1 }),
                            mr <= r <= xr,
                            mc < u32::MAX,
                            pairs@ == square_fill_right(mr as int, r - 1, mc as int, xc as int)
                                + line(r as int, mc + 1, c - 1).map_values(
                                |p: (int, int)| ((p.1 as u32, p.0 as u32), (mc, p.0 as u32)),
                            ),
                        decreases xc as int + 1 - c,
                    {
                        pairs.push(((c as u32, r as u32), (mc, r as u32)));
                        assert(line(r as int, mc + 1, c as int) =~= line(r as int, mc + 1, c - 1).push(
                            (r as int, c as int),
                        ));
                        assert(pairs@ =~= square_fill_right(mr as int, r - 1, mc as int, xc as int)
                            + line(r as int, mc + 1, c as int).map_values(
                            |p: (int, int)| ((p.1 as u32, p.0 as u32), (mc, p.0 as u32)),
                        ));
                        c = c + 1;
                    }
                    assert(line(r as int, mc + 1, c - 1) =~= line(r as int, mc + 1, xc as int));
                    assert(square_fill_right(mr as int, r as int, mc as int, xc as int)
                        =~= square_fill_right(mr as int, r - 1, mc as int, xc as int) + line(
                        r as int,
                        mc + 1,
                        xc as int,
                    ).map_values(|p: (int, int)| ((p.1 as u32, p.0 as u32), (mc, p.0 as u32))));
                    r = r + 1;
                }
                assert(square_fill_right(mr as int, r - 1, mc as int, xc as int) =~= square_fill_right(
                    mr as int,
                    xr as int,
                    mc as int,
                    xc as int,
                ));
            },
        }
        pairs
    }

    fn step_back(self, dir: FillDir) -> (r: Option<Self>) {
        let (c, r) = self;
        match dir {
            FillDir::Down => if r > 0 {
                Some((c, r - 1))
            } else {
                None
            },
            FillDir::Right => if c > 0 {
                Some((c - 1, r))
            } else {
                None
            },
        }
    }
}

/// The hex cell for an `(outer, inner)` = `(r, q)` pair.
pub open spec fn hex_at(p: (int, int)) -> HexCoord {
    HexCoord { q: p.1 as i32, r: p.0 as i32 }
}

/// The hex cells with `r` in `b0..=b1` and `q` in `a0..=a1`,
/// `r`-major.
pub open spec fn hex_block(b0: int, b1: int, a0: int, a1: int) -> Seq<HexCoord> {
    block(b0, b1, a0, a1).map_values(|p: (int, int)| hex_at(p))
}

/// Fill-down pairs of `q` in `a0..=a1`: each cell with `r` in
/// `b0 + 1..=b1` takes the cell with `r` = `b0` of its `q`.
pub open spec fn hex_fill_down(a0: int, a1: int, b0: int, b1: int) -> Seq<(HexCoord, HexCoord)> {
    block(a0, a1, b0 + 1, b1).map_values(
        |p: (int, int)| (HexCoord { q: p.0 as i32, r: p.1 as i32 }, HexCoord { q: p.0 as i32, r: b0 as i32 }),
    )
}

/// Fill-right pairs of `r` in `b0..=b1`: each cell with `q` in
/// `a0 + 1..=a1` takes the cell with `q` = `a0` of its `r`.
pub open spec fn hex_fill_right(b0: int, b1: int, a0: int, a1: int) -> Seq<(HexCoord, HexCoord)> {
    block(b0, b1, a0 + 1, a1).map_values(
        |p: (int, int)| (HexCoord { q: p.1 as i32, r: p.0 as i32 }, HexCoord { q: a0 as i32, r: p.0 as i32 }),
    )
}

impl Coord for HexCoord {
    open spec fn lo(a: Self, b: Self) -> Self {
        HexCoord {
            q: if a.q <= b.q {
                a.q
            } else {
                b.q
            },
            r: if a.r <= b.r {
                a.r
            } else {
                b.r
            },
        }
    }

    open spec fn hi(a: Self, b: Self) -> Self {
        HexCoord {
            q: if a.q >= b.q {
                a.q
            } else {
                b.q
            },
            r: if a.r >= b.r {
                a.r
            } else {
                b.r
            },
        }
    }

    open spec fn in_rect(min: Self, max: Self, c: Self) -> bool {
        min.q <= c.q <= max.q && min.r <= c.r <= max.r
    }

    open spec fn rect_seq(min: Self, max: Self) -> Seq<Self> {
        hex_block(min.r as int, max.r as int, min.q as int, max.q as int)
    }

    open spec fn spans_fit(min: Self, max: Self) -> bool {
        i32::MIN <= max.q - min.q < i32::MAX && i32::MIN <= max.r - min.r < i32::MAX
    }

    open spec fn rect_fits(min: Self, max: Self) -> bool {
        Self::spans_fit(min, max) && 0 <= (max.q - min.q + 1) * (max.r - min.r + 1)
            <= i32::MAX
    }

    open spec fn dims(min: Self, max: Self) -> (u32, u32) {
        ((max.q - min.q + 1) as u32, (max.r - min.r + 1) as u32)
    }

    open spec fn fill_seq(min: Self, max: Self, dir: FillDir) -> Seq<(Self, Self)> {
        match dir {
            FillDir::Down => hex_fill_down(min.q as int, max.q as int, min.r as int, max.r as int),
            FillDir::Right => hex_fill_right(min.r as int, max.r as int, min.q as int, max.q as int),
        }
    }

    open spec fn fill_fits(min: Self, max: Self, dir: FillDir) -> bool {
        match dir {
            FillDir::Down => min.q <= max.q ==> min.r < i32::MAX,
            FillDir::Right => min.r <= max.r ==> min.q < i32::MAX,
        }
    }

    open spec fn back(c: Self, dir: FillDir) -> Option<Self> {
        match dir {
            FillDir::Down => Some(HexCoord { q: c.q, r: (c.r - 1) as i32 }),
            FillDir::Right => Some(HexCoord { q: (c.q - 1) as i32, r: c.r }),
        }
    }

    open spec fn back_fits(c: Self, dir: FillDir) -> bool {
        match dir {
            FillDir::Down => c.r > i32::MIN,
            FillDir::Right => c.q > i32::MIN,
        }
    }

    proof fn lemma_rect_members(min: Self, max: Self) {
        let b = block(min.r as int, max.r as int, min.q as int, max.q as int);
        let s = Self::rect_seq(min, max);
        assert forall|c: Self| s.contains(c) <==> Self::in_rect(min, max, c) by {
            lemma_block_members(min.r as int, max.r as int, min.q as int, max.q as int, (c.r as int, c.q as int));
            if s.contains(c) {
                let k = choose|k: int| 0 <= k < s.len() && s[k] == c;
                lemma_block_members(min.r as int, max.r as int, min.q as int, max.q as int, b[k]);
                assert(b.contains(b[k]));
            }
            if Self::in_rect(min, max, c) {
                let k = choose|k: int| 0 <= k < b.len() && b[k] == (c.r as int, c.q as int);
                assert(s[k] == c);
            }
        }
        lemma_block_distinct(min.r as int, max.r as int, min.q as int, max.q as int);
        assert forall|i: int, j: int| 0 <= i < s.len() && 0 <= j < s.len() && i != j implies s[i]
            != s[j] by {
            lemma_block_members(min.r as int, max.r as int, min.q as int, max.q as int, b[i]);
            lemma_block_members(min.r as int, max.r as int, min.q as int, max.q as int, b[j]);
            assert(b.contains(b[i]));
            assert(b.contains(b[j]));
        }
    }

    proof fn lemma_single_cell(c: Self) {
    }

    fn min_max(self, other: Self) -> (r: (Self, Self)) {
        (
            HexCoord {
                q: if self.q <= other.q {
                    self.q
                } else {
                    other.q
                },
                r: if self.r <= other.r {
                    self.r
                } else {
                    other.r
                },
            },
            HexCoord {
                q: if self.q >= other.q {
                    self.q
                } else {
                    other.q
                },
                r: if self.r >= other.r {
                    self.r
                } else {
                    other.r
                },
            },
        )
    }

    fn rect_cells(min: Self, max: Self) -> (v: Vec<Self>) {
        let mut out: Vec<HexCoord> = Vec::new();
        let mut b: i64 = min.r as i64;
        while b <= max.r as i64
            invariant
                min.r <= b <= (if min.r <= max.r { max.r as int + 1 } else { min.r as int }),
                out@ == hex_block(min.r as int, b - 1, min.q as int, max.q as int),
            decreases max.r as int + 1 - b,
        {
            let mut a: i64 = min.q as i64;
            while a <= max.q as i64
                invariant
                    min.q <= a <= (if min.q <= max.q { max.q as int + 1 } else { min.q as int }),
                    min.r <= b <= max.r,
                    out@ == hex_block(min.r as int, b - 1, min.q as int, max.q as int) + line(
                        b as int,
                        min.q as int,
                        a - 1,
                    ).map_values(|p: (int, int)| hex_at(p)),
                decreases max.q as int + 1 - a,
            {
                out.push(HexCoord { q: a as i32, r: b as i32 });
                assert(line(b as int, min.q as int, a as int) =~= line(b as int, min.q as int, a - 1).push(
                    (b as int, a as int),
                ));
                assert(out@ =~= hex_block(min.r as int, b - 1, min.q as int, max.q as int) + line(
                    b as int,
                    min.q as int,
                    a as int,
                ).map_values(|p: (int, int)| hex_at(p)));
                a = a + 1;
            }
            assert(line(b as int, min.q as int, a - 1) =~= line(b as int, min.q as int, max.q as int));
            assert(hex_block(min.r as int, b as int, min.q as int, max.q as int) =~= hex_block(
                min.r as int,
                b - 1,
                min.q as int,
                max.q as int,
            ) + line(b as int, min.q as int, max.q as int).map_values(|p: (int, int)| hex_at(p)));
            b = b + 1;
        }
        assert(hex_block(min.r as int, b - 1, min.q as int, max.q as int) =~= hex_block(
            min.r as int,
            max.r as int,
            min.q as int,
            max.q as int,
        ));
        out
    }

    fn rect_contains(min: Self, max: Self, coord: Self) -> (b: bool) {
        coord.q >= min.q && coord.q <= max.q && coord.r >= min.r && coord.r <= max.r
    }

    fn rect_dims(min: Self, max: Self) -> (d: (u32, u32)) {
        ((max.q - min.q + 1) as u32, (max.r - min.r + 1) as u32)
    }

    fn rect_fill_targets(min: Self, max: Self, dir: FillDir) -> (v: Vec<(Self, Self)>) {
        let mut pairs: Vec<(HexCoord, HexCoord)> = Vec::new();
        match dir {
            FillDir::Down => {
                let mut a: i64 = min.q as i64;
                while a <= max.q as i64
                    invariant
                        min.q <= a <= (if min.q <= max.q { max.q as int + 1 } else { min.q as int }),
                        min.q <= max.q ==> min.r < i32::MAX,
                        pairs@ == hex_fill_down(min.q as int, a - 1, min.r as int, max.r as int),
                    decreases max.q as int + 1 - a,
                {
                    let mut b: i64 = min.r as i64 + 1;
                    while b <= max.r as i64
                        invariant
                            min.r + 1 <= b <= (if max.r >= min.r + 1 { max.r as int + 1 } else { min.r as int + 1 }),
                            min.q <= a <= max.q,
                            min.r < i32::MAX,
                            pairs@ == hex_fill_down(min.q as int, a - 1, min.r as int, max.r as int)
                                + line(a as int, min.r + 1, b - 1).map_values(
                                |p: (int, int)| (HexCoord { q: p.0 as i32, r: p.1 as i32 }, HexCoord { q: p.0 as i32, r: min.r }),
                            ),
                        decreases max.r as int + 1 - b,
                    {
                        pairs.push((HexCoord { q: a as i32, r: b as i32 }, HexCoord { q: a as i32, r: min.r }));
                        assert(line(a as int, min.r + 1, b as int) =~= line(a as int, min.r + 1, b - 1).push(
                            (a as int, b as int),
                        ));
                        assert(pairs@ =~= hex_fill_down(min.q as int, a - 1, min.r as int, max.r as int)
                            + line(a as int, min.r + 1, b as int).map_values(
                            |p: (int, int)| (HexCoord { q: p.0 as i32, r: p.1 as i32 }, HexCoord { q: p.0 as i32, r: min.r }),
                        ));
                        b = b + 1;
                    }
                    assert(line(a as int, min.r + 1, b - 1) =~= line(a as int, min.r + 1, max.r as int));
                    assert(hex_fill_down(min.q as int, a as int, min.r as int, max.r as int)
                        =~= hex_fill_down(min.q as int, a - 1, min.r as int, max.r as int) + line(
                        a as int,
                        min.r + 1,
                        max.r as int,
                    ).map_values(|p: (int, int)| (HexCoord { q: p.0 as i32, r: p.1 as i32 }, HexCoord { q: p.0 as i32, r: min.r })));
                    a = a + 1;
                }
                assert(hex_fill_down(min.q as int, a - 1, min.r as int, max.r as int) =~= hex_fill_down(
                    min.q as int,
                    max.q as int,
                    min.r as int,
                    max.r as int,
                ));
            },
            FillDir::Right => {
                let mut b: i64 = min.r as i64;
                while b <= max.r as i64
                    invariant
                        min.r <= b <= (if min.r <= max.r { max.r as int + 1 } else { min.r as int }),
                        min.r <= max.r ==> min.q < i32::MAX,
                        pairs@ == hex_fill_right(min.r as int, b - 1, min.q as int, max.q as int),
                    decreases max.r as int + 1 - b,
                {
                    let mut a: i64 = min.q as i64 + 1;
                    while a <= max.q as i64
                        invariant
                            min.q + 1 <= a <= (if max.q >= min.q + 1 { max.q as int + 1 } else { min.q as int + 1 }),
                            min.r <= b <= max.r,
                            min.q < i32::MAX,
                            pairs@ == hex_fill_right(min.r as int, b - 1, min.q as int, max.q as int)
                                + line(b as int, min.q + 1, a - 1).map_values(
                                |p: (int, int)| (HexCoord { q: p.1 as i32, r: p.0 as i32 }, HexCoord { q: min.q, r: p.0 as i32 }),
                            ),
                        decreases max.q as int + 1 - a,
                    {
                        pairs.push((HexCoord { q: a as i32, r: b as i32 }, HexCoord { q: min.q, r: b as i32 }));
                        assert(line(b as int, min.q + 1, a as int) =~= line(b as int, min.q + 1, a - 1).push(
                            (b as int, a as int),
                        ));
                        assert(pairs@ =~= hex_fill_right(min.r as int, b - 1, min.q as int, max.q as int)
                            + line(b as int, min.q + 1, a as int).map_values(
                            |p: (int, int)| (HexCoord { q: p.1 as i32, r: p.0 as i32 }, HexCoord { q: min.q, r: p.0 as i32 }),
                        ));
                        a = a + 1;
                    }
                    assert(line(b as int, min.q + 1, a - 1) =~= line(b as int, min.q + 1, max.q as int));
                    assert(hex_fill_right(min.r as int, b as int, min.q as int, max.q as int)
                        =~= hex_fill_right(min.r as int, b - 1, min.q as int, max.q as int) + line(
                        b as int,
                        min.q + 1,
                        max.q as int,
                    ).map_values(|p: (int, int)| (HexCoord { q: p.1 as i32, r: p.0 as i32 }, HexCoord { q: min.q, r: p.0 as i32 })));
                    b = b + 1;
                }
                assert(hex_fill_right(min.r as int, b - 1, min.q as int, max.q as int) =~= hex_fill_right(
                    min.r as int,
                    max.r as int,
                    min.q as int,
                    max.q as int,
                ));
            },
        }
        pairs
    }

    fn step_back(self, dir: FillDir) -> (r: Option<Self>) {
        match dir {
            FillDir::Down => Some(HexCoord { q: self.q, r: self.r - 1 }),
            FillDir::Right => Some(HexCoord { q: self.q - 1, r: self.r }),
        }
    }
}

/// The triangle cell for an `(outer, inner)` = `(row, col)` pair.
pub open spec fn tri_at(p: (int, int)) -> TriCoord {
    TriCoord { col: p.1 as i32, row: p.0 as i32 }
}

/// The triangle cells with `row` in `b0..=b1` and `col` in `a0..=a1`,
/// `row`-major.
pub open spec fn tri_block(b0: int, b1: int, a0: int, a1: int) -> Seq<TriCoord> {
    block(b0, b1, a0, a1).map_values(|p: (int, int)| tri_at(p))
}

/// Fill-down pairs of `col` in `a0..=a1`: each cell with `row` in
/// `b0 + 1..=b1` takes the cell with `row` = `b0` of its `col`.
pub open spec fn tri_fill_down(a0: int, a1: int, b0: int, b1: int) -> Seq<(TriCoord, TriCoord)> {
    block(a0, a1, b0 + 1, b1).map_values(
        |p: (int, int)| (TriCoord { col: p.0 as i32, row: p.1 as i32 }, TriCoord { col: p.0 as i32, row: b0 as i32 }),
    )
}

/// Fill-right pairs of `row` in `b0..=b1`: each cell with `col` in
/// `a0 + 1..=a1` takes the cell with `col` = `a0` of its `row`.
pub open spec fn tri_fill_right(b0: int, b1: int, a0: int, a1: int) -> Seq<(TriCoord, TriCoord)> {
    block(b0, b1, a0 + 1, a1).map_values(
        |p: (int, int)| (TriCoord { col: p.1 as i32, row: p.0 as i32 }, TriCoord { col: a0 as i32, row: p.0 as i32 }),
    )
}

impl Coord for TriCoord {
    open spec fn lo(a: Self, b: Self) -> Self {
        TriCoord {
            col: if a.col <= b.col {
                a.col
            } else {
                b.col
            },
            row: if a.row <= b.row {
                a.row
            } else {
                b.row
            },
        }
    }

    open spec fn hi(a: Self, b: Self) -> Self {
        TriCoord {
            col: if a.col >= b.col {
                a.col
            } else {
                b.col
            },
            row: if a.row >= b.row {
                a.row
            } else {
                b.row
            },
        }
    }

    open spec fn in_rect(min: Self, max: Self, c: Self) -> bool {
        min.col <= c.col <= max.col && min.row <= c.row <= max.row
    }

    open spec fn rect_seq(min: Self, max: Self) -> Seq<Self> {
        tri_block(min.row as int, max.row as int, min.col as int, max.col as int)
    }

    open spec fn spans_fit(min: Self, max: Self) -> bool {
        i32::MIN <= max.col - min.col < i32::MAX && i32::MIN <= max.row - min.row < i32::MAX
    }

    open spec fn rect_fits(min: Self, max: Self) -> bool {
        Self::spans_fit(min, max) && 0 <= (max.col - min.col + 1) * (max.row - min.row + 1)
            <= i32::MAX
    }

    open spec fn dims(min: Self, max: Self) -> (u32, u32) {
        ((max.col - min.col + 1) as u32, (max.row - min.row + 1) as u32)
    }

    open spec fn fill_seq(min: Self, max: Self, dir: FillDir) -> Seq<(Self, Self)> {
        match dir {
            FillDir::Down => tri_fill_down(min.col as int, max.col as int, min.row as int, max.row as int),
            FillDir::Right => tri_fill_right(min.row as int, max.row as int, min.col as int, max.col as int),
        }
    }

    open spec fn fill_fits(min: Self, max: Self, dir: FillDir) -> bool {
        match dir {
            FillDir::Down => min.col <= max.col ==> min.row < i32::MAX,
            FillDir::Right => min.row <= max.row ==> min.col < i32::MAX,
        }
    }

    open spec fn back(c: Self, dir: FillDir) -> Option<Self> {
        match dir {
            FillDir::Down => Some(TriCoord { col: c.col, row: (c.row - 1) as i32 }),
            FillDir::Right => Some(TriCoord { col: (c.col - 1) as i32, row: c.row }),
        }
    }

    open spec fn back_fits(c: Self, dir: FillDir) -> bool {
        match dir {
            FillDir::Down => c.row > i32::MIN,
            FillDir::Right => c.col > i32::MIN,
        }
    }

    proof fn lemma_rect_members(min: Self, max: Self) {
        let b = block(min.row as int, max.row as int, min.col as int, max.col as int);
        let s = Self::rect_seq(min, max);
        assert forall|c: Self| s.contains(c) <==> Self::in_rect(min, max, c) by {
            lemma_block_members(min.row as int, max.row as int, min.col as int, max.col as int, (c.row as int, c.col as int));
            if s.contains(c) {
                let k = choose|k: int| 0 <= k < s.len() && s[k] == c;
                lemma_block_members(min.row as int, max.row as int, min.col as int, max.col as int, b[k]);
                assert(b.contains(b[k]));
            }
            if Self::in_rect(min, max, c) {
                let k = choose|k: int| 0 <= k < b.len() && b[k] == (c.row as int, c.col as int);
                assert(s[k] == c);
            }
        }
        lemma_block_distinct(min.row as int, max.row as int, min.col as int, max.col as int);
        assert forall|i: int, j: int| 0 <= i < s.len() && 0 <= j < s.len() && i != j implies s[i]
            != s[j] by {
            lemma_block_members(min.row as int, max.row as int, min.col as int, max.col as int, b[i]);
            lemma_block_members(min.row as int, max.row as int, min.col as int, max.col as int, b[j]);
            assert(b.contains(b[i]));
            assert(b.contains(b[j]));
        }
    }

    proof fn lemma_single_cell(c: Self) {
    }

    fn min_max(self, other: Self) -> (r: (Self, Self)) {
        (
            TriCoord {
                col: if self.col <= other.col {
                    self.col
                } else {
                    other.col
                },
                row: if self.row <= other.row {
                    self.row
                } else {
                    other.row
                },
            },
            TriCoord {
                col: if self.col >= other.col {
                    self.col
                } else {
                    other.col
                },
                row: if self.row >= other.row {
                    self.row
                } else {
                    other.row
                },
            },
        )
    }

    fn rect_cells(min: Self, max: Self) -> (v: Vec<Self>) {
        let mut out: Vec<TriCoord> = Vec::new();
        let mut b: i64 = min.row as i64;
        while b <= max.row as i64
            invariant
                min.row <= b <= (if min.row <= max.row { max.row as int + 1 } else { min.row as int }),
                out@ == tri_block(min.row as int, b - 1, min.col as int, max.col as int),
            decreases max.row as int + 1 - b,
        {
            let mut a: i64 = min.col as i64;
            while a <= max.col as i64
                invariant
                    min.col <= a <= (if min.col <= max.col { max.col as int + 1 } else { min.col as int }),
                    min.row <= b <= max.row,
                    out@ == tri_block(min.row as int, b - 1, min.col as int, max.col as int) + line(
                        b as int,
                        min.col as int,
                        a - 1,
                    ).map_values(|p: (int, int)| tri_at(p)),
                decreases max.col as int + 1 - a,
            {
                out.push(TriCoord { col: a as i32, row: b as i32 });
                assert(line(b as int, min.col as int, a as int) =~= line(b as int, min.col as int, a - 1).push(
                    (b as int, a as int),
                ));
                assert(out@ =~= tri_block(min.row as int, b - 1, min.col as int, max.col as int) + line(
                    b as int,
                    min.col as int,
                    a as int,
                ).map_values(|p: (int, int)| tri_at(p)));
                a = a + 1;
            }
            assert(line(b as int, min.col as int, a - 1) =~= line(b as int, min.col as int, max.col as int));
            assert(tri_block(min.row as int, b as int, min.col as int, max.col as int) =~= tri_block(
                min.row as int,
                b - 1,
                min.col as int,
                max.col as int,
            ) + line(b as int, min.col as int, max.col as int).map_values(|p: (int, int)| tri_at(p)));
            b = b + 1;
        }
        assert(tri_block(min.row as int, b - 1, min.col as int, max.col as int) =~= tri_block(
            min.row as int,
            max.row as int,
            min.col as int,
            max.col as int,
        ));
        out
    }

    fn rect_contains(min: Self, max: Self, coord: Self) -> (b: bool) {
        coord.col >= min.col && coord.col <= max.col && coord.row >= min.row && coord.row <= max.row
    }

    fn rect_dims(min: Self, max: Self) -> (d: (u32, u32)) {
        ((max.col - min.col + 1) as u32, (max.row - min.row + 1) as u32)
    }

    fn rect_fill_targets(min: Self, max: Self, dir: FillDir) -> (v: Vec<(Self, Self)>) {
        let mut pairs: Vec<(TriCoord, TriCoord)> = Vec::new();
        match dir {
            FillDir::Down => {
                let mut a: i64 = min.col as i64;
                while a <= max.col as i64
                    invariant
                        min.col <= a <= (if min.col <= max.col { max.col as int + 1 } else { min.col as int }),
                        min.col <= max.col ==> min.row < i32::MAX,
                        pairs@ == tri_fill_down(min.col as int, a - 1, min.row as int, max.row as int),
                    decreases max.col as int + 1 - a,
                {
                    let mut b: i64 = min.row as i64 + 1;
                    while b <= max.row as i64
                        invariant
                            min.row + 1 <= b <= (if max.row >= min.row + 1 { max.row as int + 1 } else { min.row as int + 1 }),
                            min.col <= a <= max.col,
                            min.row < i32::MAX,
                            pairs@ == tri_fill_down(min.col as int, a - 1, min.row as int, max.row as int)
                                + line(a as int, min.row + 1, b - 1).map_values(
                                |p: (int, int)| (TriCoord { col: p.0 as i32, row: p.1 as i32 }, TriCoord { col: p.0 as i32, row: min.row }),
                            ),
                        decreases max.row as int + 1 - b,
                    {
                        pairs.push((TriCoord { col: a as i32, row: b as i32 }, TriCoord { col: a as i32, row: min.row }));
                        assert(line(a as int, min.row + 1, b as int) =~= line(a as int, min.row + 1, b - 1).push(
                            (a as int, b as int),
                        ));
                        assert(pairs@ =~= tri_fill_down(min.col as int, a - 1, min.row as int, max.row as int)
                            + line(a as int, min.row + 1, b as int).map_values(
                            |p: (int, int)| (TriCoord { col: p.0 as i32, row: p.1 as i32 }, TriCoord { col: p.0 as i32, row: min.row }),
                        ));
                        b = b + 1;
                    }
                    assert(line(a as int, min.row + 1, b - 1) =~= line(a as int, min.row + 1, max.row as int));
                    assert(tri_fill_down(min.col as int, a as int, min.row as int, max.row as int)
                        =~= tri_fill_down(min.col as int, a - 1, min.row as int, max.row as int) + line(
                        a as int,
                        min.row + 1,
                        max.row as int,
                    ).map_values(|p: (int, int)| (TriCoord { col: p.0 as i32, row: p.1 as i32 }, TriCoord { col: p.0 as i32, row: min.row })));
                    a = a + 1;
                }
                assert(tri_fill_down(min.col as int, a - 1, min.row as int, max.row as int) =~= tri_fill_down(
                    min.col as int,
                    max.col as int,
                    min.row as int,
                    max.row as int,
                ));
            },
            FillDir::Right => {
                let mut b: i64 = min.row as i64;
                while b <= max.row as i64
                    invariant
                        min.row <= b <= (if min.row <= max.row { max.row as int + 1 } else { min.row as int }),
                        min.row <= max.row ==> min.col < i32::MAX,
                        pairs@ == tri_fill_right(min.row as int, b - 1, min.col as int, max.col as int),
                    decreases max.row as int + 1 - b,
                {
                    let mut a: i64 = min.col as i64 + 1;
                    while a <= max.col as i64
                        invariant
                            min.col + 1 <= a <= (if max.col >= min.col + 1 { max.col as int + 1 } else { min.col as int + 1 }),
                            min.row <= b <= max.row,
                            min.col < i32::MAX,
                            pairs@ == tri_fill_right(min.row as int, b - 1, min.col as int, max.col as int)
                                + line(b as int, min.col + 1, a - 1).map_values(
                                |p: (int, int)| (TriCoord { col: p.1 as i32, row: p.0 as i32 }, TriCoord { col: min.col, row: p.0 as i32 }),
                            ),
                        decreases max.col as int + 1 - a,
                    {
                        pairs.push((TriCoord { col: a as i32, row: b as i32 }, TriCoord { col: min.col, row: b as i32 }));
                        assert(line(b as int, min.col + 1, a as int) =~= line(b as int, min.col + 1, a - 1).push(
                            (b as int, a as int),
                        ));
                        assert(pairs@ =~= tri_fill_right(min.row as int, b - 1, min.col as int, max.col as int)
                            + line(b as int, min.col + 1, a as int).map_values(
                            |p: (int, int)| (TriCoord { col: p.1 as i32, row: p.0 as i32 }, TriCoord { col: min.col, row: p.0 as i32 }),
                        ));
                        a = a + 1;
                    }
                    assert(line(b as int, min.col + 1, a - 1) =~= line(b as int, min.col + 1, max.col as int));
                    assert(tri_fill_right(min.row as int, b as int, min.col as int, max.col as int)
                        =~= tri_fill_right(min.row as int, b - 1, min.col as int, max.col as int) + line(
                        b as int,
                        min.col + 1,
                        max.col as int,
                    ).map_values(|p: (int, int)| (TriCoord { col: p.1 as i32, row: p.0 as i32 }, TriCoord { col: min.col, row: p.0 as i32 })));
                    b = b + 1;
                }
                assert(tri_fill_right(min.row as int, b - 1, min.col as int, max.col as int) =~= tri_fill_right(
                    min.row as int,
                    max.row as int,
                    min.col as int,
                    max.col as int,
                ));
            },
        }
        pairs
    }

    fn step_back(self, dir: FillDir) -> (r: Option<Self>) {
        match dir {
            FillDir::Down => Some(TriCoord { col: self.col, row: self.row - 1 }),
            FillDir::Right => Some(TriCoord { col: self.col - 1, row: self.row }),
        }
    }
}

/// Voronoi cells are not laid out on a grid, so a "rectangle" is the one
/// cell it starts from: ranges are single-cell only.
impl Coord for VoronoiCoord {
    open spec fn lo(a: Self, b: Self) -> Self {
        a
    }

    open spec fn hi(a: Self, b: Self) -> Self {
        a
    }

    open spec fn in_rect(min: Self, max: Self, c: Self) -> bool {
        c == min
    }

    open spec fn rect_seq(min: Self, max: Self) -> Seq<Self> {
        seq![min]
    }

    open spec fn spans_fit(min: Self, max: Self) -> bool {
        true
    }

    open spec fn rect_fits(min: Self, max: Self) -> bool {
        true
    }

    open spec fn dims(min: Self, max: Self) -> (u32, u32) {
        (1, 1)
    }

    open spec fn fill_seq(min: Self, max: Self, dir: FillDir) -> Seq<(Self, Self)> {
        seq![]
    }

    open spec fn fill_fits(min: Self, max: Self, dir: FillDir) -> bool {
        true
    }

    open spec fn back(c: Self, dir: FillDir) -> Option<Self> {
        None
    }

    open spec fn back_fits(c: Self, dir: FillDir) -> bool {
        true
    }

    proof fn lemma_rect_members(min: Self, max: Self) {
        let s = Self::rect_seq(min, max);
        assert forall|c: Self| s.contains(c) <==> Self::in_rect(min, max, c) by {
            if c == min {
                assert(s[0] == c);
            }
        }
    }

    proof fn lemma_single_cell(c: Self) {
    }

    fn min_max(self, other: Self) -> (r: (Self, Self)) {
        (self, self)
    }

    fn rect_cells(min: Self, max: Self) -> (v: Vec<Self>) {
        let mut v: Vec<VoronoiCoord> = Vec::new();
        v.push(min);
        v
    }

    fn rect_contains(min: Self, max: Self, coord: Self) -> (b: bool) {
        coord.seed == min.seed
    }

    fn rect_dims(min: Self, max: Self) -> (d: (u32, u32)) {
        (1, 1)
    }

    fn rect_fill_targets(min: Self, max: Self, dir: FillDir) -> (v: Vec<(Self, Self)>) {
        Vec::new()
    }

    fn step_back(self, dir: FillDir) -> (r: Option<Self>) {
        None
    }
}

/// `base` followed by the cells of `extra` it does not already hold, in
/// `extra`'s order, each once.
pub open spec fn merged<C>(base: Seq<C>, extra: Seq<C>) -> Seq<C>
    decreases extra.len(),
{
    if extra.len() == 0 {
        base
    } else {
        let m = merged(base, extra.drop_last());
        if m.contains(extra.last()) {
            m
        } else {
            m.push(extra.last())
        }
    }
}

/// The merge holds exactly the cells of both sides.
pub proof fn lemma_merged_members<C>(base: Seq<C>, extra: Seq<C>, c: C)
    ensures
        merged(base, extra).contains(c) <==> (base.contains(c) || extra.contains(c)),
    decreases extra.len(),
{
    if extra.len() > 0 {
        lemma_merged_members(base, extra.drop_last(), c);
        let m = merged(base, extra.drop_last());
        if extra.drop_last().contains(c) {
            let k = choose|k: int| 0 <= k < extra.drop_last().len() && extra.drop_last()[k] == c;
            assert(extra[k] == c);
        }
        if extra.contains(c) && !extra.drop_last().contains(c) {
            let k = choose|k: int| 0 <= k < extra.len() && extra[k] == c;
            if k < extra.len() - 1 {
                assert(extra.drop_last()[k] == c);
            }
            assert(c == extra.last());
        }
        if !m.contains(extra.last()) {
            let mp = m.push(extra.last());
            if m.contains(c) {
                let k = choose|k: int| 0 <= k < m.len() && m[k] == c;
                assert(mp[k] == c);
            }
            if mp.contains(c) && c != extra.last() {
                let k = choose|k: int| 0 <= k < mp.len() && mp[k] == c;
                assert(m[k] == c);
            }
            assert(mp[m.len() as int] == extra.last());
        }
        if extra.last() == c {
            assert(extra[extra.len() - 1] == c);
        }
    }
}

/// A rectangular selection: an `anchor` and a `cursor`, plus `extra`
/// cells for lattices whose ranges do not fit a rectangle (the Voronoi
/// marquee). Operation paths use [`primary_cells`](Self::primary_cells)
/// and [`primary_contains`](Self::primary_contains), which ignore
/// `extra`; drawing uses [`cells`](Self::cells) and
/// [`contains`](Self::contains), which include it.
#[derive(Debug, Clone, PartialEq, Eq)]
pub struct Selection<C: Coord> {
    /// Where the selection was anchored — a plain move, or the start of
    /// a shift-extend or drag.
    pub anchor: C,
    /// The active cell, where editing happens and arrows move from.
    pub cursor: C,
    /// Cells selected outside the rectangle; empty on the rectangular
    /// lattices.
    pub extra: Vec<C>,
}

impl<C: Coord + Copy> Selection<C> {
    /// The selected rectangle's min corner.
    pub open spec fn min_corner(&self) -> C {
        C::lo(self.anchor, self.cursor)
    }

    /// The selected rectangle's max corner.
    pub open spec fn max_corner(&self) -> C {
        C::hi(self.anchor, self.cursor)
    }

    /// Whether the selection covers more than one cell.
    pub open spec fn ranged(&self) -> bool {
        self.anchor != self.cursor || self.extra@.len() > 0
    }

    /// A one-cell selection.
    pub fn single(coord: C) -> (s: Self)
        ensures
            s.anchor == coord,
            s.cursor == coord,
            s.extra@ == Seq::<C>::empty(),
    {
        Selection { anchor: coord, cursor: coord, extra: Vec::new() }
    }

    /// A rectangular selection between `anchor` and `cursor`, with no
    /// extra cells.
    pub fn from_anchor_cursor(anchor: C, cursor: C) -> (s: Self)
        ensures
            s.anchor == anchor,
            s.cursor == cursor,
            s.extra@ == Seq::<C>::empty(),
    {
        Selection { anchor, cursor, extra: Vec::new() }
    }

    /// Moves the whole selection to one cell — a plain arrow or click —
    /// dropping any extra cells.
    pub fn collapse_to(&mut self, coord: C)
        ensures
            final(self).anchor == coord,
            final(self).cursor == coord,
            final(self).extra@ == Seq::<C>::empty(),
    {
        self.anchor = coord;
        self.cursor = coord;
        self.extra.clear();
    }

    /// Moves the cursor and keeps the anchor — a shift-extend or drag.
    pub fn extend_to(&mut self, coord: C)
        ensures
            final(self).anchor == old(self).anchor,
            final(self).cursor == coord,
            final(self).extra@ == old(self).extra@,
    {
        self.cursor = coord;
    }

    /// Whether the selection covers more than one cell.
    pub fn is_range(&self) -> (b: bool)
        ensures
            b == self.ranged(),
    {
        !self.anchor.same(&self.cursor) || self.extra.len() > 0
    }

    /// The normalised `(min, max)` corners of the selected rectangle.
    pub fn bounds(&self) -> (r: (C, C))
        ensures
            r == (self.min_corner(), self.max_corner()),
    {
        self.anchor.min_max(self.cursor)
    }

    /// Whether `coord` lies in the selected rectangle or among the extra
    /// cells.
    pub fn contains(&self, coord: C) -> (b: bool)
        ensures
            b == (C::in_rect(self.min_corner(), self.max_corner(), coord) || self.extra@.contains(
                coord,
            )),
    {
        if self.primary_contains(coord) {
            return true;
        }
        let mut i: usize = 0;
        while i < self.extra.len()
            invariant
                i <= self.extra@.len(),
                forall|k: int| 0 <= k < i ==> self.extra@[k] != coord,
            decreases self.extra@.len() - i,
        {
            if self.extra[i].same(&coord) {
                return true;
            }
            i = i + 1;
        }
        false
    }

    /// Whether `coord` lies in the selected rectangle, ignoring extra
    /// cells.
    pub fn primary_contains(&self, coord: C) -> (b: bool)
        ensures
            b == C::in_rect(self.min_corner(), self.max_corner(), coord),
    {
        let (min, max) = self.bounds();
        C::rect_contains(min, max, coord)
    }

    /// The per-axis extents of the selected rectangle; extra cells do
    /// not count.
    pub fn dimensions(&self) -> (d: (u32, u32))
        requires
            C::spans_fit(self.min_corner(), self.max_corner()),
        ensures
            d == C::dims(self.min_corner(), self.max_corner()),
    {
        let (min, max) = self.bounds();
        C::rect_dims(min, max)
    }

    /// Every selected cell: the rectangle's cells in order, then the
    /// extra cells not already listed, each once.
    pub fn cells(&self) -> (v: Vec<C>)
        requires
            C::rect_fits(self.min_corner(), self.max_corner()),
        ensures
            v@ == merged(C::rect_seq(self.min_corner(), self.max_corner()), self.extra@),
    {
        let mut out = self.primary_cells();
        let ghost base = out@;
        let mut i: usize = 0;
        while i < self.extra.len()
            invariant
                i <= self.extra@.len(),
                out@ == merged(base, self.extra@.take(i as int)),
            decreases self.extra@.len() - i,
        {
            let c = self.extra[i];
            let mut found = false;
            let mut j: usize = 0;
            while j < out.len()
                invariant
                    j <= out@.len(),
                    found == (exists|k: int| 0 <= k < j && out@[k] == c),
                decreases out@.len() - j,
            {
                if out[j].same(&c) {
                    found = true;
                }
                j = j + 1;
            }
            let ghost before = out@;
            if !found {
                out.push(c);
            }
            proof {
                let t = self.extra@.take(i as int + 1);
                assert(t.drop_last() =~= self.extra@.take(i as int));
                assert(t.last() == c);
                if found {
                    let k = choose|k: int| 0 <= k < j && before[k] == c;
                    assert(before.contains(c));
                }
            }
            i = i + 1;
        }
        assert(self.extra@.take(self.extra@.len() as int) =~= self.extra@);
        out
    }

    /// The cells of the selected rectangle, ignoring extra cells.
    pub fn primary_cells(&self) -> (v: Vec<C>)
        requires
            C::rect_fits(self.min_corner(), self.max_corner()),
        ensures
            v@ == C::rect_seq(self.min_corner(), self.max_corner()),
    {
        let (min, max) = self.bounds();
        C::rect_cells(min, max)
    }

    /// The `(target, source)` pairs of a fill along `dir`: a range fills
    /// its leading edge across the rest of the rectangle; a single cell
    /// pulls from its neighbour one step back, if there is one.
    pub fn fill_targets(&self, dir: FillDir) -> (v: Vec<(C, C)>)
        requires
            self.ranged() ==> C::fill_fits(self.min_corner(), self.max_corner(), dir),
            !self.ranged() ==> C::back_fits(self.cursor, dir),
        ensures
            v@ == (if self.ranged() {
                C::fill_seq(self.min_corner(), self.max_corner(), dir)
            } else {
                match C::back(self.cursor, dir) {
                    Some(n) => seq![(self.cursor, n)],
                    None => Seq::<(C, C)>::empty(),
                }
            }),
    {
        if self.is_range() {
            let (min, max) = self.bounds();
            C::rect_fill_targets(min, max, dir)
        } else {
            match self.cursor.step_back(dir) {
                Some(n) => {
                    let mut v: Vec<(C, C)> = Vec::new();
                    v.push((self.cursor, n));
                    v
                },
                None => Vec::new(),
            }
        }
    }
}

/// The last index of `n` cells, `0` when there are none.
pub open spec fn last_index(n: u32) -> u32 {
    if n == 0 {
        0
    } else {
        (n - 1) as u32
    }
}

impl Selection<Cell> {
    /// A selection spanning a whole column, every row `0..rows`; the
    /// active cell is the column's top.
    pub fn column(col: u32, rows: u32) -> (s: Self)
        ensures
            s.anchor == (col, last_index(rows)),
            s.cursor == (col, 0u32),
            s.extra@ == Seq::<Cell>::empty(),
    {
        Self::column_range(col, col, rows)
    }

    /// A selection spanning the full height of the columns between `c0`
    /// and `c1` inclusive, in either order — what a drag across column
    /// headers sweeps. The active cell is the top of column `c1`.
    pub fn column_range(c0: u32, c1: u32, rows: u32) -> (s: Self)
        ensures
            s.anchor == (c0, last_index(rows)),
            s.cursor == (c1, 0u32),
            s.extra@ == Seq::<Cell>::empty(),
    {
        Selection { anchor: (c0, rows.saturating_sub(1)), cursor: (c1, 0), extra: Vec::new() }
    }

    /// A selection spanning a whole row, every column `0..cols`; the
    /// active cell is the row's leftmost cell.
    pub fn row(row: u32, cols: u32) -> (s: Self)
        ensures
            s.anchor == (last_index(cols), row),
            s.cursor == (0u32, row),
            s.extra@ == Seq::<Cell>::empty(),
    {
        Self::row_range(row, row, cols)
    }

    /// A selection spanning the full width of the rows between `r0` and
    /// `r1` inclusive, in either order. The active cell is the left of
    /// row `r1`.
    pub fn row_range(r0: u32, r1: u32, cols: u32) -> (s: Self)
        ensures
            s.anchor == (last_index(cols), r0),
            s.cursor == (0u32, r1),
            s.extra@ == Seq::<Cell>::empty(),
    {
        Selection { anchor: (cols.saturating_sub(1), r0), cursor: (0, r1), extra: Vec::new() }
    }

    /// A selection covering the whole `cols × rows` grid; the active cell
    /// is the top-left.
    pub fn all(cols: u32, rows: u32) -> (s: Self)
        ensures
            s.anchor == (last_index(cols), last_index(rows)),
            s.cursor == (0u32, 0u32),
            s.extra@ == Seq::<Cell>::empty(),
    {
        Selection {
            anchor: (cols.saturating_sub(1), rows.saturating_sub(1)),
            cursor: (0, 0),
            extra: Vec::new(),
        }
    }
}

/// A rectangular selection on the square sheet.
pub type SquareSelection = Selection<Cell>;

/// A hex selection: the axial parallelogram between anchor and cursor.
pub type HexSelection = Selection<HexCoord>;

/// A triangle selection: the block of `(col, row)` coordinates between
/// anchor and cursor.
pub type TriangleSelection = Selection<TriCoord>;

/// The rectangle spanning two square cells is the same whichever is
/// given first, and it holds both.
pub proof fn lemma_square_span(a: Cell, b: Cell)
    ensures
        <Cell as Coord>::lo(a, b) == <Cell as Coord>::lo(b, a),
        <Cell as Coord>::hi(a, b) == <Cell as Coord>::hi(b, a),
        <Cell as Coord>::in_rect(<Cell as Coord>::lo(a, b), <Cell as Coord>::hi(a, b), a),
        <Cell as Coord>::in_rect(<Cell as Coord>::lo(a, b), <Cell as Coord>::hi(a, b), b),
{
}

/// The parallelogram spanning two hex cells is the same whichever is
/// given first, and it holds both.
pub proof fn lemma_hex_span(a: HexCoord, b: HexCoord)
    ensures
        HexCoord::lo(a, b) == HexCoord::lo(b, a),
        HexCoord::hi(a, b) == HexCoord::hi(b, a),
        HexCoord::in_rect(HexCoord::lo(a, b), HexCoord::hi(a, b), a),
        HexCoord::in_rect(HexCoord::lo(a, b), HexCoord::hi(a, b), b),
{
}

/// The block spanning two triangle cells is the same whichever is given
/// first, and it holds both.
pub proof fn lemma_triangle_span(a: TriCoord, b: TriCoord)
    ensures
        TriCoord::lo(a, b) == TriCoord::lo(b, a),
        TriCoord::hi(a, b) == TriCoord::hi(b, a),
        TriCoord::in_rect(TriCoord::lo(a, b), TriCoord::hi(a, b), a),
        TriCoord::in_rect(TriCoord::lo(a, b), TriCoord::hi(a, b), b),
{
}

/// A selection whose anchor is its cursor, with no extra cells, is no
/// range and holds exactly that cell.
pub proof fn lemma_single_selection<C: Coord + Copy>(s: Selection<C>)
    requires
        s.anchor == s.cursor,
        s.extra@.len() == 0,
    ensures
        !s.ranged(),
        forall|x: C|
            (C::in_rect(s.min_corner(), s.max_corner(), x) || s.extra@.contains(x)) <==> x
                == s.anchor,
{
    C::lemma_single_cell(s.anchor);
}

/// [`Selection::cells`] lists exactly the selected cells — those of the
/// rectangle and the extra ones — each once.
pub proof fn lemma_cells_are_the_selection<C: Coord + Copy>(s: Selection<C>, c: C)
    ensures
        merged(C::rect_seq(s.min_corner(), s.max_corner()), s.extra@).contains(c) <==> (
        C::in_rect(s.min_corner(), s.max_corner(), c) || s.extra@.contains(c)),
{
    C::lemma_rect_members(s.min_corner(), s.max_corner());
    lemma_merged_members(C::rect_seq(s.min_corner(), s.max_corner()), s.extra@, c);
}

/// A column range covers every row of the columns between its ends, in
/// either order: its rectangle runs from the top of the leftmost column
/// to the last row of the rightmost.
pub proof fn lemma_column_range_spans(c0: u32, c1: u32, rows: u32)
    ensures
        <Cell as Coord>::lo((c0, last_index(rows)), (c1, 0u32)) == (if c0 <= c1 {
            c0
        } else {
            c1
        }, 0u32),
        <Cell as Coord>::hi((c0, last_index(rows)), (c1, 0u32)) == (if c0 >= c1 {
            c0
        } else {
            c1
        }, last_index(rows)),
{
}

/// A row range covers every column of the rows between its ends, in
/// either order.
pub proof fn lemma_row_range_spans(r0: u32, r1: u32, cols: u32)
    ensures
        <Cell as Coord>::lo((last_index(cols), r0), (0u32, r1)) == (0u32, if r0 <= r1 {
            r0
        } else {
            r1
        }),
        <Cell as Coord>::hi((last_index(cols), r0), (0u32, r1)) == (last_index(cols), if r0 >= r1 {
            r0
        } else {
            r1
        }),
{
}

} // verus!
