//! Cell coordinates of the four tilings: `(col, row)` squares, axial
//! hexagons, triangles, and Voronoi seeds.

use vstd::prelude::*;

verus! {

/// An axial hexagon coordinate.
#[derive(Debug, Clone, Copy, PartialEq, Eq, Hash, Structural)]
pub struct HexCoord {
    pub q: i32,
    pub r: i32,
}

/// A triangle coordinate: `col` is the horizontal half-base index, `row`
/// the vertical row; the triangle points up or down by the parity of
/// `col + row`.
#[derive(Debug, Clone, Copy, PartialEq, Eq, Hash, Structural)]
pub struct TriCoord {
    pub col: i32,
    pub row: i32,
}

/// A Voronoi cell, named by the index of its seed.
#[derive(Debug, Clone, Copy, PartialEq, Eq, Hash, Structural)]
pub struct VoronoiCoord {
    pub seed: u32,
}

pub open spec fn abs(x: int) -> int {
    if x < 0 {
        -x
    } else {
        x
    }
}

/// The number of hex steps between two axial coordinates.
pub open spec fn hex_distance(a: HexCoord, b: HexCoord) -> int {
    let dq = b.q - a.q;
    let dr = b.r - a.r;
    (abs(dq) + abs(dr) + abs(dq + dr)) / 2
}

impl HexCoord {
    pub fn new(q: i32, r: i32) -> (h: HexCoord)
        ensures
            h.q == q,
            h.r == r,
    {
        HexCoord { q, r }
    }

    /// The number of hex steps from `self` to `other`.
    pub fn distance(&self, other: HexCoord) -> (d: i32)
        requires
            -0x1fff_ffff <= self.q <= 0x1fff_ffff,
            -0x1fff_ffff <= self.r <= 0x1fff_ffff,
            -0x1fff_ffff <= other.q <= 0x1fff_ffff,
            -0x1fff_ffff <= other.r <= 0x1fff_ffff,
        ensures
            d == hex_distance(*self, other),
    {
        let dq: i64 = other.q as i64 - self.q as i64;
        let dr: i64 = other.r as i64 - self.r as i64;
        let s: i64 = dq + dr;
        let a: i64 = if dq < 0 {
            -dq
        } else {
            dq
        };
        let b: i64 = if dr < 0 {
            -dr
        } else {
            dr
        };
        let c: i64 = if s < 0 {
            -s
        } else {
            s
        };
        assert(c <= a + b);
        ((a + b + c) / 2) as i32
    }
}

impl TriCoord {
    pub fn new(col: i32, row: i32) -> (t: TriCoord)
        ensures
            t.col == col,
            t.row == row,
    {
        TriCoord { col, row }
    }
}

/// A cell coordinate usable as a map key: copyable, hashable, and with an
/// equality test that agrees with `==`.
pub trait CellKey: Sized {
    /// Whether `self` and `other` name the same cell.
    fn same(&self, other: &Self) -> (b: bool)
        ensures
            b == (*self == *other),
    ;
}

impl CellKey for (u32, u32) {
    fn same(&self, other: &Self) -> (b: bool) {
        self.0 == other.0 && self.1 == other.1
    }
}

impl CellKey for HexCoord {
    fn same(&self, other: &Self) -> (b: bool) {
        self.q == other.q && self.r == other.r
    }
}

impl CellKey for TriCoord {
    fn same(&self, other: &Self) -> (b: bool) {
        self.col == other.col && self.row == other.row
    }
}

impl CellKey for VoronoiCoord {
    fn same(&self, other: &Self) -> (b: bool) {
        self.seed == other.seed
    }
}

} // verus!
