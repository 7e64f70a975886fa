//! The cell-formatting model — visual style and number formats.
//!
//! Just the data and the integer side of number formatting; the app reads
//! a [`CellFormat`] when painting a cell.

use vstd::prelude::*;
use crate::keyed::{assoc, distinct_keys, find_key, keys_of, lemma_assoc_at, lemma_assoc_len,
    lemma_assoc_push, lemma_assoc_remove, lemma_assoc_update};
use crate::lattice::{CellKey, HexCoord};
use crate::text::push_char;
use vstd::string::StringSliceAdditionalSpecFns;

verus! {

/// Horizontal text alignment within a cell. `Auto` defers to the cell's
/// value type at render time — see [`effective_align`].
#[derive(Debug, Clone, Copy, PartialEq, Eq, Hash, Default, Structural)]
pub enum HAlign {
    /// Right for numbers, left for everything else — the default.
    #[default]
    Auto,
    Left,
    Center,
    Right,
}

/// The alignment a cell actually renders with. An explicit `Left`,
/// `Center`, or `Right` is used as-is; `Auto` resolves to `Right` for a
/// numeric value and `Left` otherwise — the spreadsheet default.
pub fn effective_align(align: HAlign, numeric: bool) -> (r: HAlign)
    ensures
        r == (match align {
            HAlign::Auto => if numeric {
                HAlign::Right
            } else {
                HAlign::Left
            },
            other => other,
        }),
{
    match align {
        HAlign::Auto => if numeric {
            HAlign::Right
        } else {
            HAlign::Left
        },
        other => other,
    }
}

/// How a numeric cell value is rendered.
#[derive(Debug, Clone, Copy, PartialEq, Eq, Hash, Default, Structural)]
pub enum NumberFormat {
    /// The engine's natural rendering.
    #[default]
    General,
    /// A fixed number of decimal places.
    Number { decimals: u8 },
    /// A percentage — the value times 100, with a `%` suffix.
    Percent { decimals: u8 },
    /// A `$` prefix and two decimal places.
    Currency,
    /// Fixed decimals with comma thousands separators in the integer part.
    Thousands { decimals: u8 },
    /// Scientific notation — a mantissa and a power-of-ten exponent.
    Scientific { decimals: u8 },
    /// A calendar date — the value, truncated to whole days, read as a
    /// count of days since 1970-01-01 and shown as `YYYY-MM-DD`.
    Date,
    /// A time of day — the value's fractional part (a fraction of a
    /// day) shown as `HH:MM:SS`.
    Time,
    /// A date and a time of day together.
    DateTime,
}

/// Which sides of a cell carry a border line.
#[derive(Debug, Clone, Copy, PartialEq, Eq, Hash, Default, Structural)]
pub struct Borders {
    pub top: bool,
    pub bottom: bool,
    pub left: bool,
    pub right: bool,
}

/// A border command from the ribbon, applied across the selection.
#[derive(Debug, Clone, Copy, PartialEq, Eq, Structural)]
pub enum BorderMode {
    /// Border all four sides of every selected cell.
    All,
    /// Border only the sides on the selection's outer edge.
    Outer,
    /// Clear every border.
    Clear,
}

/// Which sides of `cell` get a border under `mode`, given the selection's
/// `bounds` — its min and max `(col, row)` corner. `All` borders every
/// side; `Clear` clears them; `Outer` borders only the sides lying on the
/// selection's edge (so a one-cell selection gets all four).
pub fn border_sides(cell: (u32, u32), bounds: ((u32, u32), (u32, u32)), mode: BorderMode) -> (b:
    Borders)
    ensures
        mode == BorderMode::Clear ==> b == (Borders { top: false, bottom: false, left: false, right: false }),
        mode == BorderMode::All ==> b == (Borders { top: true, bottom: true, left: true, right: true }),
        mode == BorderMode::Outer ==> b == (Borders {
            top: cell.1 == (bounds.0).1,
            bottom: cell.1 == (bounds.1).1,
            left: cell.0 == (bounds.0).0,
            right: cell.0 == (bounds.1).0,
        }),
{
    match mode {
        BorderMode::Clear => Borders { top: false, bottom: false, left: false, right: false },
        BorderMode::All => Borders { top: true, bottom: true, left: true, right: true },
        BorderMode::Outer => {
            let ((min_c, min_r), (max_c, max_r)) = bounds;
            let (c, r) = cell;
            Borders { top: r == min_r, bottom: r == max_r, left: c == min_c, right: c == max_c }
        },
    }
}

/// Which of a hexagon's six edges carry a border line. Edge `i` is the
/// segment from hex vertex `i` to vertex `i + 1`.
#[derive(Debug, Clone, Copy, PartialEq, Eq, Hash)]
pub struct HexBorders {
    pub edges: [bool; 6],
}

impl HexBorders {
    /// Every edge bordered.
    pub fn all() -> (h: Self)
        ensures
            forall|i: int| 0 <= i < 6 ==> h.edges@[i],
    {
        HexBorders { edges: [true, true, true, true, true, true] }
    }
}

impl Default for HexBorders {
    fn default() -> (h: Self)
        ensures
            forall|i: int| 0 <= i < 6 ==> !h.edges@[i],
    {
        HexBorders { edges: [false, false, false, false, false, false] }
    }
}

/// The axial offset of the hex sharing edge `edge` (taken modulo 6) —
/// the segment from vertex `edge` to vertex `edge + 1`.
pub open spec fn hex_edge_offset(edge: int) -> (int, int) {
    let e = edge % 6;
    if e == 0 {
        (1, 0)
    } else if e == 1 {
        (0, 1)
    } else if e == 2 {
        (-1, 1)
    } else if e == 3 {
        (-1, 0)
    } else if e == 4 {
        (0, -1)
    } else {
        (1, -1)
    }
}

/// The coordinates may be stepped by one in any direction.
pub open spec fn hex_steppable(cell: HexCoord) -> bool {
    i32::MIN < cell.q < i32::MAX && i32::MIN < cell.r < i32::MAX
}

/// The hex across edge `edge` of `cell`.
pub open spec fn hex_across(cell: HexCoord, edge: int) -> HexCoord {
    HexCoord {
        q: (cell.q + hex_edge_offset(edge).0) as i32,
        r: (cell.r + hex_edge_offset(edge).1) as i32,
    }
}

/// The hex sharing edge `edge` of `cell` — the neighbour across that
/// edge. `edge` is taken modulo 6.
pub fn hex_edge_neighbor(cell: HexCoord, edge: usize) -> (n: HexCoord)
    requires
        hex_steppable(cell),
    ensures
        n == hex_across(cell, edge as int),
{
    let e = edge % 6;
    let (dq, dr): (i32, i32) = if e == 0 {
        (1, 0)
    } else if e == 1 {
        (0, 1)
    } else if e == 2 {
        (-1, 1)
    } else if e == 3 {
        (-1, 0)
    } else if e == 4 {
        (0, -1)
    } else {
        (1, -1)
    };
    HexCoord::new(cell.q + dq, cell.r + dr)
}

/// Which of `cell`'s six edges lie on the perimeter of a selection: an
/// edge is on the perimeter when the hex across it is not itself
/// selected. `selected` reports selection membership. A lone selected
/// hex gets all six edges; a hex whose six neighbours are all selected
/// gets none.
pub fn hex_outer_borders<F: Fn(HexCoord) -> bool>(cell: HexCoord, selected: F) -> (h: HexBorders)
    requires
        hex_steppable(cell),
        forall|c: HexCoord| selected.requires((c,)),
    ensures
        forall|i: int| 0 <= i < 6 ==> selected.ensures((hex_across(cell, i),), !h.edges@[i]),
{
    let mut edges = [false, false, false, false, false, false];
    let mut edge: usize = 0;
    while edge < 6
        invariant
            hex_steppable(cell),
            forall|c: HexCoord| selected.requires((c,)),
            edge <= 6,
            forall|i: int| 0 <= i < edge ==> selected.ensures((hex_across(cell, i),), !edges@[i]),
        decreases 6 - edge,
    {
        let n = hex_edge_neighbor(cell, edge);
        let on = !selected(n);
        edges[edge] = on;
        edge = edge + 1;
    }
    HexBorders { edges }
}

/// A colour, straight (not premultiplied) red, green, blue and alpha.
#[derive(Debug, Clone, Copy, PartialEq, Eq, Hash, Structural)]
pub struct Rgba {
    pub r: u8,
    pub g: u8,
    pub b: u8,
    pub a: u8,
}

impl Rgba {
    pub fn from_rgba_unmultiplied(r: u8, g: u8, b: u8, a: u8) -> (c: Rgba)
        ensures
            c == (Rgba { r, g, b, a }),
    {
        Rgba { r, g, b, a }
    }

    pub fn from_rgb(r: u8, g: u8, b: u8) -> (c: Rgba)
        ensures
            c == (Rgba { r, g, b, a: 255 }),
    {
        Rgba { r, g, b, a: 255 }
    }
}

/// The full visual format of one cell. The default is "no formatting".
#[derive(Debug, Clone, Copy, PartialEq, Eq, Hash)]
pub struct CellFormat {
    pub bold: bool,
    pub italic: bool,
    pub strikethrough: bool,
    pub underline: bool,
    pub align: HAlign,
    pub text_color: Option<Rgba>,
    pub fill: Option<Rgba>,
    pub number: NumberFormat,
    pub borders: Borders,
    pub hex_borders: HexBorders,
}

/// The unstyled format.
pub open spec fn plain_format() -> CellFormat {
    CellFormat {
        bold: false,
        italic: false,
        strikethrough: false,
        underline: false,
        align: HAlign::Auto,
        text_color: None,
        fill: None,
        number: NumberFormat::General,
        borders: Borders { top: false, bottom: false, left: false, right: false },
        hex_borders: HexBorders { edges: [false, false, false, false, false, false] },
    }
}

impl Default for CellFormat {
    fn default() -> (f: Self)
        ensures
            f == plain_format(),
    {
        CellFormat {
            bold: false,
            italic: false,
            strikethrough: false,
            underline: false,
            align: HAlign::Auto,
            text_color: None,
            fill: None,
            number: NumberFormat::General,
            borders: Borders { top: false, bottom: false, left: false, right: false },
            hex_borders: HexBorders { edges: [false, false, false, false, false, false] },
        }
    }
}

/// Whether two optional colours are the same.
fn same_color(a: Option<Rgba>, b: Option<Rgba>) -> (r: bool)
    ensures
        r == (a == b),
{
    match (a, b) {
        (Some(x), Some(y)) => x.r == y.r && x.g == y.g && x.b == y.b && x.a == y.a,
        (None, None) => true,
        _ => false,
    }
}

impl CellFormat {
    /// Whether `self` and `other` are the same format.
    pub fn same_as(&self, other: &CellFormat) -> (b: bool)
        ensures
            b == (*self == *other),
    {
        let e1 = self.hex_borders.edges;
        let e2 = other.hex_borders.edges;
        let edges_same = e1[0] == e2[0] && e1[1] == e2[1] && e1[2] == e2[2] && e1[3] == e2[3]
            && e1[4] == e2[4] && e1[5] == e2[5];
        proof {
            if edges_same {
                assert(e1 =~= e2);
            }
        }
        let r = self.bold == other.bold && self.italic == other.italic && self.strikethrough
            == other.strikethrough && self.underline == other.underline && self.align == other.align
            && same_color(self.text_color, other.text_color) && same_color(self.fill, other.fill)
            && self.number == other.number && self.borders == other.borders && edges_same;
        proof {
            if r {
                assert(self.hex_borders == other.hex_borders);
            }
        }
        r
    }

    /// Whether this format carries no styling at all.
    pub fn is_default(&self) -> (b: bool)
        ensures
            b == (*self == plain_format()),
    {
        if self.bold || self.italic || self.strikethrough || self.underline {
            return false;
        }
        match self.align {
            HAlign::Auto => {},
            _ => {
                return false;
            },
        }
        if self.text_color.is_some() || self.fill.is_some() {
            return false;
        }
        match self.number {
            NumberFormat::General => {},
            _ => {
                return false;
            },
        }
        if self.borders.top || self.borders.bottom || self.borders.left || self.borders.right {
            return false;
        }
        let e = self.hex_borders.edges;
        if e[0] || e[1] || e[2] || e[3] || e[4] || e[5] {
            return false;
        }
        proof {
            assert(self.hex_borders.edges =~= plain_format().hex_borders.edges);
        }
        true
    }
}

/// Increase/Decrease Decimal moves the decimal count of every format
/// that carries one — `Number`, `Percent`, `Thousands`, `Scientific` — by
/// `delta`, held within `0..=15`, and keeps the kind of format; adding
/// decimals to `General` makes it a `Number` format with that many
/// places; every other format stays as it is.
pub proof fn lemma_adjust_decimals_moves_the_count(format: NumberFormat, delta: i32)
    ensures
        match format {
            NumberFormat::Number { decimals } => with_decimals(format, delta) == (NumberFormat::Number {
                decimals: (if decimals + delta < 0 { 0 } else if decimals + delta > 15 { 15 } else { decimals + delta }) as u8,
            }),
            NumberFormat::Percent { decimals } => with_decimals(format, delta) == (NumberFormat::Percent {
                decimals: (if decimals + delta < 0 { 0 } else if decimals + delta > 15 { 15 } else { decimals + delta }) as u8,
            }),
            NumberFormat::Thousands { decimals } => with_decimals(format, delta) == (
            NumberFormat::Thousands { decimals: (if decimals + delta < 0 { 0 } else if decimals + delta > 15 { 15 } else { decimals + delta }) as u8 }),
            NumberFormat::Scientific { decimals } => with_decimals(format, delta) == (
            NumberFormat::Scientific { decimals: (if decimals + delta < 0 { 0 } else if decimals + delta > 15 { 15 } else { decimals + delta }) as u8 }),
            _ => true,
        },
        format == NumberFormat::General ==> with_decimals(format, delta) == if delta > 0 {
            (NumberFormat::Number { decimals: (if delta > 15 { 15 } else { delta }) as u8 })
        } else {
            NumberFormat::General
        },
        (format == NumberFormat::Currency || format == NumberFormat::Date || format == NumberFormat::Time
            || format == NumberFormat::DateTime) ==> with_decimals(format, delta) == format,
{
}

/// One more decimal place and then one fewer gives the format back, for
/// a count below the limit of 15.
pub proof fn lemma_adjust_decimals_up_then_down(format: NumberFormat)
    requires
        match format {
            NumberFormat::Number { decimals } => decimals < 15,
            NumberFormat::Percent { decimals } => decimals < 15,
            NumberFormat::Thousands { decimals } => decimals < 15,
            NumberFormat::Scientific { decimals } => decimals < 15,
            NumberFormat::General => false,
            _ => true,
        },
    ensures
        with_decimals(with_decimals(format, 1i32), -1i32) == format,
{
}

/// Increase (`delta > 0`) or decrease (`delta < 0`) a decimal-place
/// count, clamped to `0..=15`.
pub open spec fn bumped(d: u8, delta: i32) -> u8 {
    let v = d + delta;
    if v < 0 {
        0
    } else if v > 15 {
        15
    } else {
        v as u8
    }
}

/// The number format after shifting its decimal places by `delta`.
pub open spec fn with_decimals(format: NumberFormat, delta: i32) -> NumberFormat {
    match format {
        NumberFormat::Number { decimals } => NumberFormat::Number { decimals: bumped(decimals, delta) },
        NumberFormat::Percent { decimals } => NumberFormat::Percent { decimals: bumped(decimals, delta) },
        NumberFormat::Thousands { decimals } => NumberFormat::Thousands {
            decimals: bumped(decimals, delta),
        },
        NumberFormat::Scientific { decimals } => NumberFormat::Scientific {
            decimals: bumped(decimals, delta),
        },
        NumberFormat::General => if delta > 0 {
            NumberFormat::Number { decimals: bumped(0, delta) }
        } else {
            NumberFormat::General
        },
        other => other,
    }
}

fn bump(d: u8, delta: i32) -> (r: u8)
    ensures
        r == bumped(d, delta),
{
    let v: i64 = d as i64 + delta as i64;
    if v < 0 {
        0
    } else if v > 15 {
        15
    } else {
        v as u8
    }
}

/// Increase (`delta > 0`) or decrease (`delta < 0`) a number format's
/// decimal-place count, clamped to `0..=15`. `Number`, `Percent`,
/// `Thousands`, and `Scientific` carry a count and shift it; `General`
/// gains an explicit `Number` count the first time decimals are added;
/// `Currency` (and `General` with nothing to drop) are returned as-is.
pub fn adjust_decimals(format: NumberFormat, delta: i32) -> (r: NumberFormat)
    ensures
        r == with_decimals(format, delta),
{
    match format {
        NumberFormat::Number { decimals } => NumberFormat::Number { decimals: bump(decimals, delta) },
        NumberFormat::Percent { decimals } => NumberFormat::Percent { decimals: bump(decimals, delta) },
        NumberFormat::Thousands { decimals } => NumberFormat::Thousands {
            decimals: bump(decimals, delta),
        },
        NumberFormat::Scientific { decimals } => NumberFormat::Scientific {
            decimals: bump(decimals, delta),
        },
        NumberFormat::General => if delta > 0 {
            NumberFormat::Number { decimals: bump(0, delta) }
        } else {
            NumberFormat::General
        },
        other => other,
    }
}

/// `d` with a comma before every group of three characters, counted from
/// the right — `"1234567" -> "1,234,567"`.
pub open spec fn grouped(d: Seq<char>) -> Seq<char>
    decreases d.len(),
{
    if d.len() <= 3 {
        d
    } else {
        grouped(d.take(d.len() - 3)) + seq![','] + d.skip(d.len() - 3)
    }
}

/// Digit grouping puts a comma before every third digit counted from the
/// right and changes nothing else: counting positions from the right end,
/// every fourth character is a comma and the others are the digits in
/// order, so `n` digits grow by `(n - 1) / 3` commas.
pub proof fn lemma_grouping_places_commas(d: Seq<char>)
    requires
        d.len() > 0,
    ensures
        grouped(d).len() == d.len() + (d.len() - 1) / 3,
        forall|r: int|
            0 <= r < grouped(d).len() ==> #[trigger] grouped(d)[grouped(d).len() - 1 - r] == if r % 4
                == 3 {
                ','
            } else {
                d[d.len() - 1 - (r - r / 4)]
            },
    decreases d.len(),
{
    let n = d.len() as int;
    if n > 3 {
        let t = d.take(n - 3);
        lemma_grouping_places_commas(t);
        let gt = grouped(t);
        let g = grouped(d);
        let last = d.skip(n - 3);
        assert(g == gt + seq![','] + last);
        assert forall|r: int| 0 <= r < g.len() implies #[trigger] g[g.len() - 1 - r] == if r % 4 == 3 {
            ','
        } else {
            d[n - 1 - (r - r / 4)]
        } by {
            if r < 3 {
                assert(g[g.len() - 1 - r] == last[2 - r]);
            } else if r == 3 {
                assert(g[g.len() - 1 - r] == ',');
            } else {
                let r2 = r - 4;
                assert(g[g.len() - 1 - r] == gt[gt.len() - 1 - r2]);
                assert(r2 % 4 == r % 4);
                assert(r2 / 4 == r / 4 - 1);
                if r % 4 != 3 {
                    assert(gt[gt.len() - 1 - r2] == t[t.len() - 1 - (r2 - r2 / 4)]);
                }
            }
        }
    }
}

/// The characters `group_digits` reads from a string: one per byte of its
/// UTF-8 encoding.
pub open spec fn byte_chars(s: &str) -> Seq<char> {
    vstd::utf8::encode_utf8(s@).map_values(|b: u8| b as char)
}

fn grouped_prefix(v: &Vec<char>, end: usize) -> (out: Vec<char>)
    requires
        end <= v@.len(),
    ensures
        out@ == grouped(v@.take(end as int)),
    decreases end,
{
    if end <= 3 {
        let mut out: Vec<char> = Vec::new();
        let mut i: usize = 0;
        while i < end
            invariant
                i <= end <= v@.len(),
                out@ == v@.take(i as int),
            decreases end - i,
        {
            out.push(v[i]);
            assert(out@ =~= v@.take(i + 1));
            i = i + 1;
        }
        out
    } else {
        let mut out = grouped_prefix(v, end - 3);
        let ghost head = out@;
        out.push(',');
        out.push(v[end - 3]);
        out.push(v[end - 2]);
        out.push(v[end - 1]);
        let ghost d = v@.take(end as int);
        assert(d.take(d.len() - 3) =~= v@.take(end - 3));
        assert(out@ =~= head + seq![','] + d.skip(d.len() - 3));
        out
    }
}

/// Insert a comma before every group of three digits, counted from the
/// right — `"1234567" -> "1,234,567"`. Each byte of the text is read as
/// one character.
pub fn group_digits(digits: &str) -> (s: String)
    ensures
        s@ == grouped(byte_chars(digits)),
{
    let bytes = digits.as_bytes();
    let mut v: Vec<char> = Vec::new();
    let mut i: usize = 0;
    while i < bytes.len()
        invariant
            bytes@ == digits.spec_bytes(),
            i <= bytes@.len(),
            v@ == bytes@.take(i as int).map_values(|b: u8| b as char),
        decreases bytes@.len() - i,
    {
        v.push(bytes[i] as char);
        assert(v@ =~= bytes@.take(i + 1).map_values(|b: u8| b as char));
        i = i + 1;
    }
    assert(v@ =~= byte_chars(digits));
    let out = grouped_prefix(&v, v.len());
    assert(v@.take(v@.len() as int) =~= v@);
    let mut s = String::new();
    let mut j: usize = 0;
    while j < out.len()
        invariant
            j <= out@.len(),
            s@ == out@.take(j as int),
        decreases out@.len() - j,
    {
        push_char(&mut s, out[j]);
        assert(s@ =~= out@.take(j + 1));
        j = j + 1;
    }
    assert(out@.take(out@.len() as int) =~= out@);
    s
}

/// The formats a list of `(cell, format)` entries with distinct cells
/// stands for.
pub open spec fn format_table<K>(s: Seq<(K, CellFormat)>) -> Map<K, CellFormat> {
    assoc(s)
}

/// The format a table gives a cell: its stored format, or the plain one.
pub open spec fn format_of<K>(m: Map<K, CellFormat>, cell: K) -> CellFormat {
    if m.contains_key(cell) {
        m[cell]
    } else {
        plain_format()
    }
}

/// The table after giving `cell` the format `f`: a plain format is
/// dropped, any other stored.
pub open spec fn store_format<K>(m: Map<K, CellFormat>, cell: K, f: CellFormat) -> Map<
    K,
    CellFormat,
> {
    if f == plain_format() {
        m.remove(cell)
    } else {
        m.insert(cell, f)
    }
}

/// Per-cell formatting overrides, keyed by a lattice's coordinate type
/// `K` — `(u32, u32)` for the square sheet, `HexCoord` for the hex sheet.
/// A cell absent from the map is unstyled, so an empty map is a plain
/// sheet.
#[derive(Debug)]
pub struct FormatMap<K> {
    formats: Vec<(K, CellFormat)>,
}

impl<K> FormatMap<K> {
    /// No cell is listed twice, and no stored format is plain.
    #[verifier::type_invariant]
    spec fn well_formed(self) -> bool {
        &&& distinct_keys(self.formats@)
        &&& forall|i: int| 0 <= i < self.formats@.len() ==> (#[trigger] self.formats@[i]).1 != plain_format()
    }
}

impl<K> View for FormatMap<K> {
    type V = Map<K, CellFormat>;

    closed spec fn view(&self) -> Map<K, CellFormat> {
        assoc(self.formats@)
    }
}

impl<K: CellKey + Copy> Default for FormatMap<K> {
    fn default() -> (m: Self)
        ensures
            m@ == Map::<K, CellFormat>::empty(),
    {
        let m = FormatMap { formats: Vec::new() };
        assert(m@ =~= Map::<K, CellFormat>::empty());
        m
    }
}

impl<K: CellKey + Copy> Clone for FormatMap<K> {
    fn clone(&self) -> (c: Self)
        ensures
            c@ == self@,
    {
        proof {
            use_type_invariant(self);
        }
        let mut formats: Vec<(K, CellFormat)> = Vec::new();
        let mut i: usize = 0;
        while i < self.formats.len()
            invariant
                i <= self.formats@.len(),
                formats@ == self.formats@.take(i as int),
            decreases self.formats@.len() - i,
        {
            let (k, f) = self.formats[i];
            formats.push((k, f));
            assert(formats@ =~= self.formats@.take(i + 1));
            i = i + 1;
        }
        assert(formats@ =~= self.formats@);
        FormatMap { formats }
    }
}

/// No cell of the table is stored with the plain format.
pub open spec fn holds_no_plain<K>(m: Map<K, CellFormat>) -> bool {
    forall|c: K| #[trigger] m.contains_key(c) ==> m[c] != plain_format()
}

impl<K: CellKey + Copy> FormatMap<K> {
    pub fn new() -> (m: Self)
        ensures
            m@ == Map::<K, CellFormat>::empty(),
    {
        Self::default()
    }

    /// The format of a cell — its default if never styled. A stored
    /// format is never the plain one.
    pub fn get(&self, cell: K) -> (f: CellFormat)
        ensures
            f == format_of(self@, cell),
            self@.contains_key(cell) ==> f != plain_format(),
            holds_no_plain(self@),
    {
        proof {
            use_type_invariant(self);
            assert forall|c: K| #[trigger] self@.contains_key(c) implies self@[c] != plain_format() by {
                let j = choose|j: int|
                    0 <= j < keys_of(self.formats@).len() && keys_of(self.formats@)[j] == c;
                lemma_assoc_at(self.formats@, j);
            }
        }
        match find_key(&self.formats, &cell) {
            Some(i) => {
                proof {
                    lemma_assoc_at(self.formats@, i as int);
                }
                self.formats[i].1
            },
            None => CellFormat::default(),
        }
    }

    /// Give `cell` the format `f`. A format that is back at the default
    /// is dropped, so the map only ever holds real styling.
    pub fn set(&mut self, cell: K, f: CellFormat)
        ensures
            final(self)@ == store_format(old(self)@, cell, f),
            old(self)@.dom().finite(),
            final(self)@.dom().finite(),
    {
        proof {
            use_type_invariant(&*self);
            lemma_assoc_len(self.formats@);
        }
        let plain = f.is_default();
        let found = find_key(&self.formats, &cell);
        let ghost s = self.formats@;
        let mut formats: Vec<(K, CellFormat)> = Vec::new();
        std::mem::swap(&mut formats, &mut self.formats);
        match found {
            Some(i) => {
                if plain {
                    formats.remove(i);
                    proof {
                        lemma_assoc_remove(s, i as int);
                        assert forall|j: int| 0 <= j < formats@.len() implies (
                        #[trigger] formats@[j]).1 != plain_format() by {
                            if j < i {
                                assert(formats@[j] == s[j]);
                            } else {
                                assert(formats@[j] == s[j + 1]);
                            }
                        }
                    }
                } else {
                    formats.set(i, (cell, f));
                    proof {
                        lemma_assoc_update(s, i as int, f);
                        assert(formats@ =~= s.update(i as int, (s[i as int].0, f)));
                    }
                }
            },
            None => {
                if !plain {
                    formats.push((cell, f));
                    proof {
                        lemma_assoc_push(s, cell, f);
                    }
                }
            },
        }
        self.formats = formats;
        assert(self@ =~= store_format(old(self)@, cell, f));
        proof {
            use_type_invariant(&*self);
            lemma_assoc_len(self.formats@);
        }
    }

    /// Change a cell's format by `edit`. An entry that ends up back at
    /// the default is dropped, so the map only ever holds real styling.
    pub fn update<F: FnOnce(CellFormat) -> CellFormat>(&mut self, cell: K, edit: F)
        requires
            edit.requires((format_of(old(self)@, cell),)),
        ensures
            exists|f: CellFormat|
                edit.ensures((format_of(old(self)@, cell),), f) && final(self)@ == store_format(
                    old(self)@,
                    cell,
                    f,
                ),
    {
        let format = self.get(cell);
        let edited = edit(format);
        self.set(cell, edited);
    }

    /// How many cells carry non-default formatting.
    pub fn styled_count(&self) -> (n: usize)
        ensures
            n == self@.len(),
            self@.dom().finite(),
    {
        proof {
            use_type_invariant(self);
            lemma_assoc_len(self.formats@);
        }
        self.formats.len()
    }
}

/// Reading a cell right after giving it a format gives that format back;
/// other cells keep theirs.
pub proof fn lemma_format_read_after_write<K>(
    m: Map<K, CellFormat>,
    cell: K,
    f: CellFormat,
    other: K,
)
    ensures
        format_of(store_format(m, cell, f), cell) == f,
        other != cell ==> format_of(store_format(m, cell, f), other) == format_of(m, other),
{
}

} // verus!
