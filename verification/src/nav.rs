//! Moving around the three sheets: single steps, the visible windows of
//! the hex and triangle sheets, Ctrl+arrow jumps, Page Up / Page Down,
//! the hex data region, lattice addresses and the hex and triangle
//! AutoSum actions.

use vstd::prelude::*;
use vstd::string::*;
use crate::grid::{
    accepted, accepted2, answers2, autosum_formula, block_jump, jump_target_by, lemma_deterministic_answers2, deterministic, deterministic2,
    index_next, jump_spec, ranked, terminates,
};
use crate::keymap::Dir;
use crate::lattice::{abs, hex_distance, HexCoord, TriCoord};
use crate::text::{dec_signed, push_char, push_signed_decimal};

verus! {

/// Columns of the square sheet.
pub const COLS: u32 = 52;

/// Rows of the square sheet.
pub const ROWS: u32 = 200;

/// Rows a Page Up / Page Down moves on the square and triangle sheets.
pub const PAGE_ROWS: u32 = 16;

/// The hex sheet shows the disc of hexes this many steps from the origin.
pub const HEX_VIEW_RADIUS: i32 = 3;

/// The triangle sheet shows `col` and `row` in `-TRIANGLE_RADIUS..=TRIANGLE_RADIUS`.
pub const TRIANGLE_RADIUS: i32 = 6;

/// One step from a square cell, clamped to the grid.
pub open spec fn square_step(cell: (u32, u32), dir: Dir) -> (u32, u32) {
    let (col, row) = cell;
    match dir {
        Dir::Up => (col, if row == 0 {
            0
        } else {
            (row - 1) as u32
        }),
        Dir::Down => (col, if row + 1 <= ROWS - 1 {
            (row + 1) as u32
        } else {
            (ROWS - 1) as u32
        }),
        Dir::Left => (if col == 0 {
            0
        } else {
            (col - 1) as u32
        }, row),
        Dir::Right => (if col + 1 <= COLS - 1 {
            (col + 1) as u32
        } else {
            (COLS - 1) as u32
        }, row),
    }
}

/// One step from a square cell, clamped to the grid.
pub fn step_square(cell: (u32, u32), dir: Dir) -> (r: (u32, u32))
    requires
        dir == Dir::Down ==> cell.1 < u32::MAX,
        dir == Dir::Right ==> cell.0 < u32::MAX,
    ensures
        r == square_step(cell, dir),
{
    let (col, row) = cell;
    match dir {
        Dir::Up => (col, row.saturating_sub(1)),
        Dir::Down => (col, if row + 1 <= ROWS - 1 {
            row + 1
        } else {
            ROWS - 1
        }),
        Dir::Left => (col.saturating_sub(1), row),
        Dir::Right => (if col + 1 <= COLS - 1 {
            col + 1
        } else {
            COLS - 1
        }, row),
    }
}

/// Whether a step along `dir` from `c` stays within `i32`.
pub open spec fn hex_step_fits(c: HexCoord, dir: Dir) -> bool {
    match dir {
        Dir::Left => c.q > i32::MIN,
        Dir::Right => c.q < i32::MAX,
        Dir::Up => c.r > i32::MIN,
        Dir::Down => c.r < i32::MAX,
    }
}

/// One axial step: left and right along `q`, up and down along `r`.
pub open spec fn hex_next(c: HexCoord, dir: Dir) -> HexCoord {
    match dir {
        Dir::Left => HexCoord { q: (c.q - 1) as i32, r: c.r },
        Dir::Right => HexCoord { q: (c.q + 1) as i32, r: c.r },
        Dir::Up => HexCoord { q: c.q, r: (c.r - 1) as i32 },
        Dir::Down => HexCoord { q: c.q, r: (c.r + 1) as i32 },
    }
}

/// One axial step from a hex coordinate. On the pointy-top lattice left
/// and right run along the `q` axis and up and down along `r`; together
/// they reach every hex.
pub fn hex_step(coord: HexCoord, dir: Dir) -> (h: HexCoord)
    requires
        hex_step_fits(coord, dir),
    ensures
        h == hex_next(coord, dir),
{
    match dir {
        Dir::Left => HexCoord::new(coord.q - 1, coord.r),
        Dir::Right => HexCoord::new(coord.q + 1, coord.r),
        Dir::Up => HexCoord::new(coord.q, coord.r - 1),
        Dir::Down => HexCoord::new(coord.q, coord.r + 1),
    }
}

/// Whether a step along `dir` from `c` stays within `i32`.
pub open spec fn triangle_step_fits(c: TriCoord, dir: Dir) -> bool {
    match dir {
        Dir::Left => c.col > i32::MIN,
        Dir::Right => c.col < i32::MAX,
        Dir::Up => c.row > i32::MIN,
        Dir::Down => c.row < i32::MAX,
    }
}

/// One triangle step: left and right along `col`, up and down along
/// `row`.
pub open spec fn triangle_next(c: TriCoord, dir: Dir) -> TriCoord {
    match dir {
        Dir::Left => TriCoord { col: (c.col - 1) as i32, row: c.row },
        Dir::Right => TriCoord { col: (c.col + 1) as i32, row: c.row },
        Dir::Up => TriCoord { col: c.col, row: (c.row - 1) as i32 },
        Dir::Down => TriCoord { col: c.col, row: (c.row + 1) as i32 },
    }
}

/// One step from a triangle coordinate: left and right along `col`, up
/// and down along `row`. The orientation follows the parity of
/// `col + row`, so a sideways step flips between up- and down-pointing
/// triangles.
pub fn triangle_step(coord: TriCoord, dir: Dir) -> (t: TriCoord)
    requires
        triangle_step_fits(coord, dir),
    ensures
        t == triangle_next(coord, dir),
{
    match dir {
        Dir::Left => TriCoord::new(coord.col - 1, coord.row),
        Dir::Right => TriCoord::new(coord.col + 1, coord.row),
        Dir::Up => TriCoord::new(coord.col, coord.row - 1),
        Dir::Down => TriCoord::new(coord.col, coord.row + 1),
    }
}

/// The hexes the hex sheet shows: the disc within [`HEX_VIEW_RADIUS`]
/// steps of the origin.
pub open spec fn hex_visible(c: HexCoord) -> bool {
    hex_distance(HexCoord { q: 0, r: 0 }, c) <= HEX_VIEW_RADIUS
}

/// Whether a hex coordinate lies in the rendered view disc.
pub fn hex_in_view(coord: HexCoord) -> (b: bool)
    ensures
        b == hex_visible(coord),
{
    if coord.q < -HEX_VIEW_RADIUS || coord.q > HEX_VIEW_RADIUS || coord.r < -HEX_VIEW_RADIUS
        || coord.r > HEX_VIEW_RADIUS {
        return false;
    }
    HexCoord::new(0, 0).distance(coord) <= HEX_VIEW_RADIUS
}

/// The triangles the triangle sheet shows.
pub open spec fn triangle_visible(c: TriCoord) -> bool {
    -TRIANGLE_RADIUS <= c.col <= TRIANGLE_RADIUS && -TRIANGLE_RADIUS <= c.row <= TRIANGLE_RADIUS
}

/// Whether a triangle coordinate lies in the drawn window; drawing and
/// hit-testing agree on this bound.
pub fn triangle_in_view(c: TriCoord) -> (b: bool)
    requires
        c.col > i32::MIN,
        c.row > i32::MIN,
    ensures
        b == triangle_visible(c),
{
    let col_abs: i32 = if c.col < 0 {
        -c.col
    } else {
        c.col
    };
    let row_abs: i32 = if c.row < 0 {
        -c.row
    } else {
        c.row
    };
    col_abs <= TRIANGLE_RADIUS && row_abs <= TRIANGLE_RADIUS
}

/// The `H(q,r)` address of a hex, the form the engine's hex lattice
/// reads.
pub open spec fn hex_addr(c: HexCoord) -> Seq<char> {
    seq!['H', '('] + dec_signed(c.q as int) + seq![','] + dec_signed(c.r as int) + seq![')']
}

/// The `T(col,row)` address of a triangle, the form the engine's
/// triangle lattice reads.
pub open spec fn triangle_addr(c: TriCoord) -> Seq<char> {
    seq!['T', '('] + dec_signed(c.col as int) + seq![','] + dec_signed(c.row as int) + seq![')']
}

/// Writes `L(a,b)` for the letter `L`.
fn lattice_address(letter: char, a: i32, b: i32) -> (s: String)
    ensures
        s@ == seq![letter, '('] + dec_signed(a as int) + seq![','] + dec_signed(b as int) + seq![')'],
{
    let mut s = String::new();
    push_char(&mut s, letter);
    push_char(&mut s, '(');
    push_signed_decimal(&mut s, a);
    push_char(&mut s, ',');
    push_signed_decimal(&mut s, b);
    push_char(&mut s, ')');
    assert(s@ =~= seq![letter, '('] + dec_signed(a as int) + seq![','] + dec_signed(b as int) + seq![')']);
    s
}

/// The `H(q,r)` address of a hex coordinate.
pub fn hex_address(c: HexCoord) -> (s: String)
    ensures
        s@ == hex_addr(c),
{
    lattice_address('H', c.q, c.r)
}

/// The `T(col,row)` address of a triangle coordinate.
pub fn triangle_address(c: TriCoord) -> (s: String)
    ensures
        s@ == triangle_addr(c),
{
    lattice_address('T', c.col, c.row)
}

/// The range text of a hex block: one address for a single hex, else
/// `first:last`.
pub open spec fn hex_range_text(min: HexCoord, max: HexCoord) -> Seq<char> {
    if min == max {
        hex_addr(min)
    } else {
        hex_addr(min) + seq![':'] + hex_addr(max)
    }
}

/// The range text of a triangle block: one address for a single
/// triangle, else `first:last`.
pub open spec fn triangle_range_text(min: TriCoord, max: TriCoord) -> Seq<char> {
    if min == max {
        triangle_addr(min)
    } else {
        triangle_addr(min) + seq![':'] + triangle_addr(max)
    }
}

/// The hex AutoSum action for a selection with inclusive axial corners
/// `bounds`: the hex just below the selection's bottom row, in its first
/// column, and the `=FUNC(range)` formula for it; `None` when that hex is
/// outside the view disc.
pub fn hex_autosum(bounds: (HexCoord, HexCoord), func: &str) -> (r: Option<(HexCoord, String)>)
    requires
        (bounds.1).r < i32::MAX,
    ensures
        ({
            let target = HexCoord { q: (bounds.0).q, r: ((bounds.1).r + 1) as i32 };
            &&& !hex_visible(target) ==> r is None
            &&& hex_visible(target) ==> r is Some && (r->0).0 == target && (r->0).1@
                == autosum_formula(func@, hex_range_text(bounds.0, bounds.1))
        }),
{
    let (min, max) = bounds;
    let target = HexCoord::new(min.q, max.r + 1);
    if !hex_in_view(target) {
        return None;
    }
    let mut text = String::new();
    push_char(&mut text, '=');
    text.append(func);
    push_char(&mut text, '(');
    let first = hex_address(min);
    text.append(first.as_str());
    if !(min.q == max.q && min.r == max.r) {
        push_char(&mut text, ':');
        let last = hex_address(max);
        text.append(last.as_str());
    }
    push_char(&mut text, ')');
    assert(text@ =~= autosum_formula(func@, hex_range_text(min, max)));
    Some((target, text))
}

/// The triangle AutoSum action for a selection between `min` and `max`:
/// the triangle one row below the selection in its first column, and the
/// `=FUNC(range)` formula for it; `None` when that triangle is outside
/// the drawn window.
pub fn triangle_autosum(bounds: (TriCoord, TriCoord), func: &str) -> (r: Option<
    (TriCoord, String),
>)
    requires
        (bounds.1).row < i32::MAX,
        (bounds.0).col > i32::MIN,
    ensures
        ({
            let target = TriCoord { col: (bounds.0).col, row: ((bounds.1).row + 1) as i32 };
            &&& !triangle_visible(target) ==> r is None
            &&& triangle_visible(target) ==> r is Some && (r->0).0 == target && (r->0).1@
                == autosum_formula(func@, triangle_range_text(bounds.0, bounds.1))
        }),
{
    let (min, max) = bounds;
    let target = TriCoord::new(min.col, max.row + 1);
    if !triangle_in_view(target) {
        return None;
    }
    let mut text = String::new();
    push_char(&mut text, '=');
    text.append(func);
    push_char(&mut text, '(');
    let first = triangle_address(min);
    text.append(first.as_str());
    if !(min.col == max.col && min.row == max.row) {
        push_char(&mut text, ':');
        let last = triangle_address(max);
        text.append(last.as_str());
    }
    push_char(&mut text, ')');
    assert(text@ =~= autosum_formula(func@, triangle_range_text(min, max)));
    Some((target, text))
}

/// The row a triangle-sheet Page Up / Page Down lands on: [`PAGE_ROWS`]
/// rows toward the window's top or bottom edge, clamped to the window.
pub open spec fn triangle_page_row(row: i32, up: bool) -> i32 {
    if up {
        if row - PAGE_ROWS >= -TRIANGLE_RADIUS {
            (row - PAGE_ROWS) as i32
        } else {
            (-TRIANGLE_RADIUS) as i32
        }
    } else {
        if row + PAGE_ROWS <= TRIANGLE_RADIUS {
            (row + PAGE_ROWS) as i32
        } else {
            TRIANGLE_RADIUS
        }
    }
}

/// Page Up / Page Down on the triangle sheet: the cursor moves a page of
/// rows in its column, clamped to the drawn window.
pub fn triangle_page(cursor: TriCoord, up: bool) -> (t: TriCoord)
    requires
        up ==> cursor.row >= i32::MIN + 16,
        !up ==> cursor.row <= i32::MAX - 16,
    ensures
        t == (TriCoord { col: cursor.col, row: triangle_page_row(cursor.row, up) }),
{
    let page: i32 = 16;
    let row = if up {
        if cursor.row - page >= -TRIANGLE_RADIUS {
            cursor.row - page
        } else {
            -TRIANGLE_RADIUS
        }
    } else {
        if cursor.row + page <= TRIANGLE_RADIUS {
            cursor.row + page
        } else {
            TRIANGLE_RADIUS
        }
    };
    TriCoord::new(cursor.col, row)
}

/// The direction that undoes a step along `dir`.
pub open spec fn opposite(dir: Dir) -> Dir {
    match dir {
        Dir::Up => Dir::Down,
        Dir::Down => Dir::Up,
        Dir::Left => Dir::Right,
        Dir::Right => Dir::Left,
    }
}

/// A hex step followed by a step the opposite way comes back to the
/// start.
pub proof fn lemma_hex_steps_cancel(c: HexCoord, dir: Dir)
    requires
        hex_step_fits(c, dir),
    ensures
        hex_step_fits(hex_next(c, dir), opposite(dir)),
        hex_next(hex_next(c, dir), opposite(dir)) == c,
{
}

/// Every hex step moves to a neighbour: one step away on the lattice.
pub proof fn lemma_hex_step_is_unit(c: HexCoord, dir: Dir)
    requires
        hex_step_fits(c, dir),
    ensures
        hex_distance(c, hex_next(c, dir)) == 1,
{
}

/// A triangle step followed by a step the opposite way comes back to the
/// start.
pub proof fn lemma_triangle_steps_cancel(c: TriCoord, dir: Dir)
    requires
        triangle_step_fits(c, dir),
    ensures
        triangle_step_fits(triangle_next(c, dir), opposite(dir)),
        triangle_next(triangle_next(c, dir), opposite(dir)) == c,
{
}

/// A square step never leaves the grid.
pub proof fn lemma_square_step_stays_on_grid(cell: (u32, u32), dir: Dir)
    requires
        cell.0 < COLS,
        cell.1 < ROWS,
    ensures
        square_step(cell, dir).0 < COLS,
        square_step(cell, dir).1 < ROWS,
{
}

/// `deterministic` of a borrowed closure.
pub open spec fn deterministic_at<A, B, F: Fn(A) -> B>(f: &F) -> bool {
    deterministic(*f)
}

/// `accepted` of a borrowed closure.
pub open spec fn accepted_at<C, F: Fn(C) -> bool>(f: &F) -> spec_fn(C) -> bool {
    accepted(*f)
}

/// `deterministic2` of a borrowed closure.
pub open spec fn deterministic2_at<G: Fn(u32, u32) -> bool>(f: &G) -> bool {
    deterministic2(*f)
}

/// `accepted2` of a borrowed closure.
pub open spec fn accepted2_at<G: Fn(u32, u32) -> bool>(f: &G) -> spec_fn(u32, u32) -> bool {
    accepted2(*f)
}

/// The walk of a hex Ctrl+arrow jump: one step along `dir` at a time,
/// ending where the next hex would leave the view (or `i32`).
pub open spec fn hex_walk(in_view: spec_fn(HexCoord) -> bool, dir: Dir) -> spec_fn(HexCoord) -> Option<HexCoord> {
    |c: HexCoord|
        if hex_step_fits(c, dir) && in_view(hex_next(c, dir)) {
            Some(hex_next(c, dir))
        } else {
            None
        }
}

/// Every hex `in_view` accepts lies within `radius` of the origin on both
/// axes.
pub open spec fn view_bounded(in_view: spec_fn(HexCoord) -> bool, radius: int) -> bool {
    forall|c: HexCoord| #[trigger] in_view(c) ==> -radius <= c.q <= radius && -radius <= c.r <= radius
}

/// The hex a Ctrl+arrow jump lands on, where `in_view` and `occupied`
/// compute the spec predicates `view` and `occ` — see [`hex_jump`], whose
/// result this is, stated over them.
pub fn hex_jump_by<V: Fn(HexCoord) -> bool, G: Fn(HexCoord) -> bool>(
    start: HexCoord,
    dir: Dir,
    in_view: V,
    occupied: G,
    Ghost(view): Ghost<spec_fn(HexCoord) -> bool>,
    Ghost(occ): Ghost<spec_fn(HexCoord) -> bool>,
) -> (r: HexCoord)
    requires
        forall|c: HexCoord| in_view.requires((c,)),
        forall|c: HexCoord| occupied.requires((c,)),
        forall|c: HexCoord, b: bool| in_view.ensures((c,), b) ==> b == view(c),
        forall|c: HexCoord, b: bool| occupied.ensures((c,), b) ==> b == occ(c),
        exists|radius: int| 0 <= radius <= 0x3fff_ffff && view_bounded(view, radius),
        hex_step_fits(start, dir),
    ensures
        r == jump_spec(hex_walk(view, dir), occ, start),
{
    let ghost next = hex_walk(view, dir);
    let ghost radius = choose|radius: int| 0 <= radius <= 0x3fff_ffff && view_bounded(view, radius);
    let view_test = &in_view;
    let view_ghost: Ghost<spec_fn(HexCoord) -> bool> = Ghost(view);
    let vg = &view_ghost;
    let step = |c: HexCoord| -> (o: Option<HexCoord>)
        requires
            forall|x: HexCoord| view_test.requires((x,)),
            forall|x: HexCoord, b: bool| view_test.ensures((x,), b) ==> b == vg@(x),
        ensures
            o == hex_walk(vg@, dir)(c),
        {
            let fits = match dir {
                Dir::Left => c.q > i32::MIN,
                Dir::Right => c.q < i32::MAX,
                Dir::Up => c.r > i32::MIN,
                Dir::Down => c.r < i32::MAX,
            };
            if !fits {
                return None;
            }
            let n = hex_step(c, dir);
            if view_test(n) {
                Some(n)
            } else {
                None
            }
        };
    let ghost rank = |c: HexCoord|
        {
            let along: int = match dir {
                Dir::Left => -c.q,
                Dir::Right => c.q as int,
                Dir::Up => -c.r,
                Dir::Down => c.r as int,
            };
            if -radius <= along <= radius {
                (radius + 1 - along) as nat
            } else {
                (2 * radius + 3) as nat
            }
        };
    assert forall|c: HexCoord| #[trigger] next(c) is Some implies rank(next(c)->0) < rank(c) by {
        let n = hex_next(c, dir);
        assert(view(n));
    }
    assert(ranked(next, rank));
    block_jump(start, step, occupied, Ghost(next), Ghost(occ))
}

/// The hex a Ctrl+arrow jump lands on: [`block_jump`] walking `dir` from
/// `start` over axial coordinates, bounded by `in_view`.
pub fn hex_jump<V: Fn(HexCoord) -> bool, G: Fn(HexCoord) -> bool>(
    start: HexCoord,
    dir: Dir,
    in_view: V,
    occupied: G,
) -> (r: HexCoord)
    requires
        forall|c: HexCoord| in_view.requires((c,)),
        forall|c: HexCoord| occupied.requires((c,)),
        deterministic(in_view),
        deterministic(occupied),
        exists|radius: int| 0 <= radius <= 0x3fff_ffff && view_bounded(accepted(in_view), radius),
        hex_step_fits(start, dir),
    ensures
        r == jump_spec(hex_walk(accepted(in_view), dir), accepted(occupied), start),
{
    hex_jump_by(start, dir, in_view, occupied, Ghost(accepted(in_view)), Ghost(accepted(occupied)))
}

/// `answers2` of a borrowed closure.
pub open spec fn answers2_at<G: Fn(u32, u32) -> bool>(f: &G, occ: spec_fn(u32, u32) -> bool) -> bool {
    answers2(*f, occ)
}

/// The square cell a Ctrl+arrow jump lands on, where `occupied` computes
/// the spec predicate `occ` — see [`square_jump`], whose result this is,
/// stated over `occ`.
pub fn square_jump_by<G: Fn(u32, u32) -> bool>(
    cursor: (u32, u32),
    dir: Dir,
    occupied: G,
    Ghost(occg): Ghost<spec_fn(u32, u32) -> bool>,
) -> (r: (u32, u32))
    requires
        forall|c: u32, r: u32| occupied.requires((c, r)),
        answers2(occupied, occg),
    ensures
        r == (match dir {
            Dir::Left => (jump_spec(index_next((COLS - 1) as u32, false), |i: u32| occg(i, cursor.1), cursor.0), cursor.1),
            Dir::Right => (jump_spec(index_next((COLS - 1) as u32, true), |i: u32| occg(i, cursor.1), cursor.0), cursor.1),
            Dir::Up => (cursor.0, jump_spec(index_next((ROWS - 1) as u32, false), |i: u32| occg(cursor.0, i), cursor.1)),
            Dir::Down => (cursor.0, jump_spec(index_next((ROWS - 1) as u32, true), |i: u32| occg(cursor.0, i), cursor.1)),
        }),
{
    let (c, r) = cursor;
    let occ = &occupied;
    let occ_ghost: Ghost<spec_fn(u32, u32) -> bool> = Ghost(occg);
    let og = &occ_ghost;
    match dir {
        Dir::Left | Dir::Right => {
            let in_row = |i: u32| -> (b: bool)
                requires
                    forall|x: u32, y: u32| occ.requires((x, y)),
                    answers2_at(occ, og@),
                ensures
                    b == og@(i, r),
                { occ(i, r) };
            let forward = match dir {
                Dir::Right => true,
                _ => false,
            };
            let col = jump_target_by(c, COLS - 1, forward, in_row, Ghost(|i: u32| occg(i, r)));
            (col, r)
        },
        Dir::Up | Dir::Down => {
            let in_col = |i: u32| -> (b: bool)
                requires
                    forall|x: u32, y: u32| occ.requires((x, y)),
                    answers2_at(occ, og@),
                ensures
                    b == og@(c, i),
                { occ(c, i) };
            let forward = match dir {
                Dir::Down => true,
                _ => false,
            };
            let row = jump_target_by(r, ROWS - 1, forward, in_col, Ghost(|i: u32| occg(c, i)));
            (c, row)
        },
    }
}

/// The square cell a Ctrl+arrow jump lands on from `cursor`: the block
/// edge along its row or column, by [`block_jump`] over that axis.
pub fn square_jump<G: Fn(u32, u32) -> bool>(cursor: (u32, u32), dir: Dir, occupied: G) -> (r: (u32, u32))
    requires
        forall|c: u32, r: u32| occupied.requires((c, r)),
        deterministic2(occupied),
    ensures
        r == (match dir {
            Dir::Left => (jump_spec(index_next((COLS - 1) as u32, false), |i: u32| accepted2(occupied)(i, cursor.1), cursor.0), cursor.1),
            Dir::Right => (jump_spec(index_next((COLS - 1) as u32, true), |i: u32| accepted2(occupied)(i, cursor.1), cursor.0), cursor.1),
            Dir::Up => (cursor.0, jump_spec(index_next((ROWS - 1) as u32, false), |i: u32| accepted2(occupied)(cursor.0, i), cursor.1)),
            Dir::Down => (cursor.0, jump_spec(index_next((ROWS - 1) as u32, true), |i: u32| accepted2(occupied)(cursor.0, i), cursor.1)),
        }),
{
    proof {
        lemma_deterministic_answers2(occupied);
    }
    square_jump_by(cursor, dir, occupied, Ghost(accepted2(occupied)))
}

/// The hexes a two-argument predicate closure accepts.
pub open spec fn accepted_hex<G: Fn(i32, i32) -> bool>(pred: G) -> spec_fn(i32, i32) -> bool {
    |q: i32, r: i32| pred.ensures((q, r), true)
}

/// A two-argument closure over axial coordinates that answers every call
/// the same way.
pub open spec fn deterministic_hex<G: Fn(i32, i32) -> bool>(f: G) -> bool {
    forall|q: i32, r: i32, b1: bool, b2: bool|
        f.ensures((q, r), b1) && f.ensures((q, r), b2) ==> b1 == b2
}

/// Every answer the closure gives is the spec predicate's: `f` computes
/// `occ`.
pub open spec fn answers_hex<G: Fn(i32, i32) -> bool>(f: G, occ: spec_fn(i32, i32) -> bool) -> bool {
    forall|q: i32, r: i32, b: bool| f.ensures((q, r), b) ==> b == occ(q, r)
}

proof fn lemma_deterministic_answers_hex<G: Fn(i32, i32) -> bool>(f: G)
    requires
        deterministic_hex(f),
    ensures
        answers_hex(f, accepted_hex(f)),
{
    assert forall|q: i32, r: i32, b: bool| f.ensures((q, r), b) implies b == accepted_hex(f)(q, r) by {
        if !b && f.ensures((q, r), true) {
            assert(false);
        }
    }
}

/// Some hex of row `r` with `q` between `lo` and `hi` is occupied.
pub open spec fn hex_row_hit(occ: spec_fn(i32, i32) -> bool, lo: i32, hi: i32, r: i32) -> bool {
    exists|q: i32| lo <= q <= hi && #[trigger] occ(q, r)
}

/// Some hex of column `q` with `r` between `lo` and `hi` is occupied.
pub open spec fn hex_col_hit(occ: spec_fn(i32, i32) -> bool, q: i32, lo: i32, hi: i32) -> bool {
    exists|r: i32| lo <= r <= hi && #[trigger] occ(q, r)
}

/// No row or column of hexes just past an edge of the `(q, r)` box holds
/// an occupied hex within the box's span; edges at `±radius` do not grow.
pub open spec fn hex_region_closed(
    b: ((i32, i32), (i32, i32)),
    radius: i32,
    occ: spec_fn(i32, i32) -> bool,
) -> bool {
    let ((min_q, min_r), (max_q, max_r)) = b;
    &&& !(min_r > -radius && hex_row_hit(occ, min_q, max_q, (min_r - 1) as i32))
    &&& !(max_r < radius && hex_row_hit(occ, min_q, max_q, (max_r + 1) as i32))
    &&& !(min_q > -radius && hex_col_hit(occ, (min_q - 1) as i32, min_r, max_r))
    &&& !(max_q < radius && hex_col_hit(occ, (max_q + 1) as i32, min_r, max_r))
}

/// The `(q, r)` box holds `cell`.
pub open spec fn hex_box_holds(b: ((i32, i32), (i32, i32)), cell: (i32, i32)) -> bool {
    &&& (b.0).0 <= cell.0 <= (b.1).0
    &&& (b.0).1 <= cell.1 <= (b.1).1
}

/// Box `a` lies within box `b`.
pub open spec fn hex_box_within(a: ((i32, i32), (i32, i32)), b: ((i32, i32), (i32, i32))) -> bool {
    &&& (b.0).0 <= (a.0).0 && (a.1).0 <= (b.1).0
    &&& (b.0).1 <= (a.0).1 && (a.1).1 <= (b.1).1
}

/// Whether any hex of row `r` with `q` in `lo..=hi` is occupied.
fn hex_any_in_row<G: Fn(i32, i32) -> bool>(
    occupied: &G,
    lo: i32,
    hi: i32,
    r: i32,
    Ghost(occ): Ghost<spec_fn(i32, i32) -> bool>,
) -> (b: bool)
    requires
        forall|q: i32, r: i32| occupied.requires((q, r)),
        answers_hex(*occupied, occ),
        lo <= hi,
    ensures
        b == hex_row_hit(occ, lo, hi, r),
{
    let mut q = lo;
    loop
        invariant
            forall|q: i32, r: i32| occupied.requires((q, r)),
            answers_hex(*occupied, occ),
            lo <= q <= hi,
            forall|x: i32| lo <= x < q ==> !(#[trigger] occ(x, r)),
        decreases hi - q,
    {
        let hit = occupied(q, r);
        if hit {
            assert(occ(q, r));
            return true;
        }
        assert(!occ(q, r));
        if q == hi {
            assert forall|x: i32| lo <= x <= hi implies !(#[trigger] occ(x, r)) by {
                if x < q {
                } else {
                    assert(x == q);
                }
            }
            return false;
        }
        q = q + 1;
    }
}

/// Whether any hex of column `q` with `r` in `lo..=hi` is occupied.
fn hex_any_in_col<G: Fn(i32, i32) -> bool>(
    occupied: &G,
    q: i32,
    lo: i32,
    hi: i32,
    Ghost(occ): Ghost<spec_fn(i32, i32) -> bool>,
) -> (b: bool)
    requires
        forall|q: i32, r: i32| occupied.requires((q, r)),
        answers_hex(*occupied, occ),
        lo <= hi,
    ensures
        b == hex_col_hit(occ, q, lo, hi),
{
    let mut r = lo;
    loop
        invariant
            forall|q: i32, r: i32| occupied.requires((q, r)),
            answers_hex(*occupied, occ),
            lo <= r <= hi,
            forall|y: i32| lo <= y < r ==> !(#[trigger] occ(q, y)),
        decreases hi - r,
    {
        let hit = occupied(q, r);
        if hit {
            assert(occ(q, r));
            return true;
        }
        assert(!occ(q, r));
        if r == hi {
            assert forall|y: i32| lo <= y <= hi implies !(#[trigger] occ(q, y)) by {
                if y < r {
                } else {
                    assert(y == r);
                }
            }
            return false;
        }
        r = r + 1;
    }
}

/// The amount an edge can still grow toward its bound.
pub open spec fn room(x: int) -> int {
    if x > 0 {
        x
    } else {
        0
    }
}

/// The current hex data region around `cursor`, where `occupied`
/// computes the spec predicate `occ` — see [`hex_current_region`], whose
/// result this is, stated over `occ`.
#[verifier::rlimit(80)]
pub fn hex_current_region_by<G: Fn(i32, i32) -> bool>(
    cursor: (i32, i32),
    radius: i32,
    occupied: G,
    Ghost(occ): Ghost<spec_fn(i32, i32) -> bool>,
) -> (r: ((i32, i32), (i32, i32)))
    requires
        forall|q: i32, r: i32| occupied.requires((q, r)),
        answers_hex(occupied, occ),
        radius > i32::MIN,
    ensures
        hex_box_holds(r, cursor),
        hex_region_closed(r, radius, occ),
        forall|b: ((i32, i32), (i32, i32))|
            hex_box_holds(b, cursor) && #[trigger] hex_region_closed(b, radius, occ) ==> hex_box_within(r, b),
{
    let (mut min_q, mut min_r) = cursor;
    let (mut max_q, mut max_r) = cursor;
    loop
        invariant
            forall|q: i32, r: i32| occupied.requires((q, r)),
            answers_hex(occupied, occ),
            radius > i32::MIN,
            min_q <= cursor.0 <= max_q,
            min_r <= cursor.1 <= max_r,
            min_r < cursor.1 ==> min_r >= -radius,
            min_q < cursor.0 ==> min_q >= -radius,
            max_r > cursor.1 ==> max_r <= radius,
            max_q > cursor.0 ==> max_q <= radius,
            forall|b: ((i32, i32), (i32, i32))|
                hex_box_holds(b, cursor) && #[trigger] hex_region_closed(b, radius, occ)
                    ==> hex_box_within(((min_q, min_r), (max_q, max_r)), b),
        decreases room(min_r + radius) + room(min_q + radius) + room(radius - max_r) + room(
            radius - max_q,
        ),
    {
        let mut grew = false;
        if min_r > -radius && hex_any_in_row(&occupied, min_q, max_q, min_r - 1, Ghost(occ)) {
            proof {
                assert forall|b: ((i32, i32), (i32, i32))|
                    hex_box_holds(b, cursor) && #[trigger] hex_region_closed(b, radius, occ)
                        implies hex_box_within(((min_q, (min_r - 1) as i32), (max_q, max_r)), b) by {
                    assert(hex_box_within(((min_q, min_r), (max_q, max_r)), b));
                    if (b.0).1 == min_r {
                        let w = choose|q: i32| min_q <= q <= max_q && #[trigger] occ(q, (min_r - 1) as i32);
                        assert(hex_row_hit(occ, (b.0).0, (b.1).0, ((b.0).1 - 1) as i32));
                    }
                }
            }
            min_r = min_r - 1;
            grew = true;
        }
        if max_r < radius && hex_any_in_row(&occupied, min_q, max_q, max_r + 1, Ghost(occ)) {
            proof {
                assert forall|b: ((i32, i32), (i32, i32))|
                    hex_box_holds(b, cursor) && #[trigger] hex_region_closed(b, radius, occ)
                        implies hex_box_within(((min_q, min_r), (max_q, (max_r + 1) as i32)), b) by {
                    assert(hex_box_within(((min_q, min_r), (max_q, max_r)), b));
                    if (b.1).1 == max_r {
                        let w = choose|q: i32| min_q <= q <= max_q && #[trigger] occ(q, (max_r + 1) as i32);
                        assert(hex_row_hit(occ, (b.0).0, (b.1).0, ((b.1).1 + 1) as i32));
                    }
                }
            }
            max_r = max_r + 1;
            grew = true;
        }
        if min_q > -radius && hex_any_in_col(&occupied, min_q - 1, min_r, max_r, Ghost(occ)) {
            proof {
                assert forall|b: ((i32, i32), (i32, i32))|
                    hex_box_holds(b, cursor) && #[trigger] hex_region_closed(b, radius, occ)
                        implies hex_box_within((((min_q - 1) as i32, min_r), (max_q, max_r)), b) by {
                    assert(hex_box_within(((min_q, min_r), (max_q, max_r)), b));
                    if (b.0).0 == min_q {
                        let w = choose|r: i32| min_r <= r <= max_r && #[trigger] occ((min_q - 1) as i32, r);
                        assert(hex_col_hit(occ, ((b.0).0 - 1) as i32, (b.0).1, (b.1).1));
                    }
                }
            }
            min_q = min_q - 1;
            grew = true;
        }
        if max_q < radius && hex_any_in_col(&occupied, max_q + 1, min_r, max_r, Ghost(occ)) {
            proof {
                assert forall|b: ((i32, i32), (i32, i32))|
                    hex_box_holds(b, cursor) && #[trigger] hex_region_closed(b, radius, occ)
                        implies hex_box_within(((min_q, min_r), ((max_q + 1) as i32, max_r)), b) by {
                    assert(hex_box_within(((min_q, min_r), (max_q, max_r)), b));
                    if (b.1).0 == max_q {
                        let w = choose|r: i32| min_r <= r <= max_r && #[trigger] occ((max_q + 1) as i32, r);
                        assert(hex_col_hit(occ, ((b.1).0 + 1) as i32, (b.0).1, (b.1).1));
                    }
                }
            }
            max_q = max_q + 1;
            grew = true;
        }
        if !grew {
            let res = ((min_q, min_r), (max_q, max_r));
            assert(hex_region_closed(res, radius, occ));
            return res;
        }
    }
}

/// The current hex data region around `cursor`, the axial analogue of
/// [`crate::grid::current_region`]: the `(q, r)` box grows outward to a
/// fixpoint while the row or column just past an edge holds an
/// `occupied` hex within the box's span, never past `±radius`.
///
/// The result is the smallest closed box holding the cursor: it holds the
/// cursor, cannot grow, and lies within every other such box.
pub fn hex_current_region<G: Fn(i32, i32) -> bool>(
    cursor: (i32, i32),
    radius: i32,
    occupied: G,
) -> (r: ((i32, i32), (i32, i32)))
    requires
        forall|q: i32, r: i32| occupied.requires((q, r)),
        deterministic_hex(occupied),
        radius > i32::MIN,
    ensures
        hex_box_holds(r, cursor),
        hex_region_closed(r, radius, accepted_hex(occupied)),
        forall|b: ((i32, i32), (i32, i32))|
            hex_box_holds(b, cursor) && #[trigger] hex_region_closed(b, radius, accepted_hex(occupied))
                ==> hex_box_within(r, b),
{
    proof {
        lemma_deterministic_answers_hex(occupied);
    }
    hex_current_region_by(cursor, radius, occupied, Ghost(accepted_hex(occupied)))
}

} // verus!
