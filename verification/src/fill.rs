//! The fill handle: which way a drag fills, the lanes of seed cells it
//! extends, and what it writes into the cells past each lane. A seed of
//! numbers (blanks allowed) continues as an arithmetic progression; any
//! other seed repeats as a pattern.

use vstd::prelude::*;

verus! {

/// What a seed cell of a fill lane holds.
#[derive(Debug, Clone, Copy, PartialEq, Eq)]
pub enum SeedCell {
    /// An empty cell.
    Empty,
    /// A cell whose source reads as a number.
    Number,
    /// A cell holding anything else: text, a formula, ….
    Other,
}

/// What the fill writes into one cell past the seed.
#[derive(Debug, Clone, Copy, PartialEq, Eq)]
pub enum FillSlot {
    /// Nothing: the cell stays empty.
    Empty,
    /// A copy of the seed cell at this index.
    Repeat(usize),
    /// The `k`-th number of the progression past the last seed number:
    /// the last seed number plus `k` steps.
    Step(usize),
}

/// How many of the first `n` cells of the repeated seed hold numbers.
pub open spec fn numbers_before(seed: Seq<SeedCell>, n: int) -> nat
    decreases n,
{
    if n <= 0 {
        0
    } else {
        numbers_before(seed, n - 1) + if seed[(n - 1) % seed.len() as int] is Number {
            1nat
        } else {
            0nat
        }
    }
}

/// The seed continues as a progression: it holds nothing but numbers
/// and blanks, and at least two numbers.
pub open spec fn is_series(seed: Seq<SeedCell>) -> bool {
    &&& forall|j: int| 0 <= j < seed.len() ==> !(#[trigger] seed[j] is Other)
    &&& numbers_before(seed, seed.len() as int) >= 2
}

/// What the fill writes into cell `i` past a non-empty seed.
pub open spec fn slot_for(seed: Seq<SeedCell>, i: int) -> FillSlot {
    let pos = i % seed.len() as int;
    if is_series(seed) {
        if seed[pos] is Number {
            FillSlot::Step(numbers_before(seed, i + 1) as usize)
        } else {
            FillSlot::Empty
        }
    } else {
        FillSlot::Repeat(pos as usize)
    }
}

proof fn lemma_numbers_before_bounded(seed: Seq<SeedCell>, n: int)
    requires
        n >= 0,
    ensures
        numbers_before(seed, n) <= n,
    decreases n,
{
    if n > 0 {
        lemma_numbers_before_bounded(seed, n - 1);
    }
}

proof fn lemma_numbers_before_shift(seed: Seq<SeedCell>, n: int)
    requires
        seed.len() > 0,
        n >= 0,
    ensures
        numbers_before(seed, n + seed.len()) == numbers_before(seed, n) + numbers_before(
            seed,
            seed.len() as int,
        ),
    decreases n,
{
    if n > 0 {
        lemma_numbers_before_shift(seed, n - 1);
        vstd::arithmetic::div_mod::lemma_mod_add_multiples_vanish(n - 1, seed.len() as int);
        assert((n - 1 + seed.len()) % (seed.len() as int) == (n - 1) % (seed.len() as int));
    }
}

proof fn lemma_numbers_before_grows(seed: Seq<SeedCell>, a: int, b: int)
    requires
        0 <= a <= b,
    ensures
        numbers_before(seed, a) <= numbers_before(seed, b),
    decreases b - a,
{
    if a < b {
        lemma_numbers_before_grows(seed, a, b - 1);
    }
}

/// The fill repeats the seed's pattern lane by lane: a seed that repeats
/// gives cell `i + seed.len()` what it gives cell `i`, a copy of the same
/// seed cell; a progression leaves the same cells blank one seed-length
/// later, and every numeric cell there is as many steps further on as
/// the seed has numbers.
pub proof fn lemma_fill_repeats_the_seed(seed: Seq<SeedCell>, i: int)
    requires
        seed.len() > 0,
        i >= 0,
    ensures
        !is_series(seed) ==> slot_for(seed, i + seed.len()) == slot_for(seed, i),
        !is_series(seed) ==> slot_for(seed, i) == FillSlot::Repeat((i % seed.len() as int) as usize),
        is_series(seed) ==> (slot_for(seed, i + seed.len()) is Empty <==> slot_for(seed, i) is Empty),
        is_series(seed) && slot_for(seed, i) is Step ==> slot_for(seed, i + seed.len()) == FillSlot::Step(
            (numbers_before(seed, i + 1) + numbers_before(seed, seed.len() as int)) as usize,
        ),
{
    let n = seed.len() as int;
    vstd::arithmetic::div_mod::lemma_mod_add_multiples_vanish(i, n);
    lemma_numbers_before_shift(seed, i + 1);
    assert(i + 1 + n == i + n + 1);
}

/// In a progression, the numeric cells of the fill take the steps past
/// the seed's last number in order: each later numeric cell is further
/// on than each earlier one, and the first numeric cell is one step on.
pub proof fn lemma_fill_steps_count_up(seed: Seq<SeedCell>, i: int, j: int)
    requires
        seed.len() > 0,
        is_series(seed),
        0 <= i < j,
        slot_for(seed, i) is Step,
        slot_for(seed, j) is Step,
        numbers_before(seed, j + 1) <= usize::MAX,
    ensures
        slot_for(seed, i)->Step_0 < slot_for(seed, j)->Step_0,
        (forall|k: int| 0 <= k < i ==> !(#[trigger] slot_for(seed, k) is Step)) ==> slot_for(seed, i)->Step_0
            == 1,
{
    let n = seed.len() as int;
    lemma_numbers_before_grows(seed, i + 1, j);
    lemma_numbers_before_grows(seed, i + 1, j + 1);
    assert(numbers_before(seed, j + 1) == numbers_before(seed, j) + 1);
    if forall|k: int| 0 <= k < i ==> !(#[trigger] slot_for(seed, k) is Step) {
        assert(numbers_before(seed, i) == 0) by {
            lemma_no_numbers_before(seed, i);
        }
    }
}

proof fn lemma_no_numbers_before(seed: Seq<SeedCell>, i: int)
    requires
        seed.len() > 0,
        is_series(seed),
        0 <= i,
        forall|k: int| 0 <= k < i ==> !(#[trigger] slot_for(seed, k) is Step),
    ensures
        numbers_before(seed, i) == 0,
    decreases i,
{
    if i > 0 {
        assert(!(slot_for(seed, i - 1) is Step));
        lemma_no_numbers_before(seed, i - 1);
    }
}

/// Whether every seed cell is a number or blank, and how many numbers
/// there are.
fn survey(seed: &[SeedCell]) -> (r: (bool, usize))
    requires
        seed@.len() > 0,
    ensures
        r.0 == (forall|j: int| 0 <= j < seed@.len() ==> !(#[trigger] seed@[j] is Other)),
        r.1 == numbers_before(seed@, seed@.len() as int),
{
    let n = seed.len();
    let mut clean = true;
    let mut numbers: usize = 0;
    let mut i: usize = 0;
    while i < n
        invariant
            n == seed@.len(),
            i <= n,
            clean == (forall|j: int| 0 <= j < i ==> !(#[trigger] seed@[j] is Other)),
            numbers == numbers_before(seed@, i as int),
        decreases n - i,
    {
        proof {
            lemma_numbers_before_bounded(seed@, i as int);
            assert((i as int) % (n as int) == i as int) by (nonlinear_arith)
                requires
                    0 <= i < n,
            ;
        }
        match seed[i] {
            SeedCell::Number => {
                numbers = numbers + 1;
            },
            SeedCell::Other => {
                clean = false;
            },
            SeedCell::Empty => {},
        }
        i = i + 1;
    }
    (clean, numbers)
}

/// The plan for extending a fill lane by `count` cells past `seed`.
/// An empty seed, or no cells to fill, leaves every cell empty. A seed
/// of numbers and blanks with at least two numbers continues the
/// progression: cell `i` is blank where the repeated seed is blank, and
/// otherwise the next number in turn. Any other seed repeats: cell `i`
/// copies seed cell `i % seed.len()`.
pub fn fill_plan(seed: &[SeedCell], count: usize) -> (plan: Vec<FillSlot>)
    ensures
        plan@.len() == count,
        forall|i: int|
            0 <= i < count ==> #[trigger] plan@[i] == if seed@.len() == 0 {
                FillSlot::Empty
            } else {
                slot_for(seed@, i)
            },
{
    let mut plan: Vec<FillSlot> = Vec::new();
    let n = seed.len();
    if n == 0 {
        let mut i: usize = 0;
        while i < count
            invariant
                i <= count,
                plan@.len() == i,
                forall|j: int| 0 <= j < i ==> #[trigger] plan@[j] == FillSlot::Empty,
            decreases count - i,
        {
            plan.push(FillSlot::Empty);
            i = i + 1;
        }
        return plan;
    }
    let (clean, numbers) = survey(seed);
    let series = clean && numbers >= 2;
    let mut produced: usize = 0;
    let mut i: usize = 0;
    while i < count
        invariant
            n == seed@.len(),
            n > 0,
            i <= count,
            series == is_series(seed@),
            produced == numbers_before(seed@, i as int),
            plan@.len() == i,
            forall|j: int| 0 <= j < i ==> #[trigger] plan@[j] == slot_for(seed@, j),
        decreases count - i,
    {
        let pos = i % n;
        proof {
            lemma_numbers_before_bounded(seed@, i as int + 1);
        }
        if series {
            match seed[pos] {
                SeedCell::Number => {
                    produced = produced + 1;
                    plan.push(FillSlot::Step(produced));
                },
                _ => {
                    plan.push(FillSlot::Empty);
                },
            }
        } else {
            if let SeedCell::Number = seed[pos] {
                produced = produced + 1;
            }
            plan.push(FillSlot::Repeat(pos));
        }
        i = i + 1;
    }
    plan
}

/// The direction a fill-handle drag extends the selection.
#[derive(Debug, Clone, Copy, PartialEq, Eq)]
pub enum FillAxis {
    Down,
    Right,
}

/// A fill-handle drag in progress: the selection's bounds when it began,
/// and the axis it is locked to, once the pointer has left those bounds.
#[derive(Debug, Clone, Copy, PartialEq, Eq)]
pub struct FillDrag {
    pub original: ((u32, u32), (u32, u32)),
    pub axis: Option<FillAxis>,
}

/// The axis a drag is locked to once the pointer is over `cell`: a locked
/// axis stays; otherwise the first move past the original block's bottom
/// edge locks it down, past its right edge right, and past both the way
/// the pointer has travelled farther (down on a tie).
pub open spec fn locked_axis(drag: FillDrag, cell: (u32, u32)) -> Option<FillAxis> {
    let ((_, _), (c1, r1)) = drag.original;
    if drag.axis is Some {
        drag.axis
    } else if cell.1 > r1 && cell.0 <= c1 {
        Some(FillAxis::Down)
    } else if cell.0 > c1 && cell.1 <= r1 {
        Some(FillAxis::Right)
    } else if cell.1 > r1 && cell.0 > c1 {
        if cell.1 - r1 >= cell.0 - c1 {
            Some(FillAxis::Down)
        } else {
            Some(FillAxis::Right)
        }
    } else {
        None
    }
}

/// `x` held within `lo..=hi`.
pub open spec fn clamped(x: u32, lo: u32, hi: u32) -> u32 {
    if x < lo {
        lo
    } else if x > hi {
        hi
    } else {
        x
    }
}

/// Where the selection's cursor goes for a pointer over `cell`: along a
/// locked axis it follows the pointer on that axis (never above or left
/// of the block) and stays within the block on the other; unlocked, it
/// stays within the block.
pub open spec fn drag_cursor(
    original: ((u32, u32), (u32, u32)),
    axis: Option<FillAxis>,
    cell: (u32, u32),
) -> (u32, u32) {
    let ((c0, r0), (c1, r1)) = original;
    match axis {
        Some(FillAxis::Down) => (clamped(cell.0, c0, c1), if cell.1 > r0 {
            cell.1
        } else {
            r0
        }),
        Some(FillAxis::Right) => (if cell.0 > c0 {
            cell.0
        } else {
            c0
        }, clamped(cell.1, r0, r1)),
        None => (clamped(cell.0, c0, c1), clamped(cell.1, r0, r1)),
    }
}

fn clamp_u32(x: u32, lo: u32, hi: u32) -> (r: u32)
    requires
        lo <= hi,
    ensures
        r == clamped(x, lo, hi),
{
    if x < lo {
        lo
    } else if x > hi {
        hi
    } else {
        x
    }
}

/// One move of a fill-handle drag with the pointer over `cell`: the drag
/// with its axis locked as [`locked_axis`] says, and the cell the
/// selection's cursor extends to, as [`drag_cursor`] says.
pub fn fill_drag_step(drag: FillDrag, cell: (u32, u32)) -> (r: (FillDrag, (u32, u32)))
    requires
        drag.original.0.0 <= drag.original.1.0,
        drag.original.0.1 <= drag.original.1.1,
    ensures
        r.0 == (FillDrag { original: drag.original, axis: locked_axis(drag, cell) }),
        r.1 == drag_cursor(drag.original, r.0.axis, cell),
{
    let ((c0, r0), (c1, r1)) = drag.original;
    let axis = match drag.axis {
        Some(a) => Some(a),
        None => {
            let below = cell.1 > r1;
            let right = cell.0 > c1;
            if below && !right {
                Some(FillAxis::Down)
            } else if right && !below {
                Some(FillAxis::Right)
            } else if below && right {
                if cell.1 - r1 >= cell.0 - c1 {
                    Some(FillAxis::Down)
                } else {
                    Some(FillAxis::Right)
                }
            } else {
                None
            }
        },
    };
    let cursor = match axis {
        Some(FillAxis::Down) => (clamp_u32(cell.0, c0, c1), if cell.1 > r0 {
            cell.1
        } else {
            r0
        }),
        Some(FillAxis::Right) => (if cell.0 > c0 {
            cell.0
        } else {
            c0
        }, clamp_u32(cell.1, r0, r1)),
        None => (clamp_u32(cell.0, c0, c1), clamp_u32(cell.1, r0, r1)),
    };
    (FillDrag { original: drag.original, axis }, cursor)
}

/// How a fill-handle drag locks and where its cursor goes, for an
/// unlocked drag of the block `(c0, r0)..=(c1, r1)` with the pointer over
/// `cell`: straight below the block it locks down and the cursor takes
/// the pointer's row; straight right of it, it locks right and the cursor
/// takes the pointer's column; below and right, it locks along the
/// farther overshoot (down on a tie); still over the block's rows and
/// columns, it stays unlocked and the cursor is the pointer's cell held
/// within the block. A locked drag keeps its axis.
pub proof fn lemma_fill_drag_locks(drag: FillDrag, cell: (u32, u32))
    requires
        drag.original.0.0 <= drag.original.1.0,
        drag.original.0.1 <= drag.original.1.1,
    ensures
        ({
            let ((c0, r0), (c1, r1)) = drag.original;
            let axis = locked_axis(drag, cell);
            let cursor = drag_cursor(drag.original, axis, cell);
            &&& drag.axis is Some ==> axis == drag.axis
            &&& (drag.axis is None && cell.0 > c1 && cell.1 <= r1) ==> axis == Some(FillAxis::Right)
                && cursor.0 == cell.0 && cursor.1 == (if cell.1 < r0 {
                r0
            } else {
                cell.1
            })
            &&& (drag.axis is None && cell.1 > r1 && cell.0 <= c1) ==> axis == Some(FillAxis::Down)
                && cursor.1 == cell.1 && cursor.0 == (if cell.0 < c0 {
                c0
            } else {
                cell.0
            })
            &&& (drag.axis is None && cell.0 > c1 && cell.1 > r1) ==> axis == (if cell.1 - r1
                >= cell.0 - c1 {
                Some(FillAxis::Down)
            } else {
                Some(FillAxis::Right)
            })
            &&& (drag.axis is None && cell.0 <= c1 && cell.1 <= r1) ==> axis is None && c0
                <= cursor.0 <= c1 && r0 <= cursor.1 <= r1 && (c0 <= cell.0 ==> cursor.0 == cell.0)
                && (r0 <= cell.1 ==> cursor.1 == cell.1)
        }),
{
}

/// Which way a drag from the block `original` to the block `extended`
/// (each its min and max `(col, row)` corners) fills: down when it grew
/// rows, else right when it grew columns, else not at all.
pub fn fill_axis(
    original: ((u32, u32), (u32, u32)),
    extended: ((u32, u32), (u32, u32)),
) -> (axis: Option<FillAxis>)
    ensures
        axis == if extended.1.1 > original.1.1 {
            Some(FillAxis::Down)
        } else if extended.1.0 > original.1.0 {
            Some(FillAxis::Right)
        } else {
            None::<FillAxis>
        },
{
    if extended.1.1 > original.1.1 {
        Some(FillAxis::Down)
    } else if extended.1.0 > original.1.0 {
        Some(FillAxis::Right)
    } else {
        None
    }
}

/// Lane `k` of a fill from the block `original` along `axis`, `count`
/// cells past it: its seed cells, in order, and the cells to fill. Going
/// down, a lane is a column of the block; going right, a row.
pub open spec fn fill_lane_cells(
    original: ((u32, u32), (u32, u32)),
    axis: FillAxis,
    count: u32,
    k: int,
) -> (Seq<(u32, u32)>, Seq<(u32, u32)>) {
    let ((c0, r0), (c1, r1)) = original;
    match axis {
        FillAxis::Down => (
            Seq::new((r1 - r0 + 1) as nat, |i: int| ((c0 + k) as u32, (r0 + i) as u32)),
            Seq::new(count as nat, |i: int| ((c0 + k) as u32, (r1 + 1 + i) as u32)),
        ),
        FillAxis::Right => (
            Seq::new((c1 - c0 + 1) as nat, |i: int| ((c0 + i) as u32, (r0 + k) as u32)),
            Seq::new(count as nat, |i: int| ((c1 + 1 + i) as u32, (r0 + k) as u32)),
        ),
    }
}

fn run_of_cells(fixed: u32, from: u64, len: u64, down: bool) -> (v: Vec<(u32, u32)>)
    requires
        from + len <= u32::MAX + 1,
    ensures
        v@ == Seq::new(
            len as nat,
            |i: int|
                if down {
                    (fixed, (from + i) as u32)
                } else {
                    ((from + i) as u32, fixed)
                },
        ),
{
    let mut v: Vec<(u32, u32)> = Vec::new();
    let mut i: u64 = 0;
    while i < len
        invariant
            from + len <= u32::MAX + 1,
            i <= len,
            v@ == Seq::new(
                i as nat,
                |j: int|
                    if down {
                        (fixed, (from + j) as u32)
                    } else {
                        ((from + j) as u32, fixed)
                    },
            ),
        decreases len - i,
    {
        let at = (from + i) as u32;
        if down {
            v.push((fixed, at));
        } else {
            v.push((at, fixed));
        }
        i = i + 1;
        assert(v@ =~= Seq::new(
            i as nat,
            |j: int|
                if down {
                    (fixed, (from + j) as u32)
                } else {
                    ((from + j) as u32, fixed)
                },
        ));
    }
    v
}

/// The lanes of a fill-handle drag from the block `original` along
/// `axis`, `count` cells past it — each lane's seed cells and the cells
/// to fill, lanes left to right (down) or top to bottom (right).
pub fn fill_lanes(
    original: ((u32, u32), (u32, u32)),
    axis: FillAxis,
    count: u32,
) -> (lanes: Vec<(Vec<(u32, u32)>, Vec<(u32, u32)>)>)
    requires
        original.0.0 <= original.1.0,
        original.0.1 <= original.1.1,
        original.1.0 + 1 + count <= u32::MAX + 1,
        original.1.1 + 1 + count <= u32::MAX + 1,
    ensures
        lanes@.len() == match axis {
            FillAxis::Down => original.1.0 - original.0.0 + 1,
            FillAxis::Right => original.1.1 - original.0.1 + 1,
        },
        forall|k: int|
            0 <= k < lanes@.len() ==> ((#[trigger] lanes@[k]).0@, lanes@[k].1@) == fill_lane_cells(
                original,
                axis,
                count,
                k,
            ),
{
    let ((c0, r0), (c1, r1)) = original;
    let down = match axis {
        FillAxis::Down => true,
        FillAxis::Right => false,
    };
    let lanes_n: u64 = if down {
        (c1 - c0) as u64 + 1
    } else {
        (r1 - r0) as u64 + 1
    };
    let mut lanes: Vec<(Vec<(u32, u32)>, Vec<(u32, u32)>)> = Vec::new();
    let mut k: u64 = 0;
    while k < lanes_n
        invariant
            original == ((c0, r0), (c1, r1)),
            c0 <= c1,
            r0 <= r1,
            c1 + 1 + count <= u32::MAX + 1,
            r1 + 1 + count <= u32::MAX + 1,
            down == (axis is Down),
            lanes_n == if down {
                c1 - c0 + 1
            } else {
                r1 - r0 + 1
            },
            k <= lanes_n,
            lanes@.len() == k,
            forall|j: int|
                0 <= j < k ==> ((#[trigger] lanes@[j]).0@, lanes@[j].1@) == fill_lane_cells(
                    original,
                    axis,
                    count,
                    j,
                ),
        decreases lanes_n - k,
    {
        let lane = if down {
            let col = (c0 as u64 + k) as u32;
            (
                run_of_cells(col, r0 as u64, (r1 - r0) as u64 + 1, true),
                run_of_cells(col, r1 as u64 + 1, count as u64, true),
            )
        } else {
            let row = (r0 as u64 + k) as u32;
            (
                run_of_cells(row, c0 as u64, (c1 - c0) as u64 + 1, false),
                run_of_cells(row, c1 as u64 + 1, count as u64, false),
            )
        };
        proof {
            let want = fill_lane_cells(original, axis, count, k as int);
            assert(lane.0@ =~= want.0);
            assert(lane.1@ =~= want.1);
        }
        lanes.push(lane);
        k = k + 1;
    }
    lanes
}

} // verus!
