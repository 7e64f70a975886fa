//! Sorting a workbook column: the order its values sort in, and the row
//! permutation that sorts a column while keeping equal rows in place.

use vstd::prelude::*;
use vstd::string::*;
use std::cmp::Ordering;
use crate::text::chars_of;

verus! {

/// What a column sort reads of a cell's value.
pub enum SortKey {
    /// A number, by its place in the IEEE 754 total order: the integer
    /// that `f64::total_cmp` compares for it, so that two numbers sort
    /// as these integers do.
    Number(i64),
    /// Text, compared character by character.
    Text(String),
    /// A boolean; `false` sorts before `true`.
    Bool(bool),
    /// A blank, an error or anything else; all of these sort alike.
    Other,
}

/// The coarse group of a key: numbers, then text, then booleans, then
/// everything else.
pub open spec fn rank(k: SortKey) -> int {
    match k {
        SortKey::Number(_) => 0,
        SortKey::Text(_) => 1,
        SortKey::Bool(_) => 2,
        SortKey::Other => 3,
    }
}

/// `-1`, `0` or `1` as `x` is below, equal to or above `y`.
pub open spec fn sign(x: int, y: int) -> int {
    if x < y {
        -1
    } else if x == y {
        0
    } else {
        1
    }
}

/// The lexicographic order of two character sequences, as `-1`, `0` or
/// `1`; a proper prefix comes first.
pub open spec fn lex(a: Seq<char>, b: Seq<char>) -> int
    decreases a.len(),
{
    if a.len() == 0 {
        if b.len() == 0 {
            0
        } else {
            -1
        }
    } else if b.len() == 0 {
        1
    } else if a[0] != b[0] {
        sign(a[0] as int, b[0] as int)
    } else {
        lex(a.drop_first(), b.drop_first())
    }
}

/// The order a column sort uses, as `-1`, `0` or `1`: by group first,
/// then numbers numerically, text lexically and `false` before `true`;
/// two keys of the last group are equal.
pub open spec fn key_order(a: SortKey, b: SortKey) -> int {
    if rank(a) != rank(b) {
        sign(rank(a), rank(b))
    } else {
        match (a, b) {
            (SortKey::Number(x), SortKey::Number(y)) => sign(x as int, y as int),
            (SortKey::Text(x), SortKey::Text(y)) => lex(x@, y@),
            (SortKey::Bool(x), SortKey::Bool(y)) => sign(
                if x {
                    1
                } else {
                    0
                },
                if y {
                    1
                } else {
                    0
                },
            ),
            _ => 0,
        }
    }
}

/// The number of an ordering, `-1`, `0` or `1`.
pub open spec fn ordering_sign(o: Ordering) -> int {
    match o {
        Ordering::Less => -1,
        Ordering::Equal => 0,
        Ordering::Greater => 1,
    }
}

proof fn lemma_lex_antisymmetric(a: Seq<char>, b: Seq<char>)
    ensures
        lex(a, b) == -lex(b, a),
        lex(a, b) == 0 <==> a == b,
        -1 <= lex(a, b) <= 1,
    decreases a.len(),
{
    if a.len() > 0 && b.len() > 0 && a[0] == b[0] {
        lemma_lex_antisymmetric(a.drop_first(), b.drop_first());
        if a.drop_first() == b.drop_first() {
            assert(a =~= seq![a[0]] + a.drop_first());
            assert(b =~= seq![b[0]] + b.drop_first());
        }
        if a == b {
            assert(a.drop_first() =~= b.drop_first());
        }
    }
    if a.len() == 0 && b.len() == 0 {
        assert(a =~= b);
    }
}

proof fn lemma_lex_transitive(a: Seq<char>, b: Seq<char>, c: Seq<char>)
    requires
        lex(a, b) < 0,
        lex(b, c) < 0,
    ensures
        lex(a, c) < 0,
    decreases a.len(),
{
    if a.len() > 0 && b.len() > 0 && c.len() > 0 && a[0] == b[0] && b[0] == c[0] {
        lemma_lex_transitive(a.drop_first(), b.drop_first(), c.drop_first());
    }
}

/// Swapping two keys turns their order around; the order is always `-1`,
/// `0` or `1`.
pub proof fn lemma_key_order_antisymmetric(a: SortKey, b: SortKey)
    ensures
        key_order(a, b) == -key_order(b, a),
        -1 <= key_order(a, b) <= 1,
{
    if rank(a) == rank(b) {
        match (a, b) {
            (SortKey::Text(x), SortKey::Text(y)) => {
                lemma_lex_antisymmetric(x@, y@);
            },
            _ => {},
        }
    }
}

/// Keys that sort alike sort alike against every other key.
pub proof fn lemma_key_order_equal_keys(a: SortKey, b: SortKey, c: SortKey)
    requires
        key_order(a, b) == 0,
    ensures
        key_order(a, c) == key_order(b, c),
        key_order(c, a) == key_order(c, b),
{
    match (a, b) {
        (SortKey::Text(x), SortKey::Text(y)) => {
            lemma_lex_antisymmetric(x@, y@);
        },
        _ => {},
    }
}

/// Sorting before is transitive.
pub proof fn lemma_key_order_transitive(a: SortKey, b: SortKey, c: SortKey)
    requires
        key_order(a, b) < 0,
        key_order(b, c) < 0,
    ensures
        key_order(a, c) < 0,
{
    match (a, b, c) {
        (SortKey::Text(x), SortKey::Text(y), SortKey::Text(z)) => {
            lemma_lex_transitive(x@, y@, z@);
        },
        _ => {},
    }
}

fn compare_chars(a: &Vec<char>, b: &Vec<char>) -> (r: i8)
    ensures
        r == lex(a@, b@),
{
    let n = a.len();
    let m = b.len();
    let mut i: usize = 0;
    assert(a@.skip(0) =~= a@);
    assert(b@.skip(0) =~= b@);
    proof {
        lemma_lex_antisymmetric(a@, b@);
    }
    while i < n && i < m
        invariant
            n == a@.len(),
            m == b@.len(),
            i <= n,
            i <= m,
            lex(a@, b@) == lex(a@.skip(i as int), b@.skip(i as int)),
        decreases n - i,
    {
        let x = a[i];
        let y = b[i];
        if x != y {
            if x < y {
                return -1;
            } else {
                return 1;
            }
        }
        assert(a@.skip(i as int).drop_first() =~= a@.skip(i as int + 1));
        assert(b@.skip(i as int).drop_first() =~= b@.skip(i as int + 1));
        i = i + 1;
    }
    if i < m {
        -1
    } else if i < n {
        1
    } else {
        0
    }
}

fn rank_of(k: &SortKey) -> (r: u8)
    ensures
        r == rank(*k),
{
    match k {
        SortKey::Number(_) => 0,
        SortKey::Text(_) => 1,
        SortKey::Bool(_) => 2,
        SortKey::Other => 3,
    }
}

/// The total order a column sort uses: numbers (numerically) before text
/// (lexically) before booleans (`false` before `true`) before everything
/// else. Keys of the last group compare equal, so a stable sort leaves
/// them where they were.
pub fn compare_values(a: &SortKey, b: &SortKey) -> (o: Ordering)
    ensures
        ordering_sign(o) == key_order(*a, *b),
{
    let ra = rank_of(a);
    let rb = rank_of(b);
    if ra < rb {
        return Ordering::Less;
    }
    if rb < ra {
        return Ordering::Greater;
    }
    match (a, b) {
        (SortKey::Number(x), SortKey::Number(y)) => {
            if *x < *y {
                Ordering::Less
            } else if *x == *y {
                Ordering::Equal
            } else {
                Ordering::Greater
            }
        },
        (SortKey::Text(x), SortKey::Text(y)) => {
            let cx = chars_of(x.as_str());
            let cy = chars_of(y.as_str());
            let r = compare_chars(&cx, &cy);
            proof {
                lemma_lex_antisymmetric(cx@, cy@);
            }
            if r < 0 {
                Ordering::Less
            } else if r == 0 {
                Ordering::Equal
            } else {
                Ordering::Greater
            }
        },
        (SortKey::Bool(x), SortKey::Bool(y)) => {
            if *x == *y {
                Ordering::Equal
            } else if *y {
                Ordering::Less
            } else {
                Ordering::Greater
            }
        },
        _ => Ordering::Equal,
    }
}

/// Key `a` goes strictly before key `b` in a sort of the given direction.
pub open spec fn goes_before(a: SortKey, b: SortKey, ascending: bool) -> bool {
    if ascending {
        key_order(a, b) < 0
    } else {
        key_order(a, b) > 0
    }
}

/// `order` lists each row of `0..n` exactly once.
pub open spec fn is_row_permutation(order: Seq<usize>, n: int) -> bool {
    &&& order.len() == n
    &&& order.no_duplicates()
    &&& forall|i: int| 0 <= i < order.len() ==> #[trigger] order[i] < n
}

/// Reading `keys` through `order`, no row is followed by one that goes
/// before it.
pub open spec fn sorts_rows(keys: Seq<SortKey>, order: Seq<usize>, ascending: bool) -> bool {
    forall|u: int, v: int|
        0 <= u < v < order.len() ==> !goes_before(
            keys[#[trigger] order[v] as int],
            keys[#[trigger] order[u] as int],
            ascending,
        )
}

/// Rows whose keys compare equal keep their original relative order.
pub open spec fn keeps_ties(keys: Seq<SortKey>, order: Seq<usize>) -> bool {
    forall|u: int, v: int|
        0 <= u < v < order.len() && key_order(keys[#[trigger] order[u] as int], keys[#[trigger] order[v] as int])
            == 0 ==> order[u] < order[v]
}

fn goes_before_exec(a: &SortKey, b: &SortKey, ascending: bool) -> (r: bool)
    ensures
        r == goes_before(*a, *b, ascending),
{
    match compare_values(a, b) {
        Ordering::Less => ascending,
        Ordering::Greater => !ascending,
        Ordering::Equal => false,
    }
}

proof fn lemma_goes_before_facts(a: SortKey, b: SortKey, c: SortKey, ascending: bool)
    ensures
        !goes_before(a, a, ascending),
        goes_before(a, b, ascending) && goes_before(b, c, ascending) ==> goes_before(a, c, ascending),
        key_order(a, b) == 0 ==> (goes_before(a, c, ascending) == goes_before(b, c, ascending)),
        key_order(a, b) == 0 ==> (goes_before(c, a, ascending) == goes_before(c, b, ascending)),
{
    lemma_key_order_antisymmetric(a, a);
    lemma_key_order_antisymmetric(a, b);
    lemma_key_order_antisymmetric(b, c);
    lemma_key_order_antisymmetric(a, c);
    if goes_before(a, b, ascending) && goes_before(b, c, ascending) {
        if ascending {
            lemma_key_order_transitive(a, b, c);
        } else {
            lemma_key_order_transitive(c, b, a);
        }
    }
    if key_order(a, b) == 0 {
        lemma_key_order_equal_keys(a, b, c);
    }
}

proof fn lemma_insert_row(keys: Seq<SortKey>, s: Seq<usize>, p: int, i: usize, ascending: bool)
    requires
        sorts_rows(keys, s, ascending),
        keeps_ties(keys, s),
        0 <= p <= s.len(),
        i < keys.len(),
        forall|q: int| 0 <= q < s.len() ==> #[trigger] s[q] < i,
        forall|q: int| 0 <= q < p ==> !goes_before(keys[i as int], keys[#[trigger] s[q] as int], ascending),
        p < s.len() ==> goes_before(keys[i as int], keys[s[p] as int], ascending),
    ensures
        sorts_rows(keys, s.insert(p, i), ascending),
        keeps_ties(keys, s.insert(p, i)),
{
    let t = s.insert(p, i);
    s.insert_ensures(p, i);
    let ki = keys[i as int];
    assert forall|u: int, v: int| 0 <= u < v < t.len() implies !goes_before(
        keys[#[trigger] t[v] as int],
        keys[#[trigger] t[u] as int],
        ascending,
    ) && (key_order(keys[t[u] as int], keys[t[v] as int]) == 0 ==> t[u] < t[v]) by {
        if u == p {
            // The new row against a later one.
            let w = v - 1;
            assert(t[v] == s[w]);
            let kw = keys[s[w] as int];
            let kp = keys[s[p] as int];
            lemma_goes_before_facts(kw, ki, kp, ascending);
            lemma_goes_before_facts(ki, kw, kp, ascending);
            lemma_goes_before_facts(kp, kw, ki, ascending);
            if w > p {
                assert(!goes_before(keys[s[w] as int], keys[s[p] as int], ascending));
            }
        } else if v == p {
            assert(t[u] == s[u]);
        } else {
            let su = if u < p { u } else { u - 1 };
            let sv = if v < p { v } else { v - 1 };
            assert(t[u] == s[su]);
            assert(t[v] == s[sv]);
            assert(su < sv);
        }
    }
}

/// The row order that sorts `keys`: entry `i` of the result is the
/// index, in `keys`, of the row that belongs at sorted position `i`, so
/// that moving a table's other columns through it moves whole rows. The
/// sort is stable: rows whose keys compare equal keep their original
/// relative order, in either direction.
pub fn row_order(keys: &[SortKey], ascending: bool) -> (order: Vec<usize>)
    ensures
        is_row_permutation(order@, keys@.len() as int),
        sorts_rows(keys@, order@, ascending),
        keeps_ties(keys@, order@),
{
    let n = keys.len();
    let mut order: Vec<usize> = Vec::new();
    let mut i: usize = 0;
    while i < n
        invariant
            n == keys@.len(),
            i <= n,
            order@.len() == i,
            order@.no_duplicates(),
            forall|q: int| 0 <= q < order@.len() ==> #[trigger] order@[q] < i,
            sorts_rows(keys@, order@, ascending),
            keeps_ties(keys@, order@),
        decreases n - i,
    {
        let mut p: usize = 0;
        while p < order.len() && !goes_before_exec(&keys[i], &keys[order[p]], ascending)
            invariant
                n == keys@.len(),
                i < n,
                p <= order@.len(),
                forall|q: int| 0 <= q < order@.len() ==> #[trigger] order@[q] < i,
                forall|q: int|
                    0 <= q < p ==> !goes_before(
                        keys@[i as int],
                        keys@[#[trigger] order@[q] as int],
                        ascending,
                    ),
            decreases order@.len() - p,
        {
            p = p + 1;
        }
        proof {
            lemma_insert_row(keys@, order@, p as int, i, ascending);
            order@.insert_ensures(p as int, i);
        }
        let ghost old_order = order@;
        order.insert(p, i);
        assert(order@.no_duplicates()) by {
            assert forall|a: int, b: int| 0 <= a < b < order@.len() implies order@[a]
                != order@[b] by {
                if a == p as int {
                    assert(old_order[b - 1] < i);
                } else if b == p as int {
                    assert(old_order[a] < i);
                } else {
                    let sa = if a < p { a } else { a - 1 };
                    let sb = if b < p { b } else { b - 1 };
                    assert(order@[a] == old_order[sa]);
                    assert(order@[b] == old_order[sb]);
                }
            }
        }
        assert forall|q: int| 0 <= q < order@.len() implies #[trigger] order@[q] < i + 1 by {
            if q < p {
                assert(order@[q] == old_order[q]);
            } else if q > p {
                assert(order@[q] == old_order[q - 1]);
            }
        }
        i = i + 1;
    }
    order
}

/// What a sort writes down one column of the block: position `i` gets
/// the source of row `order[i]`, and an empty source clears the cell
/// (`None`), so that every column moves through the same row order.
pub fn sorted_sources(sources: &Vec<String>, order: &Vec<usize>) -> (column: Vec<Option<String>>)
    requires
        forall|i: int| 0 <= i < order@.len() ==> #[trigger] order@[i] < sources@.len(),
    ensures
        column@.len() == order@.len(),
        forall|i: int|
            0 <= i < order@.len() ==> #[trigger] column@[i] == if sources@[order@[i] as int]@.len()
                == 0 {
                None
            } else {
                Some(sources@[order@[i] as int])
            },
{
    let mut column: Vec<Option<String>> = Vec::new();
    let mut i: usize = 0;
    while i < order.len()
        invariant
            i <= order@.len(),
            column@.len() == i,
            forall|q: int| 0 <= q < order@.len() ==> #[trigger] order@[q] < sources@.len(),
            forall|q: int|
                0 <= q < i ==> #[trigger] column@[q] == if sources@[order@[q] as int]@.len() == 0 {
                    None
                } else {
                    Some(sources@[order@[q] as int])
                },
        decreases order@.len() - i,
    {
        let source = &sources[order[i]];
        if source.unicode_len() == 0 {
            column.push(None);
        } else {
            column.push(Some(source.clone()));
        }
        i = i + 1;
    }
    column
}

/// The sort order is a total order: swapping two keys turns the answer
/// around, keys that compare equal compare alike against any third key,
/// and going before is transitive.
pub proof fn lemma_compare_values_total(a: SortKey, b: SortKey, c: SortKey)
    ensures
        key_order(a, b) == -key_order(b, a),
        key_order(a, a) == 0,
        key_order(a, b) == 0 ==> key_order(a, c) == key_order(b, c),
        key_order(a, b) < 0 && key_order(b, c) < 0 ==> key_order(a, c) < 0,
{
    lemma_key_order_antisymmetric(a, b);
    lemma_key_order_antisymmetric(a, a);
    if key_order(a, b) == 0 {
        lemma_key_order_equal_keys(a, b, c);
    }
    if key_order(a, b) < 0 && key_order(b, c) < 0 {
        lemma_key_order_transitive(a, b, c);
    }
}

} // verus!
