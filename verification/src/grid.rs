//! Grid logic of the square sheet — A1 addressing (column letters in
//! bijective base 26, rows counted from one), the Ctrl+arrow block jump,
//! AutoSum placement, paging and the current data region.

use vstd::prelude::*;
use vstd::string::*;
use crate::text::{
    is_blank, is_ws, lemma_trim_padded,
    digit_char, trim_end, trim_start, char_is_alpha, char_is_digit, dec, is_alpha, is_digit, push_char, push_decimal, trim,
    trimmed_chars,
};

verus! {

/// The capital letter for `d` in `0..26`: `A` for 0.
pub open spec fn letter(d: int) -> char {
    (d + 65) as char
}

/// The bijective base-26 label of a zero-indexed column: `A`..`Z`,
/// then `AA`, `AB`, ….
pub open spec fn col_label(c: nat) -> Seq<char>
    decreases c,
{
    if c < 26 {
        seq![letter(c as int)]
    } else {
        col_label((c / 26 - 1) as nat).push(letter((c % 26) as int))
    }
}

/// The A1 address of a zero-indexed cell.
pub open spec fn address_of(col: nat, row: nat) -> Seq<char> {
    col_label(col) + dec(row + 1)
}

/// The 1-based value of a letter, either case: `A` and `a` are 1.
pub open spec fn letter_value(c: char) -> int {
    if 'a' <= c <= 'z' {
        c as int - 96
    } else {
        c as int - 64
    }
}

/// The bijective base-26 value of a run of letters: `A` is 1, `Z` 26,
/// `AA` 27.
pub open spec fn letters_value(s: Seq<char>) -> int
    decreases s.len(),
{
    if s.len() == 0 {
        0
    } else {
        letters_value(s.drop_last()) * 26 + letter_value(s.last())
    }
}

/// The value of a run of decimal digits.
pub open spec fn digits_value(s: Seq<char>) -> int
    decreases s.len(),
{
    if s.len() == 0 {
        0
    } else {
        digits_value(s.drop_last()) * 10 + (s.last() as int - 48)
    }
}

pub open spec fn all_alpha(s: Seq<char>) -> bool {
    forall|i: int| 0 <= i < s.len() ==> is_alpha(#[trigger] s[i])
}

pub open spec fn all_digits(s: Seq<char>) -> bool {
    forall|i: int| 0 <= i < s.len() ==> is_digit(#[trigger] s[i])
}

/// `t` is letters up to `k` and digits from `k` on, both runs non-empty.
pub open spec fn splits_at(t: Seq<char>, k: int) -> bool {
    &&& 0 < k < t.len()
    &&& all_alpha(t.take(k))
    &&& all_digits(t.skip(k))
}

/// What an address text denotes: after trimming surrounding whitespace,
/// a run of letters then a run of digits, naming a column whose letter
/// value and a row whose number fit in a `u32`, the row at least 1. The
/// result is zero-indexed.
pub open spec fn parsed_address(text: Seq<char>) -> Option<(u32, u32)> {
    let t = trim(text);
    if exists|k: int| splits_at(t, k) {
        let k = choose|k: int| splits_at(t, k);
        let col1 = letters_value(t.take(k));
        let row1 = digits_value(t.skip(k));
        if col1 <= u32::MAX && 1 <= row1 <= u32::MAX {
            Some(((col1 - 1) as u32, (row1 - 1) as u32))
        } else {
            None
        }
    } else {
        None
    }
}

/// The A1-style label of a zero-indexed column: `0 -> "A"`, `25 -> "Z"`,
/// `26 -> "AA"`.
pub fn column_label(col: u32) -> (s: String)
    ensures
        s@ == col_label(col as nat),
    decreases col,
{
    if col < 26 {
        let mut s = String::new();
        let d: u8 = col as u8;
        push_char(&mut s, (65u8 + d) as char);
        assert(s@ =~= col_label(col as nat));
        s
    } else {
        let mut s = column_label(col / 26 - 1);
        let d: u8 = (col % 26) as u8;
        push_char(&mut s, (65u8 + d) as char);
        s
    }
}

/// The A1 address of a zero-indexed cell: `(0, 0) -> "A1"`.
pub fn cell_address(col: u32, row: u32) -> (s: String)
    requires
        row < u32::MAX,
    ensures
        s@ == address_of(col as nat, row as nat),
{
    let mut s = column_label(col);
    push_decimal(&mut s, row as u64 + 1);
    s
}

proof fn lemma_letters_value_mono(s: Seq<char>, j: int)
    requires
        0 <= j <= s.len(),
        all_alpha(s),
    ensures
        0 <= letters_value(s.take(j)) <= letters_value(s),
        s.len() > 0 ==> letters_value(s) >= 1,
    decreases s.len(),
{
    if s.len() == 0 {
        assert(s.take(j) =~= s);
    } else {
        let t = s.drop_last();
        assert(all_alpha(t)) by {
            assert forall|i: int| 0 <= i < t.len() implies is_alpha(#[trigger] t[i]) by {
                assert(t[i] == s[i]);
            }
        }
        assert(is_alpha(s[s.len() - 1]));
        if j == s.len() {
            assert(s.take(j) =~= s);
            lemma_letters_value_mono(t, 0);
        } else {
            assert(t.take(j) =~= s.take(j));
            lemma_letters_value_mono(t, j);
        }
    }
}

proof fn lemma_digits_value_mono(s: Seq<char>, j: int)
    requires
        0 <= j <= s.len(),
        all_digits(s),
    ensures
        0 <= digits_value(s.take(j)) <= digits_value(s),
    decreases s.len(),
{
    if s.len() == 0 {
        assert(s.take(j) =~= s);
    } else {
        let t = s.drop_last();
        assert(all_digits(t)) by {
            assert forall|i: int| 0 <= i < t.len() implies is_digit(#[trigger] t[i]) by {
                assert(t[i] == s[i]);
            }
        }
        assert(is_digit(s[s.len() - 1]));
        if j == s.len() {
            assert(s.take(j) =~= s);
            lemma_digits_value_mono(t, 0);
        } else {
            assert(t.take(j) =~= s.take(j));
            lemma_digits_value_mono(t, j);
        }
    }
}

/// A letters-then-digits split can only fall at the first digit.
proof fn lemma_split_at_first_digit(t: Seq<char>, kk: int, k: int)
    requires
        splits_at(t, kk),
        0 <= k <= t.len(),
        forall|i: int| 0 <= i < k ==> !is_digit(#[trigger] t[i]),
        k < t.len() ==> is_digit(t[k]),
    ensures
        kk == k,
{
    assert(t.skip(kk)[0] == t[kk]);
    if kk > k {
        assert(t.take(kk)[k] == t[k]);
    }
}

/// Parse an A1-style address — column letters then a 1-based row number,
/// e.g. `"B7"` — into a zero-indexed `(col, row)`. The inverse of
/// [`cell_address`]. `None` for anything that is not `[A-Za-z]+[0-9]+`
/// with a non-zero row; surrounding whitespace and letter case are
/// tolerated.
pub fn parse_address(text: &str) -> (r: Option<(u32, u32)>)
    ensures
        r == parsed_address(text@),
{
    let t = trimmed_chars(text);
    let n = t.len();
    // The first digit splits the column letters from the row number.
    let mut k: usize = 0;
    while k < n && !char_is_digit(t[k])
        invariant
            n == t@.len(),
            t@ == trim(text@),
            k <= n,
            forall|i: int| 0 <= i < k ==> !is_digit(#[trigger] t@[i]),
        decreases n - k,
    {
        k = k + 1;
    }
    if k == n || k == 0 {
        assert(!exists|kk: int| splits_at(t@, kk)) by {
            if exists|kk: int| splits_at(t@, kk) {
                let kk = choose|kk: int| splits_at(t@, kk);
                lemma_split_at_first_digit(t@, kk, k as int);
            }
        }
        return None;
    }
    let mut i: usize = 0;
    while i < k
        invariant
            n == t@.len(),
            t@ == trim(text@),
            0 < k < n,
            i <= k,
            forall|j: int| 0 <= j < i ==> is_alpha(#[trigger] t@[j]),
            forall|j: int| 0 <= j < k ==> !is_digit(#[trigger] t@[j]),
            is_digit(t@[k as int]),
        decreases k - i,
    {
        if !char_is_alpha(t[i]) {
            assert(!exists|kk: int| splits_at(t@, kk)) by {
                if exists|kk: int| splits_at(t@, kk) {
                    let kk = choose|kk: int| splits_at(t@, kk);
                    lemma_split_at_first_digit(t@, kk, k as int);
                    assert(t@.take(kk)[i as int] == t@[i as int]);
                }
            }
            return None;
        }
        i = i + 1;
    }
    let mut j: usize = k;
    while j < n
        invariant
            n == t@.len(),
            t@ == trim(text@),
            0 < k <= j <= n,
            forall|q: int| k <= q < j ==> is_digit(#[trigger] t@[q]),
            forall|q: int| 0 <= q < k ==> !is_digit(#[trigger] t@[q]),
            forall|q: int| 0 <= q < k ==> is_alpha(#[trigger] t@[q]),
            is_digit(t@[k as int]),
        decreases n - j,
    {
        if !char_is_digit(t[j]) {
            assert(!exists|kk: int| splits_at(t@, kk)) by {
                if exists|kk: int| splits_at(t@, kk) {
                    let kk = choose|kk: int| splits_at(t@, kk);
                    lemma_split_at_first_digit(t@, kk, k as int);
                    assert(t@.skip(kk)[j - k] == t@[j as int]);
                }
            }
            return None;
        }
        j = j + 1;
    }
    let ghost letters = t@.take(k as int);
    let ghost digits = t@.skip(k as int);
    assert(splits_at(t@, k as int)) by {
        assert forall|q: int| 0 <= q < letters.len() implies is_alpha(#[trigger] letters[q]) by {
            assert(letters[q] == t@[q]);
        }
        assert forall|q: int| 0 <= q < digits.len() implies is_digit(#[trigger] digits[q]) by {
            assert(digits[q] == t@[k + q]);
        }
    }
    proof {
        let kk = choose|kk: int| splits_at(t@, kk);
        lemma_split_at_first_digit(t@, kk, k as int);
    }
    // Column value, bijective base 26; `None` once it leaves `u32`.
    let mut col1: u32 = 0;
    let mut i: usize = 0;
    while i < k
        invariant
            n == t@.len(),
            0 < k < n,
            i <= k,
            letters == t@.take(k as int),
            digits == t@.skip(k as int),
            t@ == trim(text@),
            splits_at(t@, k as int),
            (choose|kk: int| splits_at(t@, kk)) == k,
            all_alpha(letters),
            col1 == letters_value(letters.take(i as int)),
        decreases k - i,
    {
        let c = t[i];
        proof {
            assert(letters[i as int] == c);
            assert(letters.take(i + 1).drop_last() =~= letters.take(i as int));
            assert(is_alpha(letters[i as int]));
        }
        let digit: u32 = if 'a' <= c && c <= 'z' {
            (c as u32) - 96
        } else {
            (c as u32) - 64
        };
        match col1.checked_mul(26) {
            None => {
                proof {
                    lemma_letters_value_mono(letters.take(i + 1), 0);
                    lemma_letters_value_mono(letters, i + 1);
                }
                return None;
            },
            Some(m) => match m.checked_add(digit) {
                None => {
                    proof {
                        lemma_letters_value_mono(letters, i + 1);
                    }
                    return None;
                },
                Some(v) => {
                    col1 = v;
                },
            },
        }
        i = i + 1;
    }
    assert(letters.take(k as int) =~= letters);
    proof {
        lemma_letters_value_mono(letters, 0);
    }
    // Row number, decimal; `None` once it leaves `u32`.
    let mut row1: u32 = 0;
    let mut j: usize = k;
    while j < n
        invariant
            n == t@.len(),
            0 < k <= j <= n,
            digits == t@.skip(k as int),
            letters == t@.take(k as int),
            t@ == trim(text@),
            splits_at(t@, k as int),
            (choose|kk: int| splits_at(t@, kk)) == k,
            col1 == letters_value(letters),
            col1 >= 1,
            all_digits(digits),
            row1 == digits_value(digits.take(j - k)),
        decreases n - j,
    {
        let c = t[j];
        proof {
            assert(digits[j - k] == c);
            assert(digits.take(j - k + 1).drop_last() =~= digits.take(j - k));
            assert(is_digit(digits[j - k]));
        }
        let d: u32 = (c as u32) - 48;
        match row1.checked_mul(10) {
            None => {
                proof {
                    lemma_digits_value_mono(digits.take(j - k + 1), 0);
                    lemma_digits_value_mono(digits, j - k + 1);
                }
                return None;
            },
            Some(m) => match m.checked_add(d) {
                None => {
                    proof {
                        lemma_digits_value_mono(digits, j - k + 1);
                    }
                    return None;
                },
                Some(v) => {
                    row1 = v;
                },
            },
        }
        j = j + 1;
    }
    assert(digits.take(n - k) =~= digits);
    proof {
        lemma_letters_value_mono(letters, 0);
    }
    if row1 == 0 {
        return None;
    }
    Some((col1 - 1, row1 - 1))
}

proof fn lemma_col_label_value(c: nat)
    ensures
        col_label(c).len() >= 1,
        all_alpha(col_label(c)),
        forall|i: int| 0 <= i < col_label(c).len() ==> 'A' <= #[trigger] col_label(c)[i] <= 'Z',
        letters_value(col_label(c)) == c + 1,
    decreases c,
{
    if c < 26 {
        assert(col_label(c)[0] == letter(c as int));
        assert(col_label(c).drop_last() =~= Seq::<char>::empty());
        lemma_letter_value(c as int);
        assert(letters_value(col_label(c)) == letters_value(col_label(c).drop_last()) * 26
            + letter_value(col_label(c).last()));
    } else {
        let p = (c / 26 - 1) as nat;
        lemma_col_label_value(p);
        let l = col_label(c);
        assert(l == col_label(p).push(letter((c % 26) as int)));
        assert(l.drop_last() =~= col_label(p));
        assert forall|i: int| 0 <= i < l.len() implies 'A' <= #[trigger] l[i] <= 'Z' by {
            if i < l.len() - 1 {
                assert(l[i] == col_label(p)[i]);
            }
        }
        assert forall|i: int| 0 <= i < l.len() implies is_alpha(#[trigger] l[i]) by {
            assert('A' <= l[i] <= 'Z');
        }
        assert(c == 26 * (c / 26) + c % 26) by (nonlinear_arith);
        lemma_letter_value((c % 26) as int);
        assert(letters_value(l) == letters_value(l.drop_last()) * 26 + letter_value(l.last()));
        assert(l.last() == letter((c % 26) as int));
    }
}

proof fn lemma_letter_value(x: int)
    requires
        0 <= x < 26,
    ensures
        letter_value(letter(x)) == x + 1,
        'A' <= letter(x) <= 'Z',
{
    assert(letter(x) as int == x + 65);
}

proof fn lemma_digit_char(x: int)
    requires
        0 <= x < 10,
    ensures
        digit_char(x) as int - 48 == x,
        is_digit(digit_char(x)),
{
    assert(digit_char(x) as int == x + 48);
}

proof fn lemma_dec_value(n: nat)
    ensures
        dec(n).len() >= 1,
        all_digits(dec(n)),
        digits_value(dec(n)) == n,
    decreases n,
{
    if n < 10 {
        assert(dec(n).drop_last() =~= Seq::<char>::empty());
        lemma_digit_char(n as int);
        assert(digits_value(dec(n)) == digits_value(dec(n).drop_last()) * 10 + (dec(n).last() as int - 48));
    } else {
        let p = n / 10;
        lemma_dec_value(p);
        let d = dec(n);
        assert(d.drop_last() =~= dec(p));
        assert forall|i: int| 0 <= i < d.len() implies is_digit(#[trigger] d[i]) by {
            if i < d.len() - 1 {
                assert(d[i] == dec(p)[i]);
            }
        }
        assert(n == 10 * (n / 10) + n % 10) by (nonlinear_arith);
        lemma_digit_char((n % 10) as int);
        assert(digits_value(d) == digits_value(d.drop_last()) * 10 + (d.last() as int - 48));
    }
}

/// A capital letter made lower case; any other character as it is.
pub open spec fn lower_char(c: char) -> char {
    if 'A' <= c <= 'Z' {
        (c as int + 32) as char
    } else {
        c
    }
}

/// Text with its capital letters made lower case.
pub open spec fn ascii_lowered(s: Seq<char>) -> Seq<char> {
    s.map_values(|c: char| lower_char(c))
}

proof fn lemma_lowered_letters(l: Seq<char>)
    requires
        forall|i: int| 0 <= i < l.len() ==> 'A' <= #[trigger] l[i] <= 'Z',
    ensures
        letters_value(ascii_lowered(l)) == letters_value(l),
        all_alpha(ascii_lowered(l)),
        forall|i: int| 0 <= i < l.len() ==> 'a' <= #[trigger] ascii_lowered(l)[i] <= 'z',
    decreases l.len(),
{
    let m = ascii_lowered(l);
    assert forall|i: int| 0 <= i < l.len() implies 'a' <= #[trigger] m[i] <= 'z' by {
        assert(m[i] == lower_char(l[i]));
        assert(lower_char(l[i]) as int == l[i] as int + 32);
    }
    if l.len() > 0 {
        let p = l.drop_last();
        assert forall|i: int| 0 <= i < p.len() implies 'A' <= #[trigger] p[i] <= 'Z' by {
            assert(p[i] == l[i]);
        }
        lemma_lowered_letters(p);
        assert(m.drop_last() =~= ascii_lowered(p));
        assert(m.last() == lower_char(l.last()));
        assert(lower_char(l.last()) as int == l.last() as int + 32);
    }
}

/// The address of a cell, lower-cased or not and padded with whitespace
/// on either side, still parses back to that cell.
pub proof fn lemma_parse_padded_address(col: u32, row: u32, lower: bool, w1: Seq<char>, w2: Seq<char>)
    requires
        col < u32::MAX,
        row < u32::MAX,
        is_blank(w1),
        is_blank(w2),
    ensures
        parsed_address(
            w1 + (if lower {
                ascii_lowered(address_of(col as nat, row as nat))
            } else {
                address_of(col as nat, row as nat)
            }) + w2,
        ) == Some((col, row)),
{
    let l = col_label(col as nat);
    let d = dec((row + 1) as nat);
    lemma_col_label_value(col as nat);
    lemma_dec_value((row + 1) as nat);
    let ll = if lower {
        ascii_lowered(l)
    } else {
        l
    };
    if lower {
        lemma_lowered_letters(l);
        assert forall|i: int| 0 <= i < d.len() implies #[trigger] ascii_lowered(d)[i] == d[i] by {
            assert(is_digit(d[i]));
        }
        assert(ascii_lowered(d) =~= d);
        assert(ascii_lowered(l + d) =~= ascii_lowered(l) + ascii_lowered(d));
    }
    let s = ll + d;
    assert(s == if lower {
        ascii_lowered(address_of(col as nat, row as nat))
    } else {
        address_of(col as nat, row as nat)
    });
    assert(letters_value(ll) == col + 1);
    assert(all_alpha(ll));
    assert forall|i: int| 0 <= i < ll.len() implies !is_digit(#[trigger] ll[i]) && !is_ws(ll[i]) by {
        if lower {
            assert('a' <= ascii_lowered(l)[i] <= 'z');
        } else {
            assert('A' <= l[i] <= 'Z');
        }
    }
    let k = ll.len() as int;
    assert(ll.len() == l.len());
    assert(s.take(k) =~= ll);
    assert(s.skip(k) =~= d);
    assert(s[0] == ll[0]);
    assert(s[s.len() - 1] == d[d.len() - 1]);
    assert(is_digit(d[d.len() - 1]));
    lemma_trim_padded(w1, s, w2);
    assert(trim(w1 + s + w2) == s);
    assert(splits_at(s, k));
    let kk = choose|kk: int| splits_at(s, kk);
    assert forall|i: int| 0 <= i < k implies !is_digit(#[trigger] s[i]) by {
        assert(s[i] == ll[i]);
    }
    assert(is_digit(s[k])) by {
        assert(s[k] == d[0]);
    }
    lemma_split_at_first_digit(s, kk, k);
}

/// Parsing the A1 address of a cell gives back that cell: `parse_address`
/// inverts `cell_address`. (The last column, `u32::MAX`, has a label whose
/// letter value no longer fits a `u32`, so it does not parse back.)
pub proof fn lemma_parse_inverts_address(col: u32, row: u32)
    requires
        col < u32::MAX,
        row < u32::MAX,
    ensures
        parsed_address(address_of(col as nat, row as nat)) == Some((col, row)),
{
    let l = col_label(col as nat);
    let d = dec((row + 1) as nat);
    let s = address_of(col as nat, row as nat);
    lemma_col_label_value(col as nat);
    lemma_dec_value((row + 1) as nat);
    let k = l.len() as int;
    assert(s.take(k) =~= l);
    assert(s.skip(k) =~= d);
    assert(s[0] == l[0]);
    assert(s[s.len() - 1] == d[d.len() - 1]);
    assert(trim_start(s) == s);
    assert(trim_end(s) == s);
    assert(trim(s) == s);
    assert(splits_at(s, k));
    let kk = choose|kk: int| splits_at(s, kk);
    assert forall|i: int| 0 <= i < k implies !is_digit(#[trigger] s[i]) by {
        assert(s[i] == l[i]);
        assert('A' <= l[i] <= 'Z');
    }
    assert(is_digit(s[k])) by {
        assert(s[k] == d[0]);
    }
    lemma_split_at_first_digit(s, kk, k);
}

/// `rank` strictly decreases along every step of `next`.
pub open spec fn ranked<C>(next: spec_fn(C) -> Option<C>, rank: spec_fn(C) -> nat) -> bool {
    forall|c: C| #[trigger] next(c) is Some ==> rank(next(c)->0) < rank(c)
}

/// Every walk along `next` reaches its end.
pub open spec fn terminates<C>(next: spec_fn(C) -> Option<C>) -> bool {
    exists|rank: spec_fn(C) -> nat| ranked(next, rank)
}

/// A measure that decreases along `next`, when there is one.
pub open spec fn a_rank<C>(next: spec_fn(C) -> Option<C>) -> spec_fn(C) -> nat {
    choose|rank: spec_fn(C) -> nat| ranked(next, rank)
}

/// Walking on from `c` while the next cell is occupied: the last cell of
/// the run that `c` belongs to.
pub open spec fn run_end<C>(next: spec_fn(C) -> Option<C>, occ: spec_fn(C) -> bool, c: C) -> C
    decreases a_rank(next)(c),
    when terminates(next)
{
    match next(c) {
        Some(a) => if occ(a) {
            run_end(next, occ, a)
        } else {
            c
        },
        None => c,
    }
}

/// Walking on from `c` to the first occupied cell, or to the last cell
/// before the boundary when none is occupied.
pub open spec fn gap_end<C>(next: spec_fn(C) -> Option<C>, occ: spec_fn(C) -> bool, c: C) -> C
    decreases a_rank(next)(c),
    when terminates(next)
{
    if occ(c) {
        c
    } else {
        match next(c) {
            Some(a) => gap_end(next, occ, a),
            None => c,
        }
    }
}

/// The spreadsheet Ctrl+arrow rule along the walk `next`: from inside a
/// run of content, its far end; otherwise the next content cell, or the
/// last cell before the boundary; at the boundary, the start itself.
pub open spec fn jump_spec<C>(next: spec_fn(C) -> Option<C>, occ: spec_fn(C) -> bool, start: C) -> C {
    match next(start) {
        None => start,
        Some(n) => if occ(start) && occ(n) {
            run_end(next, occ, n)
        } else {
            gap_end(next, occ, n)
        },
    }
}

/// The cells a predicate closure accepts.
pub open spec fn accepted<C, G: Fn(C) -> bool>(pred: G) -> spec_fn(C) -> bool {
    |c: C| pred.ensures((c,), true)
}

/// A closure that answers every call the same way.
pub open spec fn deterministic<A, B, F: Fn(A) -> B>(f: F) -> bool {
    forall|a: A, b1: B, b2: B| f.ensures((a,), b1) && f.ensures((a,), b2) ==> b1 == b2
}

/// A block-jump along a 1-D walk — the spreadsheet Ctrl+arrow rule.
/// From `start`, follow `step` (which yields the next coordinate, or
/// `None` at the boundary): from inside a run of content (`occupied`),
/// stop at the run's far end; from a run's trailing edge or an empty
/// cell, stop at the next content cell; failing that, stop at the last
/// cell before the boundary. Lattice-agnostic — the square sheet walks
/// an index, the hex sheet walks axial coordinates.
///
/// `next` and `occ` are the walk and the content test that `step` and
/// `occupied` compute; the walk must end (`terminates`), as it does on a
/// bounded grid.
pub fn block_jump<C: Copy, F: Fn(C) -> Option<C>, G: Fn(C) -> bool>(
    start: C,
    step: F,
    occupied: G,
    Ghost(next): Ghost<spec_fn(C) -> Option<C>>,
    Ghost(occ): Ghost<spec_fn(C) -> bool>,
) -> (r: C)
    requires
        forall|c: C| step.requires((c,)),
        forall|c: C| occupied.requires((c,)),
        forall|c: C, o: Option<C>| step.ensures((c,), o) ==> o == next(c),
        forall|c: C, b: bool| occupied.ensures((c,), b) ==> b == occ(c),
        terminates(next),
    ensures
        r == jump_spec(next, occ, start),
{
    let ghost rank = a_rank(next);
    let first = step(start);
    assert(next(start) == first);
    match first {
        None => start,
        Some(n) => {
            let s_occ = occupied(start);
            let both = if s_occ {
                occupied(n)
            } else {
                false
            };
            assert(both == (occ(start) && occ(n)));
            if both {
                let mut cur = n;
                loop
                    invariant
                        forall|c: C| step.requires((c,)),
                        forall|c: C| occupied.requires((c,)),
                        forall|c: C, o: Option<C>| step.ensures((c,), o) ==> o == next(c),
                        forall|c: C, b: bool| occupied.ensures((c,), b) ==> b == occ(c),
                        terminates(next),
                        rank == a_rank(next),
                        jump_spec(next, occ, start) == run_end(next, occ, cur),
                    decreases rank(cur),
                {
                    let o = step(cur);
                    assert(next(cur) == o);
                    match o {
                        Some(ahead) => {
                            let a_occ = occupied(ahead);
                            assert(a_occ == occ(ahead));
                            if !a_occ {
                                assert(run_end(next, occ, cur) == cur);
                                return cur;
                            }
                            assert(run_end(next, occ, cur) == run_end(next, occ, ahead));
                            cur = ahead;
                        },
                        None => {
                            assert(run_end(next, occ, cur) == cur);
                            return cur;
                        },
                    }
                }
            } else {
                let mut cur = n;
                loop
                    invariant
                        forall|c: C| step.requires((c,)),
                        forall|c: C| occupied.requires((c,)),
                        forall|c: C, o: Option<C>| step.ensures((c,), o) ==> o == next(c),
                        forall|c: C, b: bool| occupied.ensures((c,), b) ==> b == occ(c),
                        terminates(next),
                        rank == a_rank(next),
                        jump_spec(next, occ, start) == gap_end(next, occ, cur),
                    decreases rank(cur),
                {
                    let c_occ = occupied(cur);
                    assert(c_occ == occ(cur));
                    if c_occ {
                        assert(gap_end(next, occ, cur) == cur);
                        return cur;
                    }
                    let o = step(cur);
                    assert(next(cur) == o);
                    match o {
                        Some(ahead) => {
                            assert(gap_end(next, occ, cur) == gap_end(next, occ, ahead));
                            cur = ahead;
                        },
                        None => {
                            assert(gap_end(next, occ, cur) == cur);
                            return cur;
                        },
                    }
                }
            }
        },
    }
}

/// The walk along one grid axis over `0..=max`: toward `max` when
/// `forward`, else toward 0.
pub open spec fn index_next(max: u32, forward: bool) -> spec_fn(u32) -> Option<u32> {
    |i: u32|
        if forward {
            if i < max {
                Some((i + 1) as u32)
            } else {
                None
            }
        } else {
            if i > 0 {
                Some((i - 1) as u32)
            } else {
                None
            }
        }
}

/// The Ctrl+Arrow block-jump target along one grid axis, where
/// `occupied` computes the spec predicate `occ` — see [`jump_target`],
/// whose result this is, stated over `occ`.
pub fn jump_target_by<G: Fn(u32) -> bool>(
    start: u32,
    max: u32,
    forward: bool,
    occupied: G,
    Ghost(occ): Ghost<spec_fn(u32) -> bool>,
) -> (r: u32)
    requires
        forall|i: u32| occupied.requires((i,)),
        forall|i: u32, b: bool| occupied.ensures((i,), b) ==> b == occ(i),
    ensures
        r == jump_spec(index_next(max, forward), occ, start),
{
    let step = |i: u32| -> (o: Option<u32>)
        ensures
            o == index_next(max, forward)(i),
        {
            if forward {
                if i < max {
                    Some(i + 1)
                } else {
                    None
                }
            } else {
                if i > 0 {
                    Some(i - 1)
                } else {
                    None
                }
            }
        };
    let ghost next = index_next(max, forward);
    let ghost rank = |i: u32|
        if forward {
            if i <= max {
                (max - i) as nat
            } else {
                0nat
            }
        } else {
            i as nat
        };
    assert(ranked(next, rank));
    block_jump(start, step, occupied, Ghost(next), Ghost(occ))
}

/// The Ctrl+Arrow block-jump target along one grid axis — [`block_jump`]
/// over an index in `0..=max`. `forward` jumps toward `max`, else 0.
pub fn jump_target<G: Fn(u32) -> bool>(start: u32, max: u32, forward: bool, occupied: G) -> (r: u32)
    requires
        forall|i: u32| occupied.requires((i,)),
        deterministic(occupied),
    ensures
        r == jump_spec(index_next(max, forward), accepted(occupied), start),
{
    jump_target_by(start, max, forward, occupied, Ghost(accepted(occupied)))
}

/// The formula text an AutoSum writes: `=FUNC(range)`.
pub open spec fn autosum_formula(func: Seq<char>, range: Seq<char>) -> Seq<char> {
    seq!['='] + func + seq!['('] + range + seq![')']
}

/// The A1 range text of a block: one address for a single cell, else
/// `first:last`.
pub open spec fn range_text(min: (u32, u32), max: (u32, u32)) -> Seq<char> {
    if min == max {
        address_of(min.0 as nat, min.1 as nat)
    } else {
        address_of(min.0 as nat, min.1 as nat) + seq![':'] + address_of(max.0 as nat, max.1 as nat)
    }
}

/// The AutoSum-style action for a selection whose inclusive corners are
/// `bounds`: the cell that should hold the result, and the
/// `=FUNC(range)` formula to put there — `func` is an aggregate name
/// such as `"SUM"` or `"AVERAGE"`. The result lands directly below the
/// selection's bottom-left corner; `None` when that row would fall past
/// `rows`.
pub fn autosum(bounds: ((u32, u32), (u32, u32)), rows: u32, func: &str) -> (r: Option<
    ((u32, u32), String),
>)
    requires
        (bounds.1).1 < u32::MAX,
        (bounds.1).1 + 1 < rows ==> (bounds.0).1 < u32::MAX,
    ensures
        (bounds.1).1 + 1 >= rows ==> r is None,
        (bounds.1).1 + 1 < rows ==> r is Some && (r->0).0 == ((bounds.0).0, ((bounds.1).1 + 1) as u32)
            && (r->0).1@ == autosum_formula(func@, range_text(bounds.0, bounds.1)),
{
    let ((min_c, min_r), (max_c, max_r)) = bounds;
    let target_row = max_r + 1;
    if target_row >= rows {
        return None;
    }
    let mut text = String::new();
    push_char(&mut text, '=');
    text.append(func);
    push_char(&mut text, '(');
    let first = cell_address(min_c, min_r);
    text.append(first.as_str());
    if !(min_c == max_c && min_r == max_r) {
        push_char(&mut text, ':');
        let last = cell_address(max_c, max_r);
        text.append(last.as_str());
    }
    push_char(&mut text, ')');
    assert(text@ =~= autosum_formula(func@, range_text(bounds.0, bounds.1)));
    Some(((min_c, target_row), text))
}

/// The row a Page Up / Page Down lands on: `start` shifted by `page`
/// rows toward `0` (`up`) or toward `max` (down), clamped to `0..=max`.
pub fn page_step(start: u32, up: bool, page: u32, max: u32) -> (r: u32)
    requires
        !up ==> start + page <= u32::MAX,
    ensures
        up ==> r == (if start >= page { start - page } else { 0 }),
        !up ==> r == (if start + page <= max { start + page } else { max as int }),
{
    if up {
        start.saturating_sub(page)
    } else {
        let d = start + page;
        if d < max {
            d
        } else {
            max
        }
    }
}

/// The cells a two-argument predicate closure accepts.
pub open spec fn accepted2<G: Fn(u32, u32) -> bool>(pred: G) -> spec_fn(u32, u32) -> bool {
    |c: u32, r: u32| pred.ensures((c, r), true)
}

/// Some cell of row `r` between columns `lo` and `hi` is occupied.
pub open spec fn row_hit(occ: spec_fn(u32, u32) -> bool, lo: u32, hi: u32, r: u32) -> bool {
    exists|c: u32| lo <= c <= hi && #[trigger] occ(c, r)
}

/// Some cell of column `c` between rows `lo` and `hi` is occupied.
pub open spec fn col_hit(occ: spec_fn(u32, u32) -> bool, c: u32, lo: u32, hi: u32) -> bool {
    exists|r: u32| lo <= r <= hi && #[trigger] occ(c, r)
}

/// No row or column just past an edge of the box holds an occupied cell
/// within the box's span (edges at the grid's border do not grow).
pub open spec fn region_closed(
    b: ((u32, u32), (u32, u32)),
    cols: u32,
    rows: u32,
    occ: spec_fn(u32, u32) -> bool,
) -> bool {
    let ((min_c, min_r), (max_c, max_r)) = b;
    &&& !(min_r > 0 && row_hit(occ, min_c, max_c, (min_r - 1) as u32))
    &&& !(max_r + 1 < rows && row_hit(occ, min_c, max_c, (max_r + 1) as u32))
    &&& !(min_c > 0 && col_hit(occ, (min_c - 1) as u32, min_r, max_r))
    &&& !(max_c + 1 < cols && col_hit(occ, (max_c + 1) as u32, min_r, max_r))
}

/// The box holds `cell`.
pub open spec fn box_holds(b: ((u32, u32), (u32, u32)), cell: (u32, u32)) -> bool {
    &&& (b.0).0 <= cell.0 <= (b.1).0
    &&& (b.0).1 <= cell.1 <= (b.1).1
}

/// Box `a` lies within box `b`.
pub open spec fn box_within(a: ((u32, u32), (u32, u32)), b: ((u32, u32), (u32, u32))) -> bool {
    &&& (b.0).0 <= (a.0).0 && (a.1).0 <= (b.1).0
    &&& (b.0).1 <= (a.0).1 && (a.1).1 <= (b.1).1
}

/// Whether any cell of row `r` between columns `lo` and `hi` is occupied.
fn any_in_row<G: Fn(u32, u32) -> bool>(
    occupied: &G,
    lo: u32,
    hi: u32,
    r: u32,
    Ghost(occ): Ghost<spec_fn(u32, u32) -> bool>,
) -> (b: bool)
    requires
        forall|c: u32, r: u32| occupied.requires((c, r)),
        answers2(*occupied, occ),
        lo <= hi,
    ensures
        b == row_hit(occ, lo, hi, r),
{
    let mut c = lo;
    loop
        invariant
            forall|c: u32, r: u32| occupied.requires((c, r)),
            answers2(*occupied, occ),
            lo <= c <= hi,
            forall|x: u32| lo <= x < c ==> !(#[trigger] occ(x, r)),
        decreases hi - c,
    {
        let hit = occupied(c, r);
        if hit {
            assert(occ(c, r));
            return true;
        }
        assert(!occ(c, r));
        if c == hi {
            assert forall|x: u32| lo <= x <= hi implies !(#[trigger] occ(x, r)) by {
                if x < c {
                } else {
                    assert(x == c);
                }
            }
            return false;
        }
        c = c + 1;
    }
}

/// Whether any cell of column `c` between rows `lo` and `hi` is occupied.
fn any_in_col<G: Fn(u32, u32) -> bool>(
    occupied: &G,
    c: u32,
    lo: u32,
    hi: u32,
    Ghost(occ): Ghost<spec_fn(u32, u32) -> bool>,
) -> (b: bool)
    requires
        forall|c: u32, r: u32| occupied.requires((c, r)),
        answers2(*occupied, occ),
        lo <= hi,
    ensures
        b == col_hit(occ, c, lo, hi),
{
    let mut r = lo;
    loop
        invariant
            forall|c: u32, r: u32| occupied.requires((c, r)),
            answers2(*occupied, occ),
            lo <= r <= hi,
            forall|y: u32| lo <= y < r ==> !(#[trigger] occ(c, y)),
        decreases hi - r,
    {
        let hit = occupied(c, r);
        if hit {
            assert(occ(c, r));
            return true;
        }
        assert(!occ(c, r));
        if r == hi {
            assert forall|y: u32| lo <= y <= hi implies !(#[trigger] occ(c, y)) by {
                if y < r {
                } else {
                    assert(y == r);
                }
            }
            return false;
        }
        r = r + 1;
    }
}

/// A two-argument closure that answers every call the same way.
pub open spec fn deterministic2<G: Fn(u32, u32) -> bool>(f: G) -> bool {
    forall|c: u32, r: u32, b1: bool, b2: bool|
        f.ensures((c, r), b1) && f.ensures((c, r), b2) ==> b1 == b2
}

/// Every answer the closure gives is the spec predicate's: `f` computes
/// `occ`.
pub open spec fn answers2<G: Fn(u32, u32) -> bool>(f: G, occ: spec_fn(u32, u32) -> bool) -> bool {
    forall|c: u32, r: u32, b: bool| f.ensures((c, r), b) ==> b == occ(c, r)
}

/// The current data region around `cursor`, where `occupied` computes
/// the spec predicate `occ` — see [`current_region`], whose result this
/// is, stated over `occ`.
pub fn current_region_by<G: Fn(u32, u32) -> bool>(
    cursor: (u32, u32),
    cols: u32,
    rows: u32,
    occupied: G,
    Ghost(occ): Ghost<spec_fn(u32, u32) -> bool>,
) -> (r: ((u32, u32), (u32, u32)))
    requires
        forall|c: u32, r: u32| occupied.requires((c, r)),
        answers2(occupied, occ),
    ensures
        box_holds(r, cursor),
        region_closed(r, cols, rows, occ),
        forall|b: ((u32, u32), (u32, u32))|
            box_holds(b, cursor) && #[trigger] region_closed(b, cols, rows, occ) ==> box_within(r, b),
{
    let (mut min_c, mut min_r) = cursor;
    let (mut max_c, mut max_r) = cursor;
    loop
        invariant
            forall|c: u32, r: u32| occupied.requires((c, r)),
            answers2(occupied, occ),
            min_c <= cursor.0 <= max_c,
            min_r <= cursor.1 <= max_r,
            max_r > cursor.1 ==> max_r < rows,
            max_c > cursor.0 ==> max_c < cols,
            forall|b: ((u32, u32), (u32, u32))|
                box_holds(b, cursor) && #[trigger] region_closed(b, cols, rows, occ) ==> box_within(
                    ((min_c, min_r), (max_c, max_r)),
                    b,
                ),
        decreases min_r + min_c + (if max_r < rows {
            rows - max_r
        } else {
            0
        }) + (if max_c < cols {
            cols - max_c
        } else {
            0
        }),
    {
        let ghost m0 = min_r + min_c + (if max_r < rows {
            rows - max_r
        } else {
            0
        }) + (if max_c < cols {
            cols - max_c
        } else {
            0
        });
        let mut grew = false;
        if min_r > 0 && any_in_row(&occupied, min_c, max_c, min_r - 1, Ghost(occ)) {
            proof {
                assert forall|b: ((u32, u32), (u32, u32))|
                    box_holds(b, cursor) && #[trigger] region_closed(b, cols, rows, occ)
                        implies box_within(((min_c, (min_r - 1) as u32), (max_c, max_r)), b) by {
                    assert(box_within(((min_c, min_r), (max_c, max_r)), b));
                    if (b.0).1 == min_r {
                        let w = choose|c: u32| min_c <= c <= max_c && #[trigger] occ(c, (min_r - 1) as u32);
                        assert(row_hit(occ, (b.0).0, (b.1).0, ((b.0).1 - 1) as u32));
                    }
                }
            }
            min_r = min_r - 1;
            grew = true;
        }
        if max_r < u32::MAX && max_r + 1 < rows && any_in_row(&occupied, min_c, max_c, max_r + 1, Ghost(occ)) {
            proof {
                assert forall|b: ((u32, u32), (u32, u32))|
                    box_holds(b, cursor) && #[trigger] region_closed(b, cols, rows, occ)
                        implies box_within(((min_c, min_r), (max_c, (max_r + 1) as u32)), b) by {
                    assert(box_within(((min_c, min_r), (max_c, max_r)), b));
                    if (b.1).1 == max_r {
                        let w = choose|c: u32| min_c <= c <= max_c && #[trigger] occ(c, (max_r + 1) as u32);
                        assert(row_hit(occ, (b.0).0, (b.1).0, ((b.1).1 + 1) as u32));
                    }
                }
            }
            max_r = max_r + 1;
            grew = true;
        }
        if min_c > 0 && any_in_col(&occupied, min_c - 1, min_r, max_r, Ghost(occ)) {
            proof {
                assert forall|b: ((u32, u32), (u32, u32))|
                    box_holds(b, cursor) && #[trigger] region_closed(b, cols, rows, occ)
                        implies box_within((((min_c - 1) as u32, min_r), (max_c, max_r)), b) by {
                    assert(box_within(((min_c, min_r), (max_c, max_r)), b));
                    if (b.0).0 == min_c {
                        let w = choose|r: u32| min_r <= r <= max_r && #[trigger] occ((min_c - 1) as u32, r);
                        assert(col_hit(occ, ((b.0).0 - 1) as u32, (b.0).1, (b.1).1));
                    }
                }
            }
            min_c = min_c - 1;
            grew = true;
        }
        if max_c < u32::MAX && max_c + 1 < cols && any_in_col(&occupied, max_c + 1, min_r, max_r, Ghost(occ)) {
            proof {
                assert forall|b: ((u32, u32), (u32, u32))|
                    box_holds(b, cursor) && #[trigger] region_closed(b, cols, rows, occ)
                        implies box_within(((min_c, min_r), ((max_c + 1) as u32, max_r)), b) by {
                    assert(box_within(((min_c, min_r), (max_c, max_r)), b));
                    if (b.1).0 == max_c {
                        let w = choose|r: u32| min_r <= r <= max_r && #[trigger] occ((max_c + 1) as u32, r);
                        assert(col_hit(occ, ((b.1).0 + 1) as u32, (b.0).1, (b.1).1));
                    }
                }
            }
            max_c = max_c + 1;
            grew = true;
        }
        if !grew {
            let res = ((min_c, min_r), (max_c, max_r));
            assert(region_closed(res, cols, rows, occ));
            return res;
        }
    }
}


/// A closure that answers every call the same way computes the cells it
/// accepts.
pub proof fn lemma_deterministic_answers2<G: Fn(u32, u32) -> bool>(f: G)
    requires
        deterministic2(f),
    ensures
        answers2(f, accepted2(f)),
{
    assert forall|c: u32, r: u32, b: bool| f.ensures((c, r), b) implies b == accepted2(f)(c, r) by {
        if !b && f.ensures((c, r), true) {
            assert(false);
        }
    }
}

/// The current data region around `cursor` — its inclusive `(min, max)`
/// corners. Starting from the cursor's 1x1 box, the box grows outward
/// while the row or column just beyond an edge holds any non-empty cell
/// (`occupied`) within the box's span, to a fixpoint. An isolated cell
/// yields just itself. `cols` / `rows` bound the grow.
///
/// The result is the smallest closed box holding the cursor: it holds
/// the cursor, cannot grow, and lies within every other such box.
pub fn current_region<G: Fn(u32, u32) -> bool>(
    cursor: (u32, u32),
    cols: u32,
    rows: u32,
    occupied: G,
) -> (r: ((u32, u32), (u32, u32)))
    requires
        forall|c: u32, r: u32| occupied.requires((c, r)),
        deterministic2(occupied),
    ensures
        box_holds(r, cursor),
        region_closed(r, cols, rows, accepted2(occupied)),
        forall|b: ((u32, u32), (u32, u32))|
            box_holds(b, cursor) && #[trigger] region_closed(b, cols, rows, accepted2(occupied))
                ==> box_within(r, b),
{
    proof {
        lemma_deterministic_answers2(occupied);
    }
    current_region_by(cursor, cols, rows, occupied, Ghost(accepted2(occupied)))
}
} // verus!
