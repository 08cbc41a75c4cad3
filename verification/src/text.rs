//! Character and string helpers: decimal fields, case-insensitive
//! comparison against a lowercase pattern, and splitting a string around
//! the last occurrence of a separator.

use vstd::prelude::*;
use vstd::string::StringExecFns;

verus! {

/// True of the ten ASCII digit characters.
pub open spec fn is_digit_char(c: char) -> bool {
    '0' <= c && c <= '9'
}

/// Numeric value of an ASCII digit character.
pub open spec fn digit_val(c: char) -> int {
    c as int - '0' as int
}

pub open spec fn all_digit_chars(s: Seq<char>) -> bool {
    forall|i: int| 0 <= i < s.len() ==> is_digit_char(#[trigger] s[i])
}

/// Value of a sequence of ASCII digit characters read as a decimal number.
pub open spec fn dec_val(s: Seq<char>) -> int
    decreases s.len(),
{
    if s.len() == 0 {
        0
    } else {
        dec_val(s.drop_last()) * 10 + digit_val(s.last())
    }
}

/// The digit character of a value below ten.
pub open spec fn digit_char(d: int) -> char {
    if d == 0 {
        '0'
    } else if d == 1 {
        '1'
    } else if d == 2 {
        '2'
    } else if d == 3 {
        '3'
    } else if d == 4 {
        '4'
    } else if d == 5 {
        '5'
    } else if d == 6 {
        '6'
    } else if d == 7 {
        '7'
    } else if d == 8 {
        '8'
    } else {
        '9'
    }
}

/// Decimal rendering of a non-negative number, most significant digit
/// first, with no zero padding.
pub open spec fn dec_str(n: int) -> Seq<char>
    decreases n,
{
    if n < 10 {
        seq![digit_char(n)]
    } else {
        dec_str(n / 10).push(digit_char(n % 10))
    }
}

pub open spec fn pow10(n: nat) -> int
    decreases n,
{
    if n == 0 {
        1
    } else {
        10 * pow10((n - 1) as nat)
    }
}

/// A digit string's value is bounded by the power of ten of its width.
pub proof fn lemma_dec_val_bounds(s: Seq<char>)
    requires
        all_digit_chars(s),
    ensures
        0 <= dec_val(s) < pow10(s.len()),
    decreases s.len(),
{
    if s.len() > 0 {
        lemma_dec_val_bounds(s.drop_last());
    }
}

fn digit_to_str(d: u16) -> (r: &'static str)
    requires
        d < 10,
    ensures
        r@ =~= seq![digit_char(d as int)],
{
    proof {
        reveal_strlit("0");
        reveal_strlit("1");
        reveal_strlit("2");
        reveal_strlit("3");
        reveal_strlit("4");
        reveal_strlit("5");
        reveal_strlit("6");
        reveal_strlit("7");
        reveal_strlit("8");
        reveal_strlit("9");
    }
    match d {
        0 => "0",
        1 => "1",
        2 => "2",
        3 => "3",
        4 => "4",
        5 => "5",
        6 => "6",
        7 => "7",
        8 => "8",
        _ => "9",
    }
}

/// Renders a number as unpadded decimal text.
pub fn u16_to_decimal(n: u16) -> (s: String)
    ensures
        s@ == dec_str(n as int),
    decreases n,
{
    if n < 10 {
        String::from_str(digit_to_str(n))
    } else {
        let mut s = u16_to_decimal(n / 10);
        s.append(digit_to_str(n % 10));
        proof {
            assert(s@ =~= dec_str((n / 10) as int).push(digit_char((n % 10) as int)));
        }
        s
    }
}

/// Renders a count as unpadded decimal text.
pub fn usize_to_decimal(n: usize) -> (s: String)
    ensures
        s@ == dec_str(n as int),
    decreases n,
{
    if n < 10 {
        String::from_str(digit_to_str((n % 10) as u16))
    } else {
        let mut s = usize_to_decimal(n / 10);
        s.append(digit_to_str((n % 10) as u16));
        proof {
            assert(s@ =~= dec_str((n / 10) as int).push(digit_char((n % 10) as int)));
        }
        s
    }
}

/// Character-wise match of `s` against a lowercase ASCII pattern,
/// treating ASCII letters of `s` case-insensitively.
pub open spec fn lower_eq_char(a: char, lower: char) -> bool {
    a == lower || ('A' <= a && a <= 'Z' && a as int + 32 == lower as int)
}

/// `s` equals the lowercase ASCII pattern `lower`, ignoring ASCII case.
pub open spec fn eq_ignore_ascii_case(s: Seq<char>, lower: Seq<char>) -> bool {
    s.len() == lower.len() && forall|i: int|
        0 <= i < s.len() ==> lower_eq_char(#[trigger] s[i], lower[i])
}

/// Compares a string against a lowercase ASCII pattern, ignoring the
/// ASCII case of the string's own characters.
pub fn str_eq_ignore_ascii_case(s: &str, lower: &str) -> (r: bool)
    ensures
        r == eq_ignore_ascii_case(s@, lower@),
{
    let n = s.unicode_len();
    if n != lower.unicode_len() {
        return false;
    }
    let mut i: usize = 0;
    while i < n
        invariant
            n == s@.len(),
            n == lower@.len(),
            i <= n,
            forall|j: int| 0 <= j < i ==> lower_eq_char(#[trigger] s@[j], lower@[j]),
        decreases n - i,
    {
        let a = s.get_char(i);
        let b = lower.get_char(i);
        let matches = a == b || ('A' <= a && a <= 'Z' && a as u32 + 32 == b as u32);
        if !matches {
            return false;
        }
        i += 1;
    }
    true
}

pub open spec fn contains_char(s: Seq<char>, c: char) -> bool {
    exists|i: int| 0 <= i < s.len() && s[i] == c
}

/// The part of `s` after the last occurrence of `sep`; all of `s` when
/// `sep` does not occur.
pub open spec fn after_last(s: Seq<char>, sep: char) -> Seq<char>
    decreases s.len(),
{
    if s.len() == 0 {
        s
    } else if s.last() == sep {
        Seq::empty()
    } else {
        after_last(s.drop_last(), sep).push(s.last())
    }
}

/// The part of `s` before the last occurrence of `sep`; all of `s` when
/// `sep` does not occur.
pub open spec fn before_last(s: Seq<char>, sep: char) -> Seq<char>
    decreases s.len(),
{
    if !contains_char(s, sep) {
        s
    } else if s.last() == sep {
        s.drop_last()
    } else {
        before_last(s.drop_last(), sep)
    }
}

/// If no separator occurs at or after position `k`, and `k` is either the
/// start or just past a separator, then the suffix from `k` is exactly the
/// part after the last separator.
pub proof fn lemma_after_last_subrange(s: Seq<char>, sep: char, k: int)
    requires
        0 <= k <= s.len(),
        forall|j: int| k <= j < s.len() ==> s[j] != sep,
        k == 0 || s[k - 1] == sep,
    ensures
        after_last(s, sep) == s.subrange(k, s.len() as int),
    decreases s.len(),
{
    if k == s.len() {
        if k == 0 {
            assert(after_last(s, sep) =~= s.subrange(k, s.len() as int));
        } else {
            assert(s.last() == sep);
            assert(after_last(s, sep) =~= s.subrange(k, s.len() as int));
        }
    } else {
        assert(s.last() != sep);
        lemma_after_last_subrange(s.drop_last(), sep, k);
        assert(after_last(s, sep) =~= s.subrange(k, s.len() as int));
    }
}

/// If `sep` occurs at position `m` and nowhere later, the prefix up to `m`
/// is exactly the part before the last separator.
pub proof fn lemma_before_last_subrange(s: Seq<char>, sep: char, m: int)
    requires
        0 <= m < s.len(),
        s[m] == sep,
        forall|j: int| m < j < s.len() ==> s[j] != sep,
    ensures
        before_last(s, sep) == s.subrange(0, m),
    decreases s.len(),
{
    assert(contains_char(s, sep));
    if m == s.len() - 1 {
        assert(before_last(s, sep) =~= s.subrange(0, m));
    } else {
        assert(s.last() != sep);
        lemma_before_last_subrange(s.drop_last(), sep, m);
        assert(s.drop_last().subrange(0, m) =~= s.subrange(0, m));
    }
}

/// Index of the last occurrence of `c` in `s`, if any.
pub fn last_index_of(s: &str, c: char) -> (r: Option<usize>)
    ensures
        match r {
            Some(k) => {
                &&& k < s@.len()
                &&& s@[k as int] == c
                &&& forall|j: int| k < j < s@.len() ==> s@[j] != c
            },
            None => !contains_char(s@, c),
        },
{
    let n = s.unicode_len();
    let mut best: Option<usize> = None;
    let mut i: usize = 0;
    while i < n
        invariant
            n == s@.len(),
            i <= n,
            match best {
                Some(k) => {
                    &&& k < i
                    &&& s@[k as int] == c
                    &&& forall|j: int| k < j < i ==> s@[j] != c
                },
                None => forall|j: int| 0 <= j < i ==> s@[j] != c,
            },
        decreases n - i,
    {
        if s.get_char(i) == c {
            best = Some(i);
        }
        i += 1;
    }
    best
}

} // verus!
