//! Character-level utilities shared by the parsers: conversions between
//! `String` and `Vec<char>`, whitespace and digit classification, and
//! decimal parsing.

use vstd::prelude::*;

verus! {

/// Relies on `str::chars` and `FromIterator for Vec`: the characters of a
/// string slice, in order, which is exactly the string's view.
#[verifier::external_body]
pub fn chars_of(s: &str) -> (r: Vec<char>)
    ensures
        r@ == s@,
{
    s.chars().collect()
}

/// Relies on `FromIterator for String`: collecting characters yields the
/// string whose view is that character sequence.
#[verifier::external_body]
pub fn string_of(v: &Vec<char>) -> (r: String)
    ensures
        r@ == v@,
{
    v.iter().collect()
}

/// The whitespace characters the parsers accept: space, tab, newline,
/// carriage return, form feed and vertical tab.
pub open spec fn is_ws_char(c: char) -> bool {
    c == ' ' || c == '\t' || c == '\n' || c == '\r' || c == '\u{000c}' || c == '\u{000b}'
}

pub fn is_ws(c: char) -> (r: bool)
    ensures
        r == is_ws_char(c),
{
    c == ' ' || c == '\t' || c == '\n' || c == '\r' || c == '\u{000c}' || c == '\u{000b}'
}

pub open spec fn all_ws_seq(s: Seq<char>) -> bool {
    forall|i: int| 0 <= i < s.len() ==> is_ws_char(#[trigger] s[i])
}

/// Whether every character is whitespace.
pub fn all_ws(v: &[char]) -> (r: bool)
    ensures
        r == all_ws_seq(v@),
{
    let mut i: usize = 0;
    while i < v.len()
        invariant
            0 <= i <= v@.len(),
            forall|j: int| 0 <= j < i ==> is_ws_char(#[trigger] v@[j]),
        decreases v@.len() - i,
    {
        if !is_ws(v[i]) {
            assert(!all_ws_seq(v@));
            return false;
        }
        i = i + 1;
    }
    true
}

pub open spec fn is_digit_char(c: char) -> bool {
    '0' <= c && c <= '9'
}

pub fn is_digit(c: char) -> (r: bool)
    ensures
        r == is_digit_char(c),
{
    '0' <= c && c <= '9'
}

pub open spec fn digit_val(c: char) -> int {
    c as int - '0' as int
}

/// The value of a sequence of decimal digits, most significant first.
pub open spec fn decimal_val(s: Seq<char>) -> int
    decreases s.len(),
{
    if s.len() == 0 {
        0
    } else {
        decimal_val(s.drop_last()) * 10 + digit_val(s.last())
    }
}

pub open spec fn all_digits(s: Seq<char>) -> bool {
    forall|i: int| 0 <= i < s.len() ==> is_digit_char(#[trigger] s[i])
}

/// Parse a non-empty, all-digit sequence of characters as a `usize`,
/// failing exactly when the text is empty, holds a non-digit, or encodes
/// a value above `usize::MAX`.
pub fn parse_usize(s: &[char]) -> (r: Option<usize>)
    ensures
        match r {
            Some(n) => s@.len() > 0 && all_digits(s@) && n == decimal_val(s@),
            None => s@.len() == 0 || !all_digits(s@) || decimal_val(s@) > usize::MAX,
        },
{
    if s.len() == 0 {
        return None;
    }
    let mut acc: usize = 0;
    let mut i: usize = 0;
    while i < s.len()
        invariant
            0 <= i <= s@.len(),
            all_digits(s@.subrange(0, i as int)),
            acc == decimal_val(s@.subrange(0, i as int)),
            decimal_val(s@.subrange(0, i as int)) <= usize::MAX,
        decreases s@.len() - i,
    {
        let c = s[i];
        if !is_digit(c) {
            assert(!all_digits(s@)) by {
                assert(!is_digit_char(s@[i as int]));
            }
            return None;
        }
        let d: usize = (c as u32 as usize) - ('0' as u32 as usize);
        assert(d == digit_val(c));
        if acc > usize::MAX / 10 || (acc == usize::MAX / 10 && d > usize::MAX % 10) {
            // the value so far times ten plus the next digit overflows,
            // and later digits only grow the value further
            proof {
                if all_digits(s@) {
                    let pre = s@.subrange(0, (i + 1) as int);
                    assert(pre.drop_last() =~= s@.subrange(0, i as int));
                    assert(decimal_val(pre) > usize::MAX);
                    lemma_decimal_prefix_grows(s@, i + 1);
                }
            }
            return None;
        }
        acc = acc * 10 + d;
        proof {
            let pre = s@.subrange(0, (i + 1) as int);
            assert(pre.drop_last() =~= s@.subrange(0, i as int));
            assert(pre.last() == s@[i as int]);
        }
        i = i + 1;
    }
    proof {
        assert(s@.subrange(0, s@.len() as int) =~= s@);
    }
    Some(acc)
}

/// The value of an all-digit sequence is never negative.
proof fn lemma_decimal_nonneg(s: Seq<char>)
    requires
        all_digits(s),
    ensures
        decimal_val(s) >= 0,
    decreases s.len(),
{
    if s.len() > 0 {
        assert(all_digits(s.drop_last())) by {
            assert(forall|i: int|
                0 <= i < s.len() - 1 ==> is_digit_char(#[trigger] s.drop_last()[i]));
        }
        lemma_decimal_nonneg(s.drop_last());
        assert(is_digit_char(s.last()));
    }
}

/// Once a prefix of a digit string exceeds a bound, the whole string does:
/// appending digits cannot shrink the value.
proof fn lemma_decimal_prefix_grows(s: Seq<char>, k: int)
    requires
        0 <= k <= s.len(),
        all_digits(s),
    ensures
        decimal_val(s.subrange(0, k)) <= decimal_val(s),
    decreases s.len() - k,
{
    if k < s.len() {
        let q = s.subrange(0, k);
        let p = s.subrange(0, k + 1);
        assert(p.drop_last() =~= q);
        assert(is_digit_char(s[k]));
        assert(all_digits(q));
        lemma_decimal_nonneg(q);
        assert(decimal_val(p) == decimal_val(q) * 10 + digit_val(p.last()));
        assert(decimal_val(q) <= decimal_val(q) * 10);
        assert(decimal_val(q) <= decimal_val(p));
        lemma_decimal_prefix_grows(s, k + 1);
    } else {
        assert(s.subrange(0, k) =~= s);
    }
}

} // verus!
