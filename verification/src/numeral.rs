//! Decimal numerals: the text form of a stage's numeric arguments.

use vstd::prelude::*;
use vstd::string::*;

verus! {

/// Whether `c` is one of `0` to `9`.
pub open spec fn is_digit(c: char) -> bool {
    '0' <= c <= '9'
}

/// The value of a decimal digit.
pub open spec fn digit_value(c: char) -> nat
    recommends
        is_digit(c),
{
    (c as int - '0' as int) as nat
}

/// Whether `s` holds decimal digits only.
pub open spec fn all_digits(s: Seq<char>) -> bool {
    forall|i: int| 0 <= i < s.len() ==> is_digit(#[trigger] s[i])
}

/// The number that a sequence of decimal digits writes, most significant
/// digit first; the empty sequence writes 0.
pub open spec fn decimal_value(digits: Seq<char>) -> nat
    decreases digits.len(),
{
    if digits.len() == 0 {
        0
    } else {
        decimal_value(digits.drop_last()) * 10 + digit_value(digits.last())
    }
}

/// `s` without its leading `+`, if it has one.
pub open spec fn unsigned_part(s: Seq<char>) -> Seq<char> {
    if s.len() > 0 && s[0] == '+' {
        s.skip(1)
    } else {
        s
    }
}

/// The machine-sized number that `s` writes: an optional `+`, then at least
/// one decimal digit and nothing else, with a value of at most `usize::MAX`.
/// Anything else writes no number.
pub open spec fn parse_usize(s: Seq<char>) -> Option<usize> {
    let digits = unsigned_part(s);
    if digits.len() > 0 && all_digits(digits) && decimal_value(digits) <= usize::MAX {
        Some(decimal_value(digits) as usize)
    } else {
        None
    }
}

/// Appending digits never makes the written number smaller.
pub proof fn lemma_decimal_value_grows(digits: Seq<char>, k: int)
    requires
        0 <= k <= digits.len(),
    ensures
        decimal_value(digits.take(k)) <= decimal_value(digits),
    decreases digits.len() - k,
{
    if k == digits.len() {
        assert(digits.take(k) =~= digits);
    } else {
        lemma_decimal_value_grows(digits, k + 1);
        assert(digits.take(k + 1).drop_last() =~= digits.take(k));
    }
}

/// Reads the number that `token` writes, if it writes one.
pub fn parse_usize_token(token: &str) -> (r: Option<usize>)
    ensures
        r == parse_usize(token@),
{
    if !token.is_ascii() {
        proof {
            let i = choose|i: int| 0 <= i < token@.len() && !('\0' <= #[trigger] token@[i] <= '\u{7f}');
            let digits = unsigned_part(token@);
            if digits.len() == token@.len() {
                assert(!is_digit(digits[i]));
            } else {
                assert(i != 0);
                assert(digits[i - 1] == token@[i]);
                assert(!is_digit(digits[i - 1]));
            }
        }
        return None;
    }
    proof {
        is_ascii_spec_bytes(token);
        assert(token.spec_bytes().len() == token@.len());
    }
    let n = token.as_bytes().len();
    let mut i: usize = 0;
    if n > 0 && token.get_ascii(0) == 43u8 {
        i = 1;
    }
    let ghost start = i as int;
    let ghost digits = unsigned_part(token@);
    assert(digits =~= token@.skip(start));
    if i == n {
        return None;
    }
    let mut acc: usize = 0;
    while i < n
        invariant
            token.is_ascii(),
            n == token@.len(),
            0 <= start <= i <= n,
            digits == unsigned_part(token@),
            digits =~= token@.skip(start),
            digits.len() > 0,
            all_digits(digits.take(i - start)),
            acc == decimal_value(digits.take(i - start)),
        decreases n - i,
    {
        let b = token.get_ascii(i);
        let ghost k = i - start;
        let ghost c = token@[i as int];
        assert(digits[k] == c);
        assert(digits.take(k + 1).drop_last() =~= digits.take(k));
        assert(digits.take(k + 1).last() == c);
        if b < 48u8 || b > 57u8 {
            assert(!is_digit(c));
            return None;
        }
        assert(is_digit(c));
        assert(digit_value(c) == b - 48);
        proof {
            lemma_decimal_value_grows(digits, k + 1);
        }
        let shifted = match acc.checked_mul(10) {
            Some(v) => v,
            None => {
                return None;
            },
        };
        acc = match shifted.checked_add((b - 48u8) as usize) {
            Some(v) => v,
            None => {
                return None;
            },
        };
        i = i + 1;
        assert(all_digits(digits.take(i - start))) by {
            assert forall|j: int| 0 <= j < digits.take(k + 1).len() implies is_digit(
                #[trigger] digits.take(k + 1)[j],
            ) by {
                if j < k {
                    assert(digits.take(k + 1)[j] == digits.take(k)[j]);
                }
            }
        }
    }
    assert(digits.take(i - start) =~= digits);
    Some(acc)
}

} // verus!
