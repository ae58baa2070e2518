//! Whole numbers as text.

use crate::text::{chars_of, is_digit};
use vstd::prelude::*;

verus! {

/// The number that a digit stands for.
pub open spec fn digit_value(c: char) -> int {
    c as int - '0' as int
}

/// The number that decimal digits stand for.
pub open spec fn number_of(digits: Seq<char>) -> int
    decreases digits.len(),
{
    if digits.len() == 0 {
        0
    } else {
        number_of(digits.drop_last()) * 10 + digit_value(digits.last())
    }
}

/// Whether all characters are digits.
pub open spec fn all_digits(s: Seq<char>) -> bool {
    forall|i: int| 0 <= i < s.len() ==> is_digit(#[trigger] s[i])
}

/// What is left of a text behind a leading `+`.
pub open spec fn unsigned_digits(s: Seq<char>) -> Seq<char> {
    if s.len() > 0 && s[0] == '+' {
        s.skip(1)
    } else {
        s
    }
}

/// The number up to `max` that a text is written as: decimal digits, at least one,
/// with or without a `+` in front.
pub open spec fn read_unsigned(s: Seq<char>, max: int) -> Option<int> {
    let digits = unsigned_digits(s);
    if digits.len() > 0 && all_digits(digits) && number_of(digits) <= max {
        Some(number_of(digits))
    } else {
        None
    }
}

/// More digits make no smaller number.
proof fn lemma_number_grows(digits: Seq<char>, n: int)
    requires
        all_digits(digits),
        0 <= n <= digits.len(),
    ensures
        0 <= number_of(digits.take(n)) <= number_of(digits),
    decreases digits.len(),
{
    if digits.len() == 0 {
        assert(digits.take(n) =~= digits);
    } else if n == digits.len() {
        assert(digits.take(n) =~= digits);
        lemma_number_grows(digits.drop_last(), n - 1);
        assert(is_digit(digits[n - 1]));
    } else {
        assert(digits.drop_last().take(n) =~= digits.take(n));
        lemma_number_grows(digits.drop_last(), n);
        assert(is_digit(digits[digits.len() - 1]));
    }
}

/// The number up to `max` that a text is written as.
pub fn parse_unsigned(s: &str, max: u64) -> (r: Option<u64>)
    ensures
        read_unsigned(s@, max as int) == (match r {
            Some(n) => Some(n as int),
            None => None,
        }),
{
    let chars = chars_of(s);
    let ghost digits = unsigned_digits(s@);
    let start: usize = if chars.len() > 0 && chars[0] == '+' {
        1
    } else {
        0
    };
    if start == chars.len() {
        return None;
    }
    assert(digits =~= s@.skip(start as int));
    let mut n: u64 = 0;
    let mut i: usize = start;
    while i < chars.len()
        invariant
            chars@ == s@,
            start <= i <= chars@.len(),
            start < chars@.len(),
            digits == unsigned_digits(s@),
            digits == s@.skip(start as int),
            n <= max,
            n == number_of(digits.take(i - start)),
            all_digits(digits.take(i - start)),
        decreases chars@.len() - i,
    {
        let c = chars[i];
        let ghost k = i - start;
        assert(digits[k] == c);
        assert(digits.take(k + 1).drop_last() =~= digits.take(k));
        if !('0' <= c && c <= '9') {
            assert(!is_digit(digits[k]));
            return None;
        }
        let d: u64 = (c as u32 - '0' as u32) as u64;
        assert(d == digit_value(c));
        if max < d || n > (max - d) / 10 {
            proof {
                assert(n * 10 + d > max);
                if all_digits(digits) {
                    lemma_number_grows(digits, k + 1);
                }
            }
            return None;
        }
        n = n * 10 + d;
        assert(all_digits(digits.take(k + 1))) by {
            assert forall|j: int| 0 <= j < k + 1 implies is_digit(#[trigger] digits.take(k + 1)[j]) by {
                if j < k {
                    assert(is_digit(digits.take(k)[j]));
                }
            }
        }
        i = i + 1;
    }
    assert(digits.take(i - start) =~= digits);
    Some(n)
}

/// The digit that stands for a number below ten.
pub open spec fn digit_char(d: int) -> char {
    (d + '0' as int) as char
}

/// The decimal digits of a number.
pub open spec fn digits_of(n: int) -> Seq<char>
    decreases n,
{
    if n < 10 {
        seq![digit_char(n)]
    } else {
        digits_of(n / 10).push(digit_char(n % 10))
    }
}

/// The decimal digits of a number.
pub fn decimal(n: u64) -> (s: String)
    ensures
        s@ == digits_of(n as int),
    decreases n,
{
    let mut s = if n < 10 {
        String::new()
    } else {
        decimal(n / 10)
    };
    let c: char = ((n % 10) as u8 + '0' as u8) as char;
    s.push(c);
    assert(s@ =~= digits_of(n as int));
    s
}

/// The decimal digits of a number are read as that number.
pub proof fn law_decimal_is_read_back(n: int, max: int)
    requires
        0 <= n <= max,
    ensures
        read_unsigned(digits_of(n), max) == Some(n),
{
    lemma_digits(n);
}

/// The decimal digits of a number are digits, and stand for that number.
proof fn lemma_digits(n: int)
    requires
        0 <= n,
    ensures
        digits_of(n).len() > 0,
        all_digits(digits_of(n)),
        number_of(digits_of(n)) == n,
        digits_of(n)[0] != '+',
    decreases n,
{
    if n < 10 {
        assert(digits_of(n).drop_last() =~= Seq::<char>::empty());
        reveal_with_fuel(number_of, 2);
    } else {
        lemma_digits(n / 10);
        let d = digits_of(n);
        assert(d.drop_last() =~= digits_of(n / 10));
        assert(all_digits(d)) by {
            assert forall|i: int| 0 <= i < d.len() implies is_digit(#[trigger] d[i]) by {
                if i < d.len() - 1 {
                    assert(is_digit(digits_of(n / 10)[i]));
                }
            }
        }
    }
}

} // verus!
