//! Unsigned decimal numbers as text.

use vstd::prelude::*;
use crate::text::{append_chars, char_is_ascii_digit, is_ascii_digit};

verus! {

/// Why a piece of text is no number of the wanted size.
#[derive(Debug, Clone, Copy, PartialEq, Eq, Structural)]
pub enum NumberErr {
    /// The text is empty.
    Empty,
    /// A character that is no ASCII digit occurs in it.
    InvalidDigit,
    /// The digits stand for a number above the largest one accepted.
    PosOverflow,
}

/// The number that the digit `c` stands for.
pub open spec fn digit_value(c: char) -> int {
    c as int - 48
}

/// The digit that stands for `d`, for `d` below ten.
pub open spec fn digit_char(d: int) -> char {
    ((d + 48) as u8) as char
}

/// Whether `s` holds ASCII digits only.
pub open spec fn all_digits(s: Seq<char>) -> bool {
    forall|i: int| 0 <= i < s.len() ==> is_ascii_digit(#[trigger] s[i])
}

/// The number that a sequence of digits stands for in base ten; leading
/// zeros count for nothing, and no digits stand for zero.
pub open spec fn decimal_value(s: Seq<char>) -> int
    decreases s.len(),
{
    if s.len() == 0 {
        0
    } else {
        decimal_value(s.drop_last()) * 10 + digit_value(s.last())
    }
}

/// The number that `s` stands for, where it is a non-empty sequence of
/// digits whose value is at most `max`.
pub open spec fn parse_number(s: Seq<char>, max: int) -> Result<int, NumberErr> {
    if s.len() == 0 {
        Err(NumberErr::Empty)
    } else if !all_digits(s) {
        Err(NumberErr::InvalidDigit)
    } else if decimal_value(s) > max {
        Err(NumberErr::PosOverflow)
    } else {
        Ok(decimal_value(s))
    }
}

/// The digits of `n` in base ten, without leading zeros; `0` is one digit.
pub open spec fn decimal_digits(n: nat) -> Seq<char>
    decreases n,
{
    if n < 10 {
        seq![digit_char(n as int)]
    } else {
        decimal_digits(n / 10).push(digit_char((n % 10) as int))
    }
}

/// The digits of `n`, with a leading zero where `n` has one digit only.
pub open spec fn two_digits(n: nat) -> Seq<char> {
    if n < 10 {
        seq!['0', digit_char(n as int)]
    } else {
        decimal_digits(n)
    }
}

/// A sequence of digits stands for no less than any of its prefixes, and
/// for no negative number.
pub proof fn lemma_decimal_value_prefix(s: Seq<char>, k: int)
    requires
        all_digits(s),
        0 <= k <= s.len(),
    ensures
        0 <= decimal_value(s.take(k)) <= decimal_value(s),
    decreases s.len() - k,
{
    if k == s.len() {
        assert(s.take(k) == s);
        lemma_decimal_value_nonnegative(s);
    } else {
        lemma_decimal_value_prefix(s, k + 1);
        let t = s.take(k + 1);
        assert(t.drop_last() == s.take(k));
        assert(t.last() == s[k]);
        assert forall|i: int| 0 <= i < s.take(k).len() implies is_ascii_digit(
            #[trigger] s.take(k)[i],
        ) by {
            assert(s.take(k)[i] == s[i]);
        }
        lemma_decimal_value_nonnegative(s.take(k));
    }
}

/// A sequence of digits stands for no negative number.
pub proof fn lemma_decimal_value_nonnegative(s: Seq<char>)
    requires
        all_digits(s),
    ensures
        0 <= decimal_value(s),
    decreases s.len(),
{
    if s.len() > 0 {
        assert forall|i: int| 0 <= i < s.drop_last().len() implies is_ascii_digit(
            #[trigger] s.drop_last()[i],
        ) by {
            assert(s.drop_last()[i] == s[i]);
        }
        lemma_decimal_value_nonnegative(s.drop_last());
        assert(is_ascii_digit(s[s.len() - 1]));
    }
}

/// The digits of a number are digits, at least one of them, and stand for
/// that number.
pub proof fn lemma_decimal_digits_value(n: nat)
    ensures
        decimal_digits(n).len() >= 1,
        all_digits(decimal_digits(n)),
        decimal_value(decimal_digits(n)) == n,
        n >= 10 ==> decimal_digits(n).len() >= 2,
    decreases n,
{
    let s = decimal_digits(n);
    if n < 10 {
        assert(s.drop_last().len() == 0);
        assert(decimal_value(s.drop_last()) == 0);
        assert(s.last() == digit_char(n as int));
    } else {
        lemma_decimal_digits_value(n / 10);
        let p = decimal_digits(n / 10);
        assert(s.drop_last() == p);
        assert(s.last() == digit_char((n % 10) as int));
        assert forall|i: int| 0 <= i < s.len() implies is_ascii_digit(#[trigger] s[i]) by {
            if i < p.len() {
                assert(s[i] == p[i]);
            }
        }
    }
}

/// Two digits of a number below 256 are digits and stand for that number.
pub proof fn lemma_two_digits_value(n: nat)
    ensures
        two_digits(n).len() >= 2,
        all_digits(two_digits(n)),
        decimal_value(two_digits(n)) == n,
{
    lemma_decimal_digits_value(n);
    if n < 10 {
        let s = two_digits(n);
        let p = s.drop_last();
        assert(p.len() == 1);
        assert(p.drop_last().len() == 0);
        assert(decimal_value(p.drop_last()) == 0);
        assert(p.last() == '0');
        assert(decimal_value(p) == 0);
        assert(s.last() == digit_char(n as int));
    }
}

/// Reads `v[lo..hi]` as a number of at most `max`.
pub fn parse_decimal(v: &Vec<char>, lo: usize, hi: usize, max: u32) -> (r: Result<u32, NumberErr>)
    requires
        lo <= hi <= v.len(),
        max <= 0xFFFF,
    ensures
        match r {
            Ok(n) => parse_number(v@.subrange(lo as int, hi as int), max as int) == Ok::<
                int,
                NumberErr,
            >(n as int),
            Err(e) => parse_number(v@.subrange(lo as int, hi as int), max as int) == Err::<
                int,
                NumberErr,
            >(e),
        },
{
    let ghost s = v@.subrange(lo as int, hi as int);
    if lo == hi {
        return Err(NumberErr::Empty);
    }
    let mut i: usize = lo;
    while i < hi
        invariant
            lo <= i <= hi <= v.len(),
            s == v@.subrange(lo as int, hi as int),
            forall|k: int| 0 <= k < i - lo ==> is_ascii_digit(#[trigger] s[k]),
        decreases hi - i,
    {
        if !char_is_ascii_digit(v[i]) {
            assert(!is_ascii_digit(s[i - lo]));
            return Err(NumberErr::InvalidDigit);
        }
        i += 1;
    }
    let mut acc: u32 = 0;
    let mut j: usize = lo;
    while j < hi
        invariant
            lo <= j <= hi <= v.len(),
            s == v@.subrange(lo as int, hi as int),
            all_digits(s),
            acc == decimal_value(s.take(j - lo)),
            acc <= max <= 0xFFFF,
        decreases hi - j,
    {
        assert(is_ascii_digit(s[j - lo]) && s[j - lo] == v@[j as int]);
        let d: u32 = (v[j] as u32) - 48;
        proof {
            let t = s.take(j - lo + 1);
            assert(t.drop_last() == s.take(j - lo));
            assert(t.last() == v@[j as int]);
            lemma_decimal_value_prefix(s, j - lo + 1);
        }
        let next: u32 = acc * 10 + d;
        if next > max {
            return Err(NumberErr::PosOverflow);
        }
        acc = next;
        j += 1;
    }
    assert(s.take(hi - lo) == s);
    Ok(acc)
}

/// Appends the digits of `n` to `out`.
pub fn push_decimal(out: &mut String, n: u16)
    ensures
        final(out)@ == old(out)@ + decimal_digits(n as nat),
    decreases n,
{
    if n >= 10 {
        push_decimal(out, n / 10);
    }
    let d: u8 = (n % 10) as u8;
    let mut one: Vec<char> = Vec::new();
    one.push((d + 48) as char);
    append_chars(out, &one, 0, 1);
    proof {
        assert(one@.subrange(0, 1) == seq![digit_char((n % 10) as int)]);
        if n >= 10 {
            assert(old(out)@ + decimal_digits((n / 10) as nat) + seq![
                digit_char((n % 10) as int),
            ] == old(out)@ + decimal_digits(n as nat));
        }
    }
}

} // verus!
