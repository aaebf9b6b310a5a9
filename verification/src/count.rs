//! Tick counts in decimal notation.

use crate::error::ParseCause;
use vstd::prelude::*;

verus! {

/// A number of scheduler ticks.
pub type Count = u64;

/// Whether `c` is one of the ten decimal digits.
pub open spec fn is_digit(c: char) -> bool {
    0x30 <= c as u32 <= 0x39
}

/// The number that the digit `c` stands for.
pub open spec fn digit_value(c: char) -> nat
    recommends
        is_digit(c),
{
    (c as u32 - 0x30) as nat
}

/// Whether `s` holds decimal digits only.
pub open spec fn all_digits(s: Seq<char>) -> bool {
    forall|i: int| 0 <= i < s.len() ==> is_digit(#[trigger] s[i])
}

/// The number that the digits of `s` write in base ten.
pub open spec fn decimal_value(s: Seq<char>) -> nat
    recommends
        all_digits(s),
    decreases s.len(),
{
    if s.len() == 0 {
        0
    } else {
        10 * decimal_value(s.drop_last()) + digit_value(s.last())
    }
}

/// The tick count that `token` writes: it is made of decimal digits, at least
/// one, and its value fits a [`Count`]. Otherwise the reason why it writes none.
pub open spec fn count_of(token: Seq<char>) -> Result<Count, ParseCause> {
    if token.len() == 0 {
        Err(ParseCause::Empty)
    } else if !all_digits(token) {
        Err(ParseCause::InvalidDigit)
    } else if decimal_value(token) > Count::MAX {
        Err(ParseCause::Overflow)
    } else {
        Ok(decimal_value(token) as Count)
    }
}

/// A number does not shrink when digits are written after it.
pub proof fn lemma_decimal_value_prefix(s: Seq<char>, n: int)
    requires
        0 <= n <= s.len(),
    ensures
        decimal_value(s.take(n)) <= decimal_value(s),
    decreases s.len() - n,
{
    if n < s.len() {
        lemma_decimal_value_prefix(s, n + 1);
        assert(s.take(n + 1).drop_last() =~= s.take(n));
    } else {
        assert(s.take(n) =~= s);
    }
}

/// Tells whether `c` is a decimal digit.
pub fn char_is_digit(c: char) -> (b: bool)
    ensures
        b == is_digit(c),
{
    let u: u32 = c as u32;
    0x30 <= u && u <= 0x39
}

/// Reads the characters of `chars` from `from` up to `to` as a tick count.
pub fn parse_count_at(chars: &[char], from: usize, to: usize) -> (r: Result<Count, ParseCause>)
    requires
        from <= to <= chars@.len(),
    ensures
        r == count_of(chars@.subrange(from as int, to as int)),
{
    let ghost token = chars@.subrange(from as int, to as int);
    if from == to {
        return Err(ParseCause::Empty);
    }
    let mut i: usize = from;
    while i < to
        invariant
            from <= i <= to <= chars@.len(),
            token == chars@.subrange(from as int, to as int),
            forall|j: int| 0 <= j < i - from ==> is_digit(#[trigger] token[j]),
        decreases to - i,
    {
        if !char_is_digit(chars[i]) {
            assert(!is_digit(token[i - from]));
            return Err(ParseCause::InvalidDigit);
        }
        i += 1;
    }
    let mut value: Count = 0;
    let mut k: usize = from;
    while k < to
        invariant
            from <= k <= to <= chars@.len(),
            token == chars@.subrange(from as int, to as int),
            all_digits(token),
            value == decimal_value(token.take(k - from)),
        decreases to - k,
    {
        let c: char = chars[k];
        assert(is_digit(c)) by {
            assert(c == token[k - from]);
        }
        let digit: u64 = (c as u32 - 0x30) as u64;
        proof {
            assert(token.take(k - from + 1).drop_last() =~= token.take(k - from));
            lemma_decimal_value_prefix(token, k - from + 1);
        }
        if value > (Count::MAX - digit) / 10 {
            return Err(ParseCause::Overflow);
        }
        value = 10 * value + digit;
        k += 1;
    }
    assert(token.take(to - from) =~= token);
    Ok(value)
}

/// Reads `token` as a tick count.
pub fn parse_count(token: &str) -> (r: Result<Count, ParseCause>)
    ensures
        r == count_of(token@),
{
    let chars = crate::text::chars_of(token);
    let r = parse_count_at(chars.as_slice(), 0, chars.len());
    assert(chars@.subrange(0, chars@.len() as int) =~= token@);
    r
}

} // verus!
