//! Decimal numbers as they stand on the wire: ASCII digits, most significant
//! first, without sign or separators.

use crate::ascii::{NINE, ZERO};
use atoi::FromRadix10Checked;
use vstd::prelude::*;

verus! {

/// `b` is one of the ASCII digits `0` to `9`.
pub open spec fn is_digit(b: u8) -> bool {
    ZERO <= b <= NINE
}

/// Every byte of `s` is an ASCII digit.
pub open spec fn all_digits(s: Seq<u8>) -> bool {
    forall|i: int| 0 <= i < s.len() ==> is_digit(#[trigger] s[i])
}

/// How many digits stand at the front of `s` before the first other byte.
pub open spec fn digit_run_len(s: Seq<u8>) -> nat
    decreases s.len(),
{
    if s.len() > 0 && is_digit(s[0]) {
        1 + digit_run_len(s.drop_first())
    } else {
        0
    }
}

/// The number that the digits `s` write in base ten.
pub open spec fn decimal_value(s: Seq<u8>) -> nat
    decreases s.len(),
{
    if s.len() == 0 {
        0
    } else {
        10 * decimal_value(s.drop_last()) + (s.last() - ZERO) as nat
    }
}

/// The number written by the digits at the front of `s` (0 where there are none).
pub open spec fn leading_number(s: Seq<u8>) -> nat {
    decimal_value(s.take(digit_run_len(s) as int))
}

/// `n` as a `u32`, where it fits.
pub open spec fn checked_u32(n: nat) -> Option<u32> {
    if n <= u32::MAX {
        Some(n as u32)
    } else {
        None
    }
}

/// `n` as an `i32`, where it fits.
pub open spec fn checked_i32(n: nat) -> Option<i32> {
    if n <= i32::MAX {
        Some(n as i32)
    } else {
        None
    }
}

/// The digits of `n` in base ten, without leading zeros (`0` itself is one digit).
pub open spec fn decimal_digits(n: nat) -> Seq<u8>
    decreases n,
{
    if n < 10 {
        seq![(ZERO + n) as u8]
    } else {
        decimal_digits(n / 10).push((ZERO + n % 10) as u8)
    }
}

/// The digit run never reaches past the end of the bytes.
pub proof fn lemma_digit_run_bounded(s: Seq<u8>)
    ensures
        digit_run_len(s) <= s.len(),
    decreases s.len(),
{
    if s.len() > 0 && is_digit(s[0]) {
        lemma_digit_run_bounded(s.drop_first());
    }
}

/// Calls `<u32 as atoi::FromRadix10Checked>::from_radix_10_checked`.
///
/// Trusted: the second component counts the ASCII digits at the front of
/// `text`; the first is the number they write, or `None` where that number
/// does not fit in a `u32` (and `Some(0)` where there is no digit).
#[verifier::external_body]
pub(crate) fn u32_from_radix_10_checked(text: &[u8]) -> (r: (Option<u32>, usize))
    ensures
        r.1 == digit_run_len(text@),
        r.0 == checked_u32(leading_number(text@)),
{
    u32::from_radix_10_checked(text)
}

/// Calls `<i32 as atoi::FromRadix10Checked>::from_radix_10_checked`.
///
/// Trusted: the second component counts the ASCII digits at the front of
/// `text` (a sign is no digit); the first is the number they write, or `None`
/// where that number does not fit in an `i32` (and `Some(0)` where there is no
/// digit).
#[verifier::external_body]
pub(crate) fn i32_from_radix_10_checked(text: &[u8]) -> (r: (Option<i32>, usize))
    ensures
        r.1 == digit_run_len(text@),
        r.0 == checked_i32(leading_number(text@)),
{
    i32::from_radix_10_checked(text)
}

/// Every byte of the digits of a number is a digit.
pub proof fn lemma_decimal_digits_are_digits(n: nat)
    ensures
        decimal_digits(n).len() > 0,
        all_digits(decimal_digits(n)),
    decreases n,
{
    if n >= 10 {
        lemma_decimal_digits_are_digits(n / 10);
    }
}

/// Appends the decimal digits of `value` to `buf`.
pub fn push_decimal(buf: &mut Vec<u8>, value: u32)
    ensures
        final(buf)@ == old(buf)@ + decimal_digits(value as nat),
{
    // The digits come out least significant first.
    let mut reversed: Vec<u8> = Vec::new();
    let mut rest: u32 = value;
    let ghost mut written: Seq<u8> = Seq::empty();
    loop
        invariant_except_break
            decimal_digits(value as nat) == decimal_digits(rest as nat) + written,
        invariant
            reversed@.len() == written.len(),
            forall|i: int|
                0 <= i < written.len() ==> #[trigger] reversed@[i] == written[written.len() - 1 - i],
        ensures
            decimal_digits(value as nat) == written,
        decreases rest,
    {
        let digit: u8 = ZERO + (rest % 10) as u8;
        reversed.push(digit);
        proof {
            let longer = seq![digit] + written;
            if rest >= 10 {
                assert(decimal_digits(rest as nat) == decimal_digits(rest as nat / 10).push(digit));
                assert(decimal_digits(rest as nat) + written =~= decimal_digits(rest as nat / 10)
                    + longer);
            } else {
                assert(decimal_digits(rest as nat) + written =~= longer);
            }
            written = longer;
        }
        if rest < 10 {
            break;
        }
        rest = rest / 10;
    }
    let mut i: usize = reversed.len();
    while i > 0
        invariant
            i <= reversed@.len(),
            reversed@.len() == written.len(),
            forall|j: int|
                0 <= j < written.len() ==> #[trigger] reversed@[j] == written[written.len() - 1 - j],
            buf@ == old(buf)@ + written.take(written.len() - i),
        decreases i,
    {
        i -= 1;
        buf.push(reversed[i]);
        proof {
            let k = written.len() - i;
            assert(written.take(k) =~= written.take(k - 1).push(written[k - 1]));
            assert(buf@ =~= old(buf)@ + written.take(k));
        }
    }
    proof {
        assert(written.take(written.len() as int) =~= written);
    }
}

/// A run of digits ends where the digits end.
proof fn lemma_digit_run_of_digits(digits: Seq<u8>, rest: Seq<u8>)
    requires
        all_digits(digits),
        rest.len() == 0 || !is_digit(rest[0]),
    ensures
        digit_run_len(digits + rest) == digits.len(),
    decreases digits.len(),
{
    if digits.len() == 0 {
        assert(digits + rest =~= rest);
    } else {
        assert((digits + rest)[0] == digits[0]);
        assert((digits + rest).drop_first() =~= digits.drop_first() + rest);
        lemma_digit_run_of_digits(digits.drop_first(), rest);
    }
}

/// The digits of a number write that number.
proof fn lemma_decimal_value_of_digits(n: nat)
    ensures
        decimal_value(decimal_digits(n)) == n,
    decreases n,
{
    if n < 10 {
        let digits = decimal_digits(n);
        assert(digits.drop_last() =~= Seq::<u8>::empty());
        assert(decimal_value(digits.drop_last()) == 0);
    } else {
        let digits = decimal_digits(n);
        lemma_decimal_value_of_digits(n / 10);
        assert(digits.drop_last() =~= decimal_digits(n / 10));
        assert(digits.last() == (ZERO + n % 10) as u8);
    }
}

/// A number that was written in decimal is read back as it was.
///
/// Where the digits of `n` stand in front of `rest`, and `rest` does not go on
/// with a digit, the digits at the front are exactly those of `n`, and the
/// number they write is `n`.
pub proof fn lemma_decimal_round_trip(n: nat, rest: Seq<u8>)
    requires
        rest.len() == 0 || !is_digit(rest[0]),
    ensures
        digit_run_len(decimal_digits(n) + rest) == decimal_digits(n).len(),
        leading_number(decimal_digits(n) + rest) == n,
{
    let digits = decimal_digits(n);
    lemma_decimal_digits_are_digits(n);
    lemma_digit_run_of_digits(digits, rest);
    lemma_decimal_value_of_digits(n);
    assert((digits + rest).take(digits.len() as int) =~= digits);
}

} // verus!
