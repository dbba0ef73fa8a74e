//! Decimal notation for natural numbers, as bencode and the tracker query
//! write them: ASCII digits, most significant first.

use vstd::prelude::*;

verus! {

/// Whether `b` is an ASCII decimal digit.
pub open spec fn is_digit(b: u8) -> bool {
    0x30 <= b <= 0x39
}

/// The number that the digit `b` stands for.
pub open spec fn digit_value(b: u8) -> nat {
    (b - 0x30) as nat
}

/// The ASCII digit that stands for `d`, for `d` below ten.
pub open spec fn digit_byte(d: nat) -> u8 {
    (0x30 + d) as u8
}

/// Whether every byte of `s` is a decimal digit.
pub open spec fn all_digits(s: Seq<u8>) -> bool {
    forall|i: int| 0 <= i < s.len() ==> is_digit(#[trigger] s[i])
}

/// The number written by the digit string `digits`. Leading zeros are
/// allowed and the empty string counts as zero.
pub open spec fn decimal_value(digits: Seq<u8>) -> nat
    decreases digits.len(),
{
    if digits.len() == 0 {
        0
    } else {
        decimal_value(digits.drop_last()) * 10 + digit_value(digits.last())
    }
}

/// The shortest digit string that writes `n`: no leading zero, except for
/// zero itself, which is written `0`.
pub open spec fn decimal_digits(n: nat) -> Seq<u8>
    decreases n,
{
    if n < 10 {
        seq![digit_byte(n)]
    } else {
        decimal_digits(n / 10).push(digit_byte(n % 10))
    }
}

/// The first position at or after `pos` that holds no digit (the length of
/// `s` if the digits run to its end).
pub open spec fn digits_end(s: Seq<u8>, pos: int) -> int
    decreases s.len() - pos,
{
    if 0 <= pos < s.len() && is_digit(s[pos]) {
        digits_end(s, pos + 1)
    } else {
        pos
    }
}

/// `decimal_digits(n)` is a non-empty string of digits that writes `n`.
pub proof fn lemma_decimal_digits(n: nat)
    ensures
        decimal_digits(n).len() >= 1,
        all_digits(decimal_digits(n)),
        decimal_value(decimal_digits(n)) == n,
    decreases n,
{
    if n < 10 {
        let d = decimal_digits(n);
        assert(d.drop_last() =~= Seq::<u8>::empty());
        assert(decimal_value(d.drop_last()) == 0);
    } else {
        lemma_decimal_digits(n / 10);
        let d = decimal_digits(n);
        let head = decimal_digits(n / 10);
        assert(d.drop_last() =~= head);
        assert(d.last() == digit_byte(n % 10));
    }
}

/// A run of digits that starts at `pos` and is followed by a non-digit, or
/// by the end of `s`, ends exactly there.
pub proof fn lemma_digits_end(s: Seq<u8>, pos: int, end: int)
    requires
        0 <= pos <= end <= s.len(),
        forall|i: int| pos <= i < end ==> is_digit(#[trigger] s[i]),
        end < s.len() ==> !is_digit(s[end]),
    ensures
        digits_end(s, pos) == end,
    decreases end - pos,
{
    if pos < end {
        lemma_digits_end(s, pos + 1, end);
    }
}

/// Appends the decimal notation of `n` to `out`.
pub fn push_decimal(out: &mut Vec<u8>, n: u128)
    ensures
        final(out)@ == old(out)@ + decimal_digits(n as nat),
    decreases n,
{
    if n >= 10 {
        push_decimal(out, n / 10);
    }
    out.push(0x30 + (n % 10) as u8);
    assert(final(out)@ =~= old(out)@ + decimal_digits(n as nat)) by {
        if n >= 10 {
            assert(old(out)@ + decimal_digits((n / 10) as nat).push(digit_byte((n % 10) as nat))
                =~= (old(out)@ + decimal_digits((n / 10) as nat)).push(
                digit_byte((n % 10) as nat),
            ));
        }
    }
}

/// Reads the run of digits that starts at `start`. Returns where the run
/// ends and the number it writes, or `None` for the number if it does not
/// fit in 64 bits.
pub fn scan_decimal(bytes: &[u8], start: usize) -> (r: (usize, Option<u64>))
    requires
        start <= bytes.len(),
    ensures
        r.0 == digits_end(bytes@, start as int),
        start <= r.0 <= bytes.len(),
        r.1 == if decimal_value(bytes@.subrange(start as int, r.0 as int)) <= u64::MAX {
            Some(decimal_value(bytes@.subrange(start as int, r.0 as int)) as u64)
        } else {
            None::<u64>
        },
{
    let mut pos: usize = start;
    let mut value: u64 = 0;
    let mut fits: bool = true;
    assert(bytes@.subrange(start as int, start as int) =~= Seq::<u8>::empty());
    while pos < bytes.len() && byte_is_digit(bytes[pos])
        invariant
            start <= pos <= bytes.len(),
            digits_end(bytes@, start as int) == digits_end(bytes@, pos as int),
            fits ==> value == decimal_value(bytes@.subrange(start as int, pos as int)),
            !fits ==> decimal_value(bytes@.subrange(start as int, pos as int)) > u64::MAX,
        decreases bytes.len() - pos,
    {
        let digit: u64 = (bytes[pos] - 0x30) as u64;
        proof {
            let longer = bytes@.subrange(start as int, pos + 1);
            assert(longer.drop_last() =~= bytes@.subrange(start as int, pos as int));
            assert(longer.last() == bytes@[pos as int]);
        }
        if fits && value <= (u64::MAX - digit) / 10 {
            value = value * 10 + digit;
        } else {
            fits = false;
        }
        pos = pos + 1;
    }
    if fits {
        (pos, Some(value))
    } else {
        (pos, None)
    }
}

/// Tells whether a byte is an ASCII decimal digit.
pub fn byte_is_digit(b: u8) -> (r: bool)
    ensures
        r == is_digit(b),
{
    0x30 <= b && b <= 0x39
}

} // verus!
