//! Numbers. A numeric literal is carried as its written digits, without
//! redundant zeros and always with a whole part and a fraction part. That
//! text is of the digits, not of the float that they round to: a numeral
//! of more digits than a float holds keeps them all. A runtime number is
//! the bit pattern of an IEEE 754 double-precision float: sign, order and
//! magnitude are read off the bits here; arithmetic is the host's.
use vstd::prelude::*;
use crate::text::text_of;

verus! {

/// `digits` without its leading zeros, but never shorter than one character.
pub open spec fn trim_leading_zeros(digits: Seq<char>) -> Seq<char>
    decreases digits.len(),
{
    if digits.len() > 1 && digits[0] == '0' {
        trim_leading_zeros(digits.drop_first())
    } else {
        digits
    }
}

/// `digits` without its trailing zeros, but never shorter than one character.
pub open spec fn trim_trailing_zeros(digits: Seq<char>) -> Seq<char>
    decreases digits.len(),
{
    if digits.len() > 1 && digits.last() == '0' {
        trim_trailing_zeros(digits.drop_last())
    } else {
        digits
    }
}

/// The fraction digits that a numeral displays: `0` where it has none.
pub open spec fn shown_fraction(fraction: Seq<char>) -> Seq<char> {
    if fraction.len() == 0 {
        seq!['0']
    } else {
        trim_trailing_zeros(fraction)
    }
}

/// The canonical decimal text of a numeral with the given whole and fraction
/// digits: no redundant zeros, and at least one digit after the point, so
/// that `10` reads `10.0` and `10.50` reads `10.5`. It displays the
/// digits as they were written, not the float that the host makes of
/// them: `9007199254740993` reads `9007199254740993.0`, though the
/// nearest float is 9007199254740992.
pub open spec fn canonical_number(whole: Seq<char>, fraction: Seq<char>) -> Seq<char> {
    trim_leading_zeros(whole) + seq!['.'] + shown_fraction(fraction)
}

/// The fraction digits of the numeral `source[..end]` whose whole part ends
/// at `point`: empty where the numeral stops at `point`.
pub open spec fn fraction_digits(source: Seq<char>, point: int, end: int) -> Seq<char> {
    if point < end {
        source.subrange(point + 1, end)
    } else {
        Seq::empty()
    }
}

/// The canonical decimal text of the numeral `source[start..end]`, whose
/// whole part is `source[start..point]`.
pub fn canonical_number_text(source: &Vec<char>, start: usize, point: usize, end: usize) -> (r: String)
    requires
        start < point <= end <= source.len(),
        point == end || point + 1 < end,
    ensures
        r@ == canonical_number(
            source@.subrange(start as int, point as int),
            fraction_digits(source@, point as int, end as int),
        ),
{
    let ghost whole = source@.subrange(start as int, point as int);
    let mut first: usize = start;
    while first + 1 < point && source[first] == '0'
        invariant
            start <= first < point <= source.len(),
            trim_leading_zeros(whole) == trim_leading_zeros(
                source@.subrange(first as int, point as int),
            ),
        decreases point - first,
    {
        assert(source@.subrange(first as int, point as int).drop_first() =~= source@.subrange(
            first + 1,
            point as int,
        ));
        first = first + 1;
    }
    let mut out = text_of(source, first, point);
    out.push('.');
    if point < end {
        let ghost fraction = source@.subrange(point + 1, end as int);
        let mut last: usize = end;
        while point + 2 < last && source[last - 1] == '0'
            invariant
                point + 1 < last <= end <= source.len(),
                trim_trailing_zeros(fraction) == trim_trailing_zeros(
                    source@.subrange(point + 1, last as int),
                ),
            decreases last,
        {
            assert(source@.subrange(point + 1, last as int).drop_last() =~= source@.subrange(
                point + 1,
                last - 1,
            ));
            last = last - 1;
        }
        let digits = text_of(source, point + 1, last);
        out.append(digits.as_str());
    } else {
        out.push('0');
    }
    assert(out@ =~= canonical_number(whole, fraction_digits(source@, point as int, end as int)));
    out
}

/// The sign bit of a number.
pub const SIGN: u64 = 0x8000_0000_0000_0000;

/// The bits of a number's exponent and fraction.
pub const MAGNITUDE: u64 = 0x7fff_ffff_ffff_ffff;

/// The bits of positive infinity. A larger magnitude is not a number.
pub const INFINITY: u64 = 0x7ff0_0000_0000_0000;

/// The bits of the difference between one and the next larger number,
/// which is two to the power of -52.
pub const EPSILON: u64 = 0x3cb0_0000_0000_0000;

/// The number without its sign.
pub open spec fn magnitude(bits: u64) -> u64 {
    bits & MAGNITUDE
}

/// The bits are those of no number.
pub open spec fn is_nan(bits: u64) -> bool {
    magnitude(bits) > INFINITY
}

/// The sign bit is set.
pub open spec fn is_negative(bits: u64) -> bool {
    bits & SIGN != 0
}

/// An integer that orders the numbers as their values do: the magnitude,
/// with the sign in front. Both zeros get 0.
pub open spec fn order(bits: u64) -> int {
    if is_negative(bits) {
        -(magnitude(bits) as int)
    } else {
        magnitude(bits) as int
    }
}

/// `a < b` on numbers: false where either is not a number.
pub open spec fn less(a: u64, b: u64) -> bool {
    !is_nan(a) && !is_nan(b) && order(a) < order(b)
}

/// `a <= b` on numbers: false where either is not a number.
pub open spec fn less_equal(a: u64, b: u64) -> bool {
    !is_nan(a) && !is_nan(b) && order(a) <= order(b)
}

/// `-a` on numbers: the same bits with the sign flipped.
pub open spec fn negated(bits: u64) -> u64 {
    bits ^ SIGN
}

/// Whether the absolute value of a number is below `EPSILON`. Two numbers
/// count as equal where their difference is.
pub open spec fn below_epsilon(bits: u64) -> bool {
    !is_nan(bits) && magnitude(bits) < EPSILON
}

/// `a < b` on numbers.
pub fn number_less(a: u64, b: u64) -> (r: bool)
    ensures
        r == less(a, b),
{
    let ma = a & MAGNITUDE;
    let mb = b & MAGNITUDE;
    if ma > INFINITY || mb > INFINITY {
        false
    } else if a & SIGN != 0 {
        if b & SIGN != 0 {
            ma > mb
        } else {
            ma != 0 || mb != 0
        }
    } else {
        b & SIGN == 0 && ma < mb
    }
}

/// `a <= b` on numbers.
pub fn number_less_equal(a: u64, b: u64) -> (r: bool)
    ensures
        r == less_equal(a, b),
{
    let ma = a & MAGNITUDE;
    let mb = b & MAGNITUDE;
    if ma > INFINITY || mb > INFINITY {
        false
    } else if a & SIGN != 0 {
        b & SIGN == 0 || ma >= mb
    } else if b & SIGN != 0 {
        ma == 0 && mb == 0
    } else {
        ma <= mb
    }
}

/// `-a` on numbers.
pub fn number_negated(bits: u64) -> (r: u64)
    ensures
        r == negated(bits),
{
    bits ^ SIGN
}

/// Whether the absolute value of a number is below `EPSILON`.
pub fn number_below_epsilon(bits: u64) -> (r: bool)
    ensures
        r == below_epsilon(bits),
{
    let m = bits & MAGNITUDE;
    m <= INFINITY && m < EPSILON
}

} // verus!
