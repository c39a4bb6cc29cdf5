//! Fixed-point scalars with four decimal places, saturating arithmetic and an
//! exact decimal rendering.
//!
//! Every coordinate, advance and length of the layout engine is a `Fixed`.
//! Sums and differences saturate at the ends of the range instead of wrapping,
//! so no operation of the engine can overflow.

use vstd::prelude::*;

verus! {

/// A coordinate or length counted in 1/10000ths of a unit (a pixel in screen
/// space, a design unit in font space).
pub type Fixed = i64;

/// The fixed-point value of one whole unit.
pub const ONE: i64 = 10000;

/// Number of decimal places of a fixed-point value.
pub const FRACTION_DIGITS: u32 = 4;

/// Clamps a mathematical integer into the range of `Fixed`.
pub open spec fn clamp(v: int) -> int {
    if v < i64::MIN {
        i64::MIN as int
    } else if v > i64::MAX {
        i64::MAX as int
    } else {
        v
    }
}

/// The saturating sum `a + b`.
pub open spec fn add_spec(a: int, b: int) -> int {
    clamp(a + b)
}

/// The saturating difference `a - b`.
pub open spec fn sub_spec(a: int, b: int) -> int {
    clamp(a - b)
}

/// `v * num / den`, rounded to the nearest integer, halves away from zero.
pub open spec fn scale_spec(v: int, num: int, den: int) -> int {
    if v >= 0 {
        (v * num + den / 2) / den
    } else {
        -((-v * num + den / 2) / den)
    }
}

/// Saturating sum of two fixed-point values.
pub fn sat_add(a: Fixed, b: Fixed) -> (r: Fixed)
    ensures
        r == add_spec(a as int, b as int),
{
    if b > 0 && a > i64::MAX - b {
        i64::MAX
    } else if b < 0 && a < i64::MIN - b {
        i64::MIN
    } else {
        a + b
    }
}

/// Saturating difference of two fixed-point values.
pub fn sat_sub(a: Fixed, b: Fixed) -> (r: Fixed)
    ensures
        r == sub_spec(a as int, b as int),
{
    if b < 0 && a > i64::MAX + b {
        i64::MAX
    } else if b > 0 && a < i64::MIN + b {
        i64::MIN
    } else {
        a - b
    }
}

/// The fixed-point value of a whole number of units.
pub fn from_int(v: i32) -> (r: Fixed)
    ensures
        r == v * ONE,
{
    (v as i64) * ONE
}

/// Multiplies `v` by the ratio `num / den`, rounding to the nearest
/// fixed-point value and saturating at the ends of the range.
pub fn scale(v: Fixed, num: u64, den: u64) -> (r: Fixed)
    requires
        den > 0,
    ensures
        r == clamp(scale_spec(v as int, num as int, den as int)),
{
    let negative = v < 0;
    let magnitude: u128 = if negative {
        (-(v as i128)) as u128
    } else {
        v as u128
    };
    assert(magnitude * (num as u128) <= 0x8000_0000_0000_0000 * 0xffff_ffff_ffff_ffff)
        by (nonlinear_arith)
        requires
            magnitude <= 0x8000_0000_0000_0000,
            num <= 0xffff_ffff_ffff_ffff,
    ;
    let product: u128 = magnitude * (num as u128);
    let quotient: u128 = (product + (den as u128) / 2) / (den as u128);
    if negative {
        if quotient >= 0x8000_0000_0000_0000 {
            i64::MIN
        } else {
            -(quotient as i64)
        }
    } else {
        if quotient > 0x7fff_ffff_ffff_ffff {
            i64::MAX
        } else {
            quotient as i64
        }
    }
}

/// The decimal digit character of `d`, for `0 <= d <= 9`.
pub open spec fn digit_char(d: int) -> char {
    if d == 0 {
        '0'
    } else if d == 1 {
        '1'
    } else if d == 2 {
        '2'
    } else if d == 3 {
        '3'
    } else if d == 4 {
        '4'
    } else if d == 5 {
        '5'
    } else if d == 6 {
        '6'
    } else if d == 7 {
        '7'
    } else if d == 8 {
        '8'
    } else {
        '9'
    }
}

/// The decimal numeral of a natural number, without leading zeros.
pub open spec fn nat_text(n: nat) -> Seq<char>
    decreases n,
{
    if n < 10 {
        seq![digit_char(n as int)]
    } else {
        nat_text(n / 10).push(digit_char((n % 10) as int))
    }
}

/// The digits after the decimal point of `rem / 10000`, by long division: at
/// most `places` of them, ending with the last digit that is not zero.
pub open spec fn fraction_text(rem: nat, places: nat) -> Seq<char>
    decreases places,
{
    if rem == 0 || places == 0 {
        Seq::<char>::empty()
    } else {
        seq![digit_char((rem * 10 / ONE as nat) as int)] + fraction_text(
            (rem * 10 % ONE as nat) as nat,
            (places - 1) as nat,
        )
    }
}

/// The decimal numeral of `magnitude / 10000`: the whole part, then a point
/// and the fraction digits unless the value is whole.
pub open spec fn magnitude_text(magnitude: nat) -> Seq<char> {
    if magnitude % (ONE as nat) == 0 {
        nat_text(magnitude / ONE as nat)
    } else {
        nat_text(magnitude / ONE as nat) + seq!['.'] + fraction_text(
            magnitude % (ONE as nat),
            FRACTION_DIGITS as nat,
        )
    }
}

/// The decimal numeral of the fixed-point value `v`: `-` for a negative
/// value, then the numeral of its magnitude. The numeral is exact.
pub open spec fn fixed_text(v: int) -> Seq<char> {
    if v < 0 {
        seq!['-'] + magnitude_text((-v) as nat)
    } else {
        magnitude_text(v as nat)
    }
}

fn digit_str(d: u64) -> (r: &'static str)
    requires
        d < 10,
    ensures
        r@ == seq![digit_char(d as int)],
{
    proof {
        reveal_strlit("0");
        reveal_strlit("1");
        reveal_strlit("2");
        reveal_strlit("3");
        reveal_strlit("4");
        reveal_strlit("5");
        reveal_strlit("6");
        reveal_strlit("7");
        reveal_strlit("8");
        reveal_strlit("9");
    }
    let r = if d == 0 {
        "0"
    } else if d == 1 {
        "1"
    } else if d == 2 {
        "2"
    } else if d == 3 {
        "3"
    } else if d == 4 {
        "4"
    } else if d == 5 {
        "5"
    } else if d == 6 {
        "6"
    } else if d == 7 {
        "7"
    } else if d == 8 {
        "8"
    } else {
        "9"
    };
    assert(r@ =~= seq![digit_char(d as int)]);
    r
}

/// Appends the decimal numeral of `n` to `out`.
pub fn push_nat(out: &mut String, n: u64)
    ensures
        final(out)@ == old(out)@ + nat_text(n as nat),
    decreases n,
{
    if n >= 10 {
        push_nat(out, n / 10);
    }
    out.append(digit_str(n % 10));
    assert(out@ =~= old(out)@ + nat_text(n as nat));
}

/// Appends the fraction digits of `rem / 10000` to `out`.
fn push_fraction(out: &mut String, rem: u64)
    requires
        rem < ONE,
    ensures
        final(out)@ == old(out)@ + fraction_text(rem as nat, FRACTION_DIGITS as nat),
{
    let mut rest: u64 = rem;
    let mut places: u32 = FRACTION_DIGITS;
    while rest != 0 && places > 0
        invariant
            rest < ONE,
            places <= FRACTION_DIGITS,
            out@ + fraction_text(rest as nat, places as nat) == old(out)@ + fraction_text(
                rem as nat,
                FRACTION_DIGITS as nat,
            ),
        decreases places,
    {
        let ghost before = out@;
        let digit: u64 = rest * 10 / (ONE as u64);
        out.append(digit_str(digit));
        rest = rest * 10 % (ONE as u64);
        places = places - 1;
        assert(out@ + fraction_text(rest as nat, places as nat) =~= before + (seq![
            digit_char(digit as int),
        ] + fraction_text(rest as nat, places as nat)));
    }
    assert(out@ + Seq::<char>::empty() =~= out@);
}

/// Appends the decimal numeral of the fixed-point value `v` to `out`.
pub fn push_fixed(out: &mut String, v: Fixed)
    ensures
        final(out)@ == old(out)@ + fixed_text(v as int),
{
    let magnitude: u64 = if v < 0 {
        out.append("-");
        (-(v as i128)) as u64
    } else {
        v as u64
    };
    let ghost signed = out@;
    proof {
        reveal_strlit("-");
        reveal_strlit(".");
        if v < 0 {
            assert(signed =~= old(out)@ + seq!['-']);
        }
    }
    push_nat(out, magnitude / (ONE as u64));
    let rem: u64 = magnitude % (ONE as u64);
    if rem != 0 {
        out.append(".");
        push_fraction(out, rem);
    }
    assert(out@ =~= signed + magnitude_text(magnitude as nat));
    assert(out@ =~= old(out)@ + fixed_text(v as int));
}

/// The value of a decimal digit character: what `digit_char` makes the
/// character of.
pub open spec fn digit_value(c: char) -> int {
    if c == '0' {
        0
    } else if c == '1' {
        1
    } else if c == '2' {
        2
    } else if c == '3' {
        3
    } else if c == '4' {
        4
    } else if c == '5' {
        5
    } else if c == '6' {
        6
    } else if c == '7' {
        7
    } else if c == '8' {
        8
    } else {
        9
    }
}

/// The number that a string of decimal digits denotes.
pub open spec fn digits_value(digits: Seq<char>) -> int
    decreases digits.len(),
{
    if digits.len() == 0 {
        0
    } else {
        digits_value(digits.drop_last()) * 10 + digit_value(digits.last())
    }
}

/// The number of 1/10000ths that a string of fraction digits denotes, where
/// its first digit counts `weight` of them and each further digit a tenth of
/// the digit before it.
pub open spec fn fraction_value(digits: Seq<char>, weight: int) -> int
    decreases digits.len(),
{
    if digits.len() == 0 {
        0
    } else {
        digit_value(digits[0]) * weight + fraction_value(digits.drop_first(), weight / 10)
    }
}

proof fn lemma_nat_text_value(n: nat)
    ensures
        digits_value(nat_text(n)) == n,
    decreases n,
{
    if n < 10 {
        assert(nat_text(n).drop_last() =~= Seq::<char>::empty());
        assert(digits_value(nat_text(n).drop_last()) == 0);
    } else {
        lemma_nat_text_value(n / 10);
        assert(nat_text(n).drop_last() =~= nat_text(n / 10));
    }
}

/// One step of the long division: the first digit counts its weight, and
/// the digits of the remainder follow with a tenth of it.
proof fn lemma_fraction_step(rem: nat, places: nat, weight: int)
    requires
        0 < rem < 10000,
        places > 0,
    ensures
        fraction_value(fraction_text(rem, places), weight) == (rem * 10 / 10000) * weight
            + fraction_value(
            fraction_text((rem * 10 % 10000) as nat, (places - 1) as nat),
            weight / 10,
        ),
{
    let digit = (rem * 10 / 10000) as int;
    let tail = fraction_text((rem * 10 % 10000) as nat, (places - 1) as nat);
    let text = fraction_text(rem, places);
    assert(text =~= seq![digit_char(digit)] + tail);
    assert(text.drop_first() =~= tail);
    assert(digit_value(text[0]) == digit);
}

proof fn lemma_last_place(rem: nat, thousands: nat)
    requires
        rem < 10000,
        rem == 1000 * thousands,
    ensures
        fraction_value(fraction_text(rem, 1), 1) == thousands,
{
    if rem > 0 {
        lemma_fraction_step(rem, 1, 1);
    }
}

proof fn lemma_last_two_places(rem: nat, hundreds: nat)
    requires
        rem < 10000,
        rem == 100 * hundreds,
    ensures
        fraction_value(fraction_text(rem, 2), 10) == hundreds,
{
    if rem > 0 {
        lemma_fraction_step(rem, 2, 10);
        lemma_last_place((rem * 10 % 10000) as nat, hundreds % 10);
    }
}

proof fn lemma_last_three_places(rem: nat, tens: nat)
    requires
        rem < 10000,
        rem == 10 * tens,
    ensures
        fraction_value(fraction_text(rem, 3), 100) == tens,
{
    if rem > 0 {
        lemma_fraction_step(rem, 3, 100);
        lemma_last_two_places((rem * 10 % 10000) as nat, tens % 100);
    }
}

proof fn lemma_fraction_text_value(rem: nat)
    requires
        rem < 10000,
    ensures
        fraction_value(fraction_text(rem, 4), 1000) == rem,
{
    if rem > 0 {
        lemma_fraction_step(rem, 4, 1000);
        lemma_last_three_places((rem * 10 % 10000) as nat, rem % 1000);
    }
}

/// A numeral is exact: the digits of its whole part and its fraction digits
/// denote the magnitude that it was made of.
pub proof fn lemma_numeral_is_exact(magnitude: nat)
    ensures
        digits_value(nat_text(magnitude / 10000)) * 10000 + fraction_value(
            fraction_text(magnitude % 10000, 4),
            1000,
        ) == magnitude,
{
    lemma_nat_text_value(magnitude / 10000);
    lemma_fraction_text_value(magnitude % 10000);
}

} // verus!
