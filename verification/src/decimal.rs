//! Decimal digit strings and the integers that binary64 arithmetic reads out of them.

use crate::binary64::{bit_length, bit_length_of, lemma_round_bounds, lemma_bit_length_bounds, lemma_round_by_parts, nearest, nearest_whole, round_half_even, PRECISION};
use vstd::arithmetic::div_mod::{lemma_fundamental_div_mod, lemma_fundamental_div_mod_converse};
use vstd::arithmetic::mul::{lemma_mul_is_associative, lemma_mul_is_commutative};
use vstd::arithmetic::power2::{lemma2_to64, lemma2_to64_rest, lemma_pow2_adds, lemma_pow2_pos, lemma_pow2_strictly_increases, lemma_pow2_unfold, pow2};
use vstd::prelude::*;

verus! {

/// Which side of a bound a value lies on.
#[derive(Clone, Copy, PartialEq, Eq, Structural)]
pub enum Side {
    /// It is less than the bound.
    Below,
    /// It is the bound.
    At,
    /// It is more than the bound.
    Above,
}

/// Every entry is a decimal digit.
pub open spec fn are_digits(digits: Seq<u8>) -> bool {
    forall|i: int| 0 <= i < digits.len() ==> #[trigger] digits[i] <= 9
}

/// The number that `digits` writes, most significant digit first.
pub open spec fn digits_value(digits: Seq<u8>) -> nat
    decreases digits.len(),
{
    if digits.len() == 0 {
        0
    } else {
        digits_value(digits.drop_last()) * 10 + digits.last() as nat
    }
}

/// `10^e`.
pub open spec fn power_of_ten(e: nat) -> nat
    decreases e,
{
    if e == 0 {
        1
    } else {
        10 * power_of_ten((e - 1) as nat)
    }
}

/// What stands before the decimal point, when `digits` has it behind its first `point` digits.
///
/// The point may lie outside the digits: zeros fill the gap.
pub open spec fn whole_part(digits: Seq<u8>, point: int) -> nat {
    if point <= 0 {
        0
    } else if point >= digits.len() {
        digits_value(digits) * power_of_ten((point - digits.len()) as nat)
    } else {
        digits_value(digits.take(point))
    }
}

/// The numerator of what stands behind the decimal point.
pub open spec fn fraction_numerator(digits: Seq<u8>, point: int) -> nat {
    if point >= digits.len() {
        0
    } else if point >= 0 {
        digits_value(digits.skip(point))
    } else {
        digits_value(digits)
    }
}

/// The denominator of what stands behind the decimal point.
pub open spec fn fraction_denominator(digits: Seq<u8>, point: int) -> nat {
    if point >= digits.len() {
        1
    } else {
        power_of_ten((digits.len() - point) as nat)
    }
}

/// A number cut to what a `u64` holds.
pub open spec fn saturated(n: nat) -> u64 {
    if n > u64::MAX {
        u64::MAX
    } else {
        n as u64
    }
}

/// The decimal number rounded to binary64, its fraction dropped, and cut to what a `u64` holds.
pub open spec fn decimal_reading(digits: Seq<u8>, point: int) -> u64 {
    saturated(
        nearest_whole(
            whole_part(digits, point),
            fraction_numerator(digits, point),
            fraction_denominator(digits, point),
        ),
    )
}

/// A power of ten is positive.
pub proof fn lemma_power_of_ten_positive(e: nat)
    ensures
        power_of_ten(e) >= 1,
    decreases e,
{
    if e > 0 {
        lemma_power_of_ten_positive((e - 1) as nat);
    }
}

/// A digit string is below the power of ten that has one digit more.
pub proof fn lemma_digits_value_bound(digits: Seq<u8>)
    requires
        are_digits(digits),
    ensures
        digits_value(digits) < power_of_ten(digits.len()),
    decreases digits.len(),
{
    if digits.len() > 0 {
        assert(are_digits(digits.drop_last()));
        assert(digits.last() <= 9);
        lemma_digits_value_bound(digits.drop_last());
    }
}

/// The first digit counts by the power of ten of the digits behind it.
pub proof fn lemma_digits_value_front(digits: Seq<u8>)
    requires
        digits.len() > 0,
    ensures
        digits_value(digits) == digits[0] * power_of_ten((digits.len() - 1) as nat) + digits_value(
            digits.skip(1),
        ),
    decreases digits.len(),
{
    if digits.len() == 1 {
        assert(digits.skip(1) =~= Seq::<u8>::empty());
        assert(digits.drop_last() =~= Seq::<u8>::empty());
        assert(digits_value(digits.drop_last()) == 0);
        assert(digits_value(digits.skip(1)) == 0);
        assert(digits[0] * power_of_ten(0) == digits[0]) by (nonlinear_arith)
            requires
                power_of_ten(0) == 1,
        ;
    } else {
        lemma_digits_value_front(digits.drop_last());
        assert(digits.drop_last().skip(1) =~= digits.skip(1).drop_last());
        assert(digits.skip(1).last() == digits.last());
        let p = power_of_ten((digits.len() - 2) as nat);
        let d = digits[0] as nat;
        assert(power_of_ten((digits.len() - 1) as nat) == 10 * p);
        assert((d * p) * 10 == d * (10 * p)) by (nonlinear_arith);
    }
}

/// How the digits from `from` on, read as a fraction, compare with `num / den`.
pub fn compare_fraction(digits: &Vec<u8>, from: usize, num: u64, den: u64) -> (side: Side)
    requires
        are_digits(digits@),
        from <= digits@.len(),
        num < den,
        den <= u64::MAX / 10,
    ensures
        side is Below <==> digits_value(digits@.skip(from as int)) * den < num * power_of_ten(
            (digits@.len() - from) as nat,
        ),
        side is Above <==> digits_value(digits@.skip(from as int)) * den > num * power_of_ten(
            (digits@.len() - from) as nat,
        ),
{
    let mut i: usize = from;
    let mut rest: u64 = num;
    let ghost left = digits_value(digits@.skip(from as int)) * den;
    let ghost right = num * power_of_ten((digits@.len() - from) as nat);
    while i < digits.len()
        invariant
            are_digits(digits@),
            from <= i <= digits@.len(),
            rest < den,
            den <= u64::MAX / 10,
            left - right == digits_value(digits@.skip(i as int)) * den - rest * power_of_ten(
                (digits@.len() - i) as nat,
            ),
            left == digits_value(digits@.skip(from as int)) * den,
            right == num * power_of_ten((digits@.len() - from) as nat),
        decreases digits@.len() - i,
    {
        let expected: u64 = rest * 10 / den;
        let next: u64 = rest * 10 % den;
        let digit: u64 = digits[i] as u64;
        proof {
            let tail = digits@.skip(i as int);
            let p = power_of_ten((digits@.len() - i - 1) as nat);
            let v = digits_value(tail.skip(1));
            assert(tail.skip(1) =~= digits@.skip(i + 1));
            assert(are_digits(tail.skip(1)));
            lemma_digits_value_front(tail);
            lemma_digits_value_bound(tail.skip(1));
            lemma_power_of_ten_positive((digits@.len() - i - 1) as nat);
            assert(power_of_ten((digits@.len() - i) as nat) == 10 * p);
            lemma_fundamental_div_mod(rest * 10, den as int);
            lemma_compare_step(digit as int, expected as int, next as int, rest as int, v as int, p as int, den as int);
        }
        if digit > expected {
            return Side::Above;
        }
        if digit < expected {
            return Side::Below;
        }
        rest = next;
        i = i + 1;
    }
    proof {
        assert(digits@.skip(i as int) =~= Seq::<u8>::empty());
        assert(digits_value(digits@.skip(i as int)) * den == 0) by (nonlinear_arith)
            requires
                digits_value(digits@.skip(i as int)) == 0,
        ;
        assert(rest * power_of_ten((digits@.len() - i) as nat) == rest) by (nonlinear_arith)
            requires
                power_of_ten((digits@.len() - i) as nat) == 1,
        ;
    }
    if rest == 0 {
        Side::At
    } else {
        Side::Below
    }
}

/// One digit of the comparison: the first digit that differs from the bound's decides, and
/// an equal digit leaves the question to the rest.
proof fn lemma_compare_step(digit: int, expected: int, next: int, rest: int, v: int, p: int, den: int)
    requires
        rest * 10 == den * expected + next,
        0 <= next < den,
        0 <= v < p,
        digit >= 0,
        expected >= 0,
    ensures
        digit == expected ==> (digit * p + v) * den - rest * (10 * p) == v * den - next * p,
        digit > expected ==> (digit * p + v) * den - rest * (10 * p) > 0,
        digit < expected ==> (digit * p + v) * den - rest * (10 * p) < 0,
{
    assert(rest * (10 * p) == (rest * 10) * p) by (nonlinear_arith);
    assert((den * expected + next) * p == expected * (den * p) + next * p) by (nonlinear_arith);
    assert((digit * p + v) * den == digit * (den * p) + v * den) by (nonlinear_arith);
    let unit = den * p;
    assert(0 <= next * p < unit) by (nonlinear_arith)
        requires
            0 <= next < den,
            0 < p,
            unit == den * p,
    ;
    assert(0 <= v * den < unit) by (nonlinear_arith)
        requires
            0 <= v < p,
            0 < den,
            unit == den * p,
    ;
    assert(digit * unit - expected * unit == (digit - expected) * unit) by (nonlinear_arith);
    if digit > expected {
        assert((digit - expected) * unit >= unit) by (nonlinear_arith)
            requires
                digit - expected >= 1,
                unit > 0,
        ;
    } else if digit < expected {
        assert((digit - expected) * unit <= -unit) by (nonlinear_arith)
            requires
                digit - expected <= -1,
                unit > 0,
        ;
    }
}

/// A whole part of at most 53 bits moves up by one exactly where the fraction is so close to
/// one that no binary64 number lies between.
pub proof fn lemma_nearest_below_precision(whole: nat, v: nat, p: nat, scale: nat)
    requires
        v < p,
        scale == 1 || (scale > 0 && scale % 2 == 0),
    ensures
        v * (2 * scale) < (2 * scale - 1) * p ==> round_half_even((whole * p + v) * scale, p)
            / scale == whole,
        v * (2 * scale) > (2 * scale - 1) * p ==> round_half_even((whole * p + v) * scale, p)
            / scale == whole + 1,
        v * (2 * scale) == (2 * scale - 1) * p ==> round_half_even((whole * p + v) * scale, p)
            / scale == if scale > 1 || whole % 2 == 1 {
            whole + 1
        } else {
            whole
        },
{
    let n = (whole * p + v) * scale;
    let a = v * scale;
    let q0 = a / p;
    let r0 = a % p;
    lemma_fundamental_div_mod(a as int, p as int);
    assert(a == q0 * p + r0) by {
        lemma_mul_is_commutative(p as int, q0 as int);
    }
    let base = whole * scale;
    assert(n == base * p + a) by (nonlinear_arith)
        requires
            n == (whole * p + v) * scale,
            base == whole * scale,
            a == v * scale,
    ;
    assert((base + q0) * p == base * p + q0 * p) by (nonlinear_arith);
    lemma_round_by_parts(n, p, base + q0, r0);
    assert(v * (2 * scale) == 2 * a) by (nonlinear_arith)
        requires
            a == v * scale,
    ;
    assert((2 * scale - 1) * p == 2 * (scale * p) - p) by (nonlinear_arith);
    assert(a < scale * p) by (nonlinear_arith)
        requires
            a == v * scale,
            v < p,
            scale > 0,
    ;
    assert(q0 < scale) by (nonlinear_arith)
        requires
            q0 * p + r0 < scale * p,
            p > 0,
            r0 >= 0,
    ;
    let rounded = round_half_even(n, p);
    if q0 == scale - 1 {
        assert(q0 * p == scale * p - p) by (nonlinear_arith)
            requires
                q0 == scale - 1,
        ;
        assert(base + q0 + 1 == (whole + 1) * scale) by (nonlinear_arith)
            requires
                base == whole * scale,
                q0 == scale - 1,
        ;
        if scale > 1 {
            assert((base + q0) % 2 == 1) by {
                let half = scale / 2;
                assert(base == 2 * (whole * half)) by (nonlinear_arith)
                    requires
                        base == whole * scale,
                        scale == 2 * half,
                ;
            }
        } else {
            assert(base == whole) by (nonlinear_arith)
                requires
                    base == whole * scale,
                    scale == 1,
            ;
        }
    } else {
        assert((q0 + 2) * p <= scale * p) by (nonlinear_arith)
            requires
                q0 + 2 <= scale,
                p > 0,
        ;
        assert((q0 + 2) * p == q0 * p + 2 * p) by (nonlinear_arith);
    }
    if rounded == base + q0 {
        lemma_fundamental_div_mod_converse(rounded as int, scale as int, whole as int, q0 as int);
    } else if q0 == scale - 1 {
        lemma_fundamental_div_mod_converse(rounded as int, scale as int, whole as int + 1, 0);
    } else {
        lemma_fundamental_div_mod_converse(rounded as int, scale as int, whole as int, q0 as int + 1);
    }
}

/// A whole part of more than 53 bits is rounded to a multiple of `unit`; the fraction only
/// tells a tie from what lies above it.
proof fn lemma_nearest_above_precision(whole: nat, v: nat, p: nat, unit: nat)
    requires
        v < p,
        unit > 0,
        unit % 2 == 0,
    ensures
        round_half_even(whole * p + v, unit * p) == if whole % unit > unit / 2 || (whole % unit
            == unit / 2 && (v > 0 || (whole / unit) % 2 == 1)) {
            whole / unit + 1
        } else {
            whole / unit
        },
{
    let q = whole / unit;
    let r = whole % unit;
    let half = unit / 2;
    lemma_fundamental_div_mod(whole as int, unit as int);
    lemma_mul_is_commutative(unit as int, q as int);
    let d = unit * p;
    let rest = r * p + v;
    assert(whole * p + v == q * d + rest) by (nonlinear_arith)
        requires
            whole == q * unit + r,
            d == unit * p,
            rest == r * p + v,
    ;
    assert((r + 1) * p <= unit * p) by (nonlinear_arith)
        requires
            r + 1 <= unit,
            p > 0,
    ;
    assert((r + 1) * p == r * p + p) by (nonlinear_arith);
    assert(d > 0) by (nonlinear_arith)
        requires
            d == unit * p,
            unit > 0,
            p > 0,
    ;
    lemma_round_by_parts(whole * p + v, d, q, rest);
    assert(d == 2 * (half * p)) by (nonlinear_arith)
        requires
            d == unit * p,
            unit == 2 * half,
    ;
    if r < half {
        assert((r + 1) * p <= half * p) by (nonlinear_arith)
            requires
                r + 1 <= half,
                p > 0,
        ;
    } else if r > half {
        assert((half + 1) * p <= r * p) by (nonlinear_arith)
            requires
                half + 1 <= r,
                p > 0,
        ;
        assert((half + 1) * p == half * p + p) by (nonlinear_arith);
    }
}

/// `2^e`, for an exponent that a `u64` has room for.
fn power_of_two(e: u32) -> (r: u64)
    requires
        e < 64,
    ensures
        r == pow2(e as nat),
{
    let mut r: u64 = 1;
    let mut i: u32 = 0;
    proof {
        lemma2_to64();
        lemma2_to64_rest();
    }
    while i < e
        invariant
            i <= e,
            e < 64,
            r == pow2(i as nat),
        decreases e - i,
    {
        proof {
            lemma2_to64();
            lemma2_to64_rest();
            lemma_pow2_unfold((i + 1) as nat);
            if i + 1 < 63 {
                lemma_pow2_strictly_increases((i + 1) as nat, 63);
            }
        }
        r = r * 2;
        i = i + 1;
    }
    r
}

/// The whole number that binary64 reads out of `whole` with the digits from `from` on as its
/// fraction.
pub fn nearest_whole_of(whole: u64, digits: &Vec<u8>, from: usize) -> (r: u64)
    requires
        are_digits(digits@),
        from <= digits@.len(),
    ensures
        r == saturated(
            nearest_whole(
                whole as nat,
                digits_value(digits@.skip(from as int)),
                power_of_ten((digits@.len() - from) as nat),
            ),
        ),
{
    let bits: u32 = bit_length_of(whole);
    let ghost tail = digits@.skip(from as int);
    let ghost v = digits_value(tail);
    let ghost p = power_of_ten((digits@.len() - from) as nat);
    proof {
        assert(are_digits(tail));
        lemma_digits_value_bound(tail);
        lemma2_to64();
        lemma2_to64_rest();
        lemma_bit_length_bounds(whole as nat);
    }
    if bits <= PRECISION {
        let scale: u64 = power_of_two(PRECISION - bits);
        proof {
            lemma_pow2_pos((PRECISION - bits) as nat);
            if bits < PRECISION {
                lemma_pow2_unfold((PRECISION - bits) as nat);
                if bits > 0 {
                    lemma_pow2_strictly_increases((PRECISION - bits) as nat, 53);
                }
            }
            if bits < PRECISION {
                lemma_pow2_strictly_increases(bits as nat, 53);
            }
            lemma_nearest_below_precision(whole as nat, v, p, scale as nat);
        }
        let side = compare_fraction(digits, from, 2 * scale - 1, 2 * scale);
        let up: bool = match side {
            Side::Above => true,
            Side::At => scale > 1 || whole % 2 == 1,
            Side::Below => false,
        };
        if up {
            whole + 1
        } else {
            whole
        }
    } else {
        let unit: u64 = power_of_two(bits - PRECISION);
        proof {
            lemma_pow2_pos((bits - PRECISION - 1) as nat);
            lemma_pow2_unfold((bits - PRECISION) as nat);
            lemma_nearest_above_precision(whole as nat, v, p, unit as nat);
        }
        let positive = compare_fraction(digits, from, 0, 1) == Side::Above;
        let quotient: u64 = whole / unit;
        let rest: u64 = whole % unit;
        let up: bool = rest > unit / 2 || (rest == unit / 2 && (positive || quotient % 2 == 1));
        assert(quotient <= u64::MAX / 2) by (nonlinear_arith)
            requires
                unit >= 2,
                quotient == whole as nat / unit as nat,
        ;
        let steps: u64 = if up {
            quotient + 1
        } else {
            quotient
        };
        assert(steps * unit <= u64::MAX * u64::MAX) by (nonlinear_arith)
            requires
                0 <= steps <= u64::MAX,
                0 <= unit <= u64::MAX,
        ;
        let rounded: u128 = steps as u128 * unit as u128;
        if rounded > u64::MAX as u128 {
            u64::MAX
        } else {
            rounded as u64
        }
    }
}

/// A larger exponent gives a larger power of ten.
pub proof fn lemma_power_of_ten_increases(a: nat, b: nat)
    requires
        a <= b,
    ensures
        power_of_ten(a) <= power_of_ten(b),
    decreases b,
{
    if a < b {
        lemma_power_of_ten_increases(a, (b - 1) as nat);
    }
}

/// More digits of one string never write a smaller number.
pub proof fn lemma_digits_value_grows(digits: Seq<u8>, a: int, b: int)
    requires
        0 <= a <= b <= digits.len(),
    ensures
        digits_value(digits.take(a)) <= digits_value(digits.take(b)),
    decreases b - a,
{
    if a < b {
        lemma_digits_value_grows(digits, a, b - 1);
        assert(digits.take(b).drop_last() =~= digits.take(b - 1));
    }
}

/// What is too large for a `u64` stays so when it is rounded.
pub proof fn lemma_nearest_large(whole: nat, num: nat, den: nat)
    requires
        whole > u64::MAX,
        num < den,
    ensures
        nearest_whole(whole, num, den) > u64::MAX,
{
    lemma2_to64();
    lemma_bit_length_bounds(whole);
    let bits = bit_length(whole);
    if bits <= 64 {
        if bits < 64 {
            lemma_pow2_strictly_increases(bits, 64);
        }
    }
    let unit = pow2((bits - 53) as nat);
    let top = pow2((bits - 1) as nat);
    lemma_pow2_adds(52, (bits - 53) as nat);
    assert((52 + (bits - 53)) as nat == (bits - 1) as nat);
    assert(pow2(52) * unit == top);
    lemma_pow2_pos((bits - 53) as nat);
    assert(unit * den > 0) by (nonlinear_arith)
        requires
            unit > 0,
            den > 0,
    ;
    assert(pow2(52) * (unit * den) == top * den) by {
        lemma_mul_is_associative(pow2(52) as int, unit as int, den as int);
    }
    assert(top * den <= whole * den) by (nonlinear_arith)
        requires
            top <= whole,
    ;
    lemma_round_bounds(whole * den + num, unit * den, pow2(52));
    let rounded = round_half_even(whole * den + num, unit * den);
    assert(rounded * unit >= pow2(52) * unit) by (nonlinear_arith)
        requires
            rounded >= pow2(52),
    ;
    if bits > 65 {
        lemma_pow2_strictly_increases(64, (bits - 1) as nat);
    }
}

/// What is at most one tenth has no whole part when it is rounded.
proof fn lemma_nearest_tiny(num: nat, den: nat)
    requires
        den > 0,
        10 * num <= den,
    ensures
        nearest_whole(0, num, den) == 0,
{
    let scale = pow2(53);
    lemma2_to64();
    lemma2_to64_rest();
    let half = scale / 2;
    assert(0 * den + num == num);
    assert(num * scale <= half * den) by (nonlinear_arith)
        requires
            10 * num <= den,
            scale == 2 * half,
    ;
    lemma_round_bounds(num * scale, den, half);
    let rounded = round_half_even(num * scale, den);
    assert(rounded / scale == 0) by (nonlinear_arith)
        requires
            0 <= rounded < scale,
    ;
    assert(bit_length(0) == 0);
    assert((0 * den + num) * scale == num * scale);
}

/// The decimal point in front of the first digit by a place or more leaves nothing.
proof fn lemma_point_before(digits: Seq<u8>, point: int)
    requires
        are_digits(digits),
        point < 0,
    ensures
        decimal_reading(digits, point) == 0,
{
    let n = digits.len();
    lemma_digits_value_bound(digits);
    lemma_power_of_ten_increases((n + 1) as nat, (n - point) as nat);
    assert(power_of_ten((n + 1) as nat) == 10 * power_of_ten(n));
    lemma_power_of_ten_positive(n);
    lemma_nearest_tiny(digits_value(digits), power_of_ten((n - point) as nat));
}

/// The decimal point so far behind the last digit that the number is too large or zero.
proof fn lemma_point_behind(digits: Seq<u8>, point: int)
    requires
        point >= digits.len() + 20,
    ensures
        decimal_reading(digits, point) == if digits_value(digits) == 0 {
            0u64
        } else {
            u64::MAX
        },
{
    let v = digits_value(digits);
    let e = (point - digits.len()) as nat;
    let p = power_of_ten(e);
    if v == 0 {
        assert(v * p == 0) by (nonlinear_arith)
            requires
                v == 0,
        ;
        lemma_nearest_tiny(0, 1);
    } else {
        lemma_power_of_ten_increases(20, e);
        assert(power_of_ten(20) == 100_000_000_000_000_000_000) by {
            reveal_with_fuel(power_of_ten, 21);
        }
        assert(v * p >= p) by (nonlinear_arith)
            requires
                v >= 1,
                p >= 0,
        ;
        lemma_nearest_large(v * p, 0, 1);
    }
}

/// Two decimal points that are both far out on the same side read alike.
pub proof fn lemma_far_point(digits: Seq<u8>, a: int, b: int)
    requires
        are_digits(digits),
        (a < 0 && b < 0) || (a >= digits.len() + 20 && b >= digits.len() + 20),
    ensures
        decimal_reading(digits, a) == decimal_reading(digits, b),
{
    if a < 0 {
        lemma_point_before(digits, a);
        lemma_point_before(digits, b);
    } else {
        lemma_point_behind(digits, a);
        lemma_point_behind(digits, b);
    }
}

/// Reads a decimal number whose point stands behind its first `point` digits.
pub fn read_decimal(digits: &Vec<u8>, point: i128) -> (r: u64)
    requires
        are_digits(digits@),
    ensures
        r == decimal_reading(digits@, point as int),
{
    if point < 0 {
        proof {
            lemma_point_before(digits@, point as int);
        }
        return 0;
    }
    let mut whole: u128 = 0;
    let mut i: usize = 0;
    while i < digits.len() && (i as i128) < point
        invariant
            are_digits(digits@),
            i <= digits@.len(),
            i <= point,
            whole == digits_value(digits@.take(i as int)),
            whole <= u64::MAX,
        decreases digits@.len() - i,
    {
        whole = whole * 10 + digits[i] as u128;
        i = i + 1;
        proof {
            assert(digits@.take(i as int).drop_last() =~= digits@.take(i - 1));
        }
        if whole > u64::MAX as u128 {
            proof {
                let n = digits@.len() as int;
                let end = if point < n {
                    point as int
                } else {
                    n
                };
                lemma_digits_value_grows(digits@, i as int, end);
                assert(digits@.take(n) =~= digits@);
                let w = whole_part(digits@, point as int);
                if point >= n {
                    let p = power_of_ten((point - n) as nat);
                    lemma_power_of_ten_positive((point - n) as nat);
                    assert(digits_value(digits@) * p >= digits_value(digits@)) by (nonlinear_arith)
                        requires
                            p >= 1,
                    ;
                } else {
                    let tail = digits@.skip(point as int);
                    assert(are_digits(tail));
                    lemma_digits_value_bound(tail);
                }
                lemma_nearest_large(
                    w,
                    fraction_numerator(digits@, point as int),
                    fraction_denominator(digits@, point as int),
                );
            }
            return u64::MAX;
        }
    }
    let mut zeros: i128 = point - i as i128;
    proof {
        if i == digits@.len() {
            assert(digits@.take(i as int) =~= digits@);
        }
    }
    proof {
        assert(zeros == 0 ==> whole * power_of_ten(zeros as nat) == whole) by (nonlinear_arith)
            requires
                zeros == 0 ==> power_of_ten(zeros as nat) == 1,
        ;
        assert(digits@.take(0) =~= Seq::<u8>::empty());
    }
    let ghost total = (whole as nat) * power_of_ten(zeros as nat);
    while zeros > 0 && whole > 0
        invariant
            0 <= zeros,
            whole <= u64::MAX,
            total == whole * power_of_ten(zeros as nat),
            total == whole_part(digits@, point as int),
            zeros > 0 ==> i == digits@.len(),
            i < digits@.len() ==> i == point,
            are_digits(digits@),
            i <= digits@.len(),
            i <= point,
        decreases zeros,
    {
        proof {
            let p = power_of_ten((zeros - 1) as nat);
            assert(power_of_ten(zeros as nat) == 10 * p);
            assert(whole * (10 * p) == (whole * 10) * p) by (nonlinear_arith);
            lemma_power_of_ten_positive((zeros - 1) as nat);
            assert((whole * 10) * p >= whole * 10) by (nonlinear_arith)
                requires
                    p >= 1,
            ;
        }
        whole = whole * 10;
        zeros = zeros - 1;
        if whole > u64::MAX as u128 {
            proof {
                lemma_nearest_large(total, 0, 1);
            }
            return u64::MAX;
        }
    }
    proof {
        assert(whole == total) by (nonlinear_arith)
            requires
                total == whole * power_of_ten(zeros as nat),
                whole == 0 || power_of_ten(zeros as nat) == 1,
        ;
        if i == digits@.len() {
            assert(digits@.skip(i as int) =~= Seq::<u8>::empty());
        }
    }
    nearest_whole_of(whole as u64, digits, i)
}

/// The binary64 number nearest to `n`.
pub fn nearest_of(n: u64) -> (r: u64)
    ensures
        r == saturated(nearest(n as nat)),
{
    let none: Vec<u8> = Vec::new();
    assert(none@.skip(0) =~= Seq::<u8>::empty());
    nearest_whole_of(n, &none, 0)
}

} // verus!
