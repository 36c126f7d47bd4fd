//! Rounding to binary64 precision, carried out on integers.
//!
//! A binary64 number keeps 53 significant bits; a value that needs more is rounded to the
//! nearest one that does not, and a value half way between two goes to the one whose last bit
//! is zero.

use vstd::arithmetic::div_mod::{lemma_div_multiples_vanish, lemma_fundamental_div_mod, lemma_fundamental_div_mod_converse};
use vstd::arithmetic::mul::{lemma_mul_inequality, lemma_mul_is_commutative, lemma_mul_is_distributive_add};
use vstd::arithmetic::power2::{lemma2_to64, lemma2_to64_rest, lemma_pow2_adds, lemma_pow2_pos, lemma_pow2_strictly_increases, lemma_pow2_unfold, pow2};
use vstd::prelude::*;

verus! {

/// The number of significant bits of a binary64 number.
pub const PRECISION: u32 = 53;

/// How many binary digits `n` has; none for zero.
pub open spec fn bit_length(n: nat) -> nat
    decreases n,
{
    if n == 0 {
        0
    } else {
        1 + bit_length(n / 2)
    }
}

/// The integer nearest to `n / d`, and of two equally near ones the even one.
pub open spec fn round_half_even(n: nat, d: nat) -> nat
    recommends
        d > 0,
{
    let q = n / d;
    let r = n % d;
    if 2 * r > d || (2 * r == d && q % 2 == 1) {
        q + 1
    } else {
        q
    }
}

/// The integer part of the binary64 number nearest to `whole + num / den`.
///
/// Where `whole` fills the 53 bits, the nearest number is a multiple of a power of two; else
/// the bits that `whole` leaves free go to the fraction. A value below one half keeps more bits
/// than that, but neither way does its integer part leave zero.
pub open spec fn nearest_whole(whole: nat, num: nat, den: nat) -> nat
    recommends
        num < den,
{
    let bits = bit_length(whole);
    if bits <= PRECISION {
        let scale = pow2((PRECISION - bits) as nat);
        round_half_even((whole * den + num) * scale, den) / scale
    } else {
        let unit = pow2((bits - PRECISION) as nat);
        round_half_even(whole * den + num, unit * den) * unit
    }
}

/// The binary64 number nearest to the integer `n`.
pub open spec fn nearest(n: nat) -> nat {
    nearest_whole(n, 0, 1)
}

/// A positive number of `bit_length` bits lies between two powers of two.
pub proof fn lemma_bit_length_bounds(n: nat)
    ensures
        n < pow2(bit_length(n)),
        n > 0 ==> bit_length(n) >= 1 && pow2((bit_length(n) - 1) as nat) <= n,
    decreases n,
{
    lemma_pow2_pos(bit_length(n));
    if n > 0 {
        lemma_bit_length_bounds(n / 2);
        lemma_pow2_unfold(bit_length(n));
        if n / 2 > 0 {
            lemma_pow2_unfold((bit_length(n) - 1) as nat);
        } else {
            lemma2_to64();
        }
    }
}

/// A number below `2^k` has at most `k` bits.
pub proof fn lemma_bit_length_at_most(n: nat, k: nat)
    requires
        n < pow2(k),
    ensures
        bit_length(n) <= k,
{
    lemma_bit_length_bounds(n);
    let b = bit_length(n);
    if b > k && k < b - 1 {
        lemma_pow2_strictly_increases(k, (b - 1) as nat);
    }
}

/// What a quotient and a remainder make of the rounding.
pub proof fn lemma_round_by_parts(n: nat, d: nat, q: nat, r: nat)
    requires
        d > 0,
        n == q * d + r,
        r < d,
    ensures
        round_half_even(n, d) == if 2 * r > d || (2 * r == d && q % 2 == 1) {
            q + 1
        } else {
            q
        },
{
    lemma_fundamental_div_mod_converse(n as int, d as int, q as int, r as int);
}

/// Rounding does not pass an integer: what is at most (at least) `b` rounds to at most
/// (at least) `b`.
pub proof fn lemma_round_bounds(n: nat, d: nat, b: nat)
    requires
        d > 0,
    ensures
        n <= b * d ==> round_half_even(n, d) <= b,
        n >= b * d ==> round_half_even(n, d) >= b,
{
    let q = n / d;
    let r = n % d;
    lemma_fundamental_div_mod(n as int, d as int);
    lemma_mul_is_commutative(d as int, q as int);
    assert(n == q * d + r);
    if n <= b * d {
        if q > b {
            lemma_mul_inequality(b as int + 1, q as int, d as int);
            lemma_mul_is_distributive_add(d as int, b as int, 1);
            lemma_mul_is_commutative(d as int, b as int + 1);
            lemma_mul_is_commutative(d as int, b as int);
        }
    }
    if n >= b * d {
        if q < b {
            lemma_mul_inequality(q as int + 1, b as int, d as int);
            lemma_mul_is_distributive_add(d as int, q as int, 1);
            lemma_mul_is_commutative(d as int, q as int + 1);
            lemma_mul_is_commutative(d as int, q as int);
        }
    }
}

/// The length of `n`.
pub fn bit_length_of(n: u64) -> (bits: u32)
    ensures
        bits == bit_length(n as nat),
        bits <= 64,
{
    let mut rest: u64 = n;
    let mut bits: u32 = 0;
    proof {
        lemma2_to64();
        lemma_bit_length_at_most(n as nat, 64);
    }
    while rest > 0
        invariant
            bits + bit_length(rest as nat) == bit_length(n as nat),
            bit_length(n as nat) <= 64,
        decreases rest,
    {
        rest = rest / 2;
        bits = bits + 1;
    }
    bits
}

/// An integer of at most 53 bits is a binary64 number.
pub proof fn law_small_integers_are_exact(n: nat)
    requires
        bit_length(n) <= PRECISION,
    ensures
        nearest(n) == n,
{
    let scale = pow2((PRECISION - bit_length(n)) as nat);
    lemma_pow2_pos((PRECISION - bit_length(n)) as nat);
    assert((n * 1 + 0) * scale == n * scale);
    lemma_round_by_parts(n * scale, 1, n * scale, 0);
    assert(n * scale == scale * n) by (nonlinear_arith);
    lemma_div_multiples_vanish(n as int, scale as int);
}

/// The nearest binary64 number to an integer is off by no more than one part in `2^53`. It is a
/// number of 53 bits, or `2^53` itself, times a power of two that leaves the integer no fewer
/// bits than these; it is off by no more than half that power, and where it is off by just that
/// it is an even multiple.
pub proof fn law_nearest_is_close(n: nat) -> (form: (nat, nat))
    ensures
        0x20_0000_0000_0000 * (nearest(n) - n) <= n,
        0x20_0000_0000_0000 * (n - nearest(n)) <= n,
        nearest(n) == form.0 * pow2(form.1),
        form.0 <= 0x20_0000_0000_0000,
        form.1 > 0 ==> 0x10_0000_0000_0000 * pow2(form.1) <= n,
        form.1 > 0 ==> 2 * (nearest(n) - n) <= pow2(form.1) && 2 * (n - nearest(n)) <= pow2(form.1),
        form.1 > 0 && (2 * (nearest(n) - n) == pow2(form.1) || 2 * (n - nearest(n)) == pow2(form.1))
            ==> form.0 % 2 == 0,
        form.1 == 0 ==> nearest(n) == n,
{
    let bits = bit_length(n);
    lemma_bit_length_bounds(n);
    lemma2_to64();
    lemma2_to64_rest();
    if bits <= PRECISION {
        law_small_integers_are_exact(n);
        if bits < PRECISION {
            lemma_pow2_strictly_increases(bits, 53);
        }
        assert(n * pow2(0) == n) by (nonlinear_arith)
            requires
                pow2(0) == 1,
        ;
        (n, 0)
    } else {
        let e = (bits - PRECISION) as nat;
        let unit = pow2(e);
        lemma_pow2_pos(e);
        let q = n / unit;
        let r = n % unit;
        lemma_fundamental_div_mod(n as int, unit as int);
        lemma_mul_is_commutative(unit as int, q as int);
        assert(n * 1 + 0 == n);
        assert(unit * 1 == unit);
        let rounded = round_half_even(n, unit);
        assert(nearest(n) == rounded * unit);
        assert((q + 1) * unit == q * unit + unit) by (nonlinear_arith);
        assert(2 * (nearest(n) - n) <= unit && 2 * (n - nearest(n)) <= unit);
        lemma_pow2_adds(52, e);
        assert((52 + e) as nat == (bits - 1) as nat);
        assert(pow2(52) * unit <= n);
        lemma_pow2_adds(53, e);
        assert((53 + e) as nat == bits);
        assert(n < pow2(53) * unit);
        assert(q < pow2(53)) by (nonlinear_arith)
            requires
                q * unit <= n,
                n < pow2(53) * unit,
                unit > 0,
        ;
        assert(0x10_0000_0000_0000 * unit <= n) by (nonlinear_arith)
            requires
                pow2(52) * unit <= n,
                pow2(52) == 0x10_0000_0000_0000,
        ;
        (rounded, e)
    }
}

} // verus!
