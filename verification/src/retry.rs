//! How long to wait before a token is requested again.
//!
//! The wait doubles with each failure up to a cap, and is spread by a random share of up to a
//! tenth to either side. It is computed in binary64 precision, each step rounded to the nearest
//! such number, and then rounded to whole nanoseconds.

use crate::binary64::{bit_length, law_nearest_is_close, law_small_integers_are_exact, lemma_bit_length_at_most, lemma_round_bounds, nearest, round_half_even, PRECISION};
use crate::decimal::nearest_of;
use vstd::arithmetic::power2::{lemma2_to64, lemma2_to64_rest, lemma_pow2_adds, lemma_pow2_pos, lemma_pow2_strictly_increases, lemma_pow2_unfold, pow2};
use vstd::prelude::*;

verus! {

/// The wait after the first failure, in seconds.
pub const MIN_RETRY_DELAY_SECS: u64 = 5;

/// The longest wait before it is spread, in seconds.
pub const MAX_RETRY_DELAY_SECS: u64 = 30;

/// The wait is spread by up to one part in this many.
pub const JITTER_PARTS: u64 = 10;

/// Nanoseconds in a second.
pub const NANOS_PER_SEC: u64 = 1_000_000_000;

/// `2^53`: what a random draw is a share of, and the scale on which the wait is computed.
pub const UNIT: u64 = 0x20_0000_0000_0000;

/// `2^52`: the draw that leaves the wait as it is.
pub const HALF: u64 = 0x10_0000_0000_0000;

/// The wait in seconds after `attempt` failures, before it is spread.
pub open spec fn capped_delay(attempt: int) -> nat
    recommends
        attempt >= 1,
{
    let doubled = MIN_RETRY_DELAY_SECS as nat * pow2((attempt - 1) as nat);
    if doubled < MAX_RETRY_DELAY_SECS {
        doubled
    } else {
        MAX_RETRY_DELAY_SECS as nat
    }
}

/// A wait of `secs` seconds, spread by the random share `draw / UNIT`, in units of `1 / UNIT`
/// seconds.
///
/// The draw is taken from `[0, 1)` to `[-1, 1)`; the share of a tenth of the wait that it gives
/// is rounded, and so is the sum.
pub open spec fn spread(secs: nat, draw: nat) -> nat {
    let tenth = 2 * secs / JITTER_PARTS as nat;
    if draw >= HALF {
        nearest(secs * UNIT as nat + nearest(tenth * (draw - HALF) as nat))
    } else {
        nearest((secs * UNIT as nat - nearest(tenth * (HALF - draw) as nat)) as nat)
    }
}

/// The wait in nanoseconds after `attempt` failures, with the random share `draw / UNIT`; never
/// less than a second.
pub open spec fn retry_delay(attempt: int, draw: nat) -> nat {
    let wait = spread(capped_delay(attempt), draw);
    let at_least = if wait < UNIT {
        UNIT as nat
    } else {
        wait
    };
    round_half_even(at_least * NANOS_PER_SEC as nat, UNIT as nat)
}

/// A number that a multiple of `64` bounds stays within it when it is rounded.
pub proof fn lemma_nearest_within(n: nat, bound: nat)
    requires
        n < pow2(59),
        bound % 64 == 0,
    ensures
        n <= bound ==> nearest(n) <= bound,
        n >= bound ==> nearest(n) >= bound,
{
    lemma_bit_length_at_most(n, 59);
    let bits = bit_length(n);
    lemma2_to64();
    lemma2_to64_rest();
    if bits <= PRECISION {
        law_small_integers_are_exact(n);
    } else {
        let unit = pow2((bits - PRECISION) as nat);
        let rest = pow2((6 - (bits - PRECISION)) as nat);
        lemma_pow2_pos((bits - PRECISION) as nat);
        lemma_pow2_adds((bits - PRECISION) as nat, (6 - (bits - PRECISION)) as nat);
        assert(unit * rest == 64);
        let steps = (bound / 64) * rest;
        assert(bound == steps * unit) by (nonlinear_arith)
            requires
                unit * rest == 64,
                bound == 64 * (bound / 64),
                steps == (bound / 64) * rest,
        ;
        assert(unit * 1 == unit);
        assert(n * 1 + 0 == n);
        lemma_round_bounds(n, unit, steps);
        let rounded = round_half_even(n, unit);
        if n <= bound {
            assert(rounded * unit <= steps * unit) by (nonlinear_arith)
                requires
                    rounded <= steps,
            ;
        }
        if n >= bound {
            assert(rounded * unit >= steps * unit) by (nonlinear_arith)
                requires
                    rounded >= steps,
            ;
        }
        assert(nearest(n) == rounded * unit);
    }
}

/// The wait is one of four.
proof fn lemma_capped_delay(attempt: int)
    requires
        attempt >= 1,
    ensures
        capped_delay(attempt) == if attempt == 1 {
            5nat
        } else if attempt == 2 {
            10
        } else if attempt == 3 {
            20
        } else {
            30
        },
{
    lemma2_to64();
    if attempt > 4 {
        lemma_pow2_strictly_increases(3, (attempt - 1) as nat);
    }
}

/// The spread wait stays within a tenth to either side.
proof fn lemma_spread_bounds(secs: nat, draw: nat)
    requires
        secs == 5 || secs == 10 || secs == 20 || secs == 30,
        draw < UNIT,
    ensures
        10 * spread(secs, draw) >= 9 * secs * UNIT,
        10 * spread(secs, draw) <= 11 * secs * UNIT,
        draw >= HALF ==> nearest((2 * secs / 10) * (draw - HALF) as nat) <= (2 * secs / 10) * HALF,
        draw < HALF ==> nearest((2 * secs / 10) * (HALF - draw) as nat) <= (2 * secs / 10) * HALF,
{
    lemma2_to64_rest();
    lemma2_to64();
    let tenth = 2 * secs / 10;
    let most = tenth * HALF as nat;
    assert(most % 64 == 0);
    if draw >= HALF {
        let share = tenth * (draw - HALF) as nat;
        assert(share <= most) by (nonlinear_arith)
            requires
                share == tenth * (draw - HALF) as nat,
                most == tenth * HALF as nat,
                HALF <= draw < UNIT,
        ;
        lemma_nearest_within(share, most);
        let sum = secs * UNIT as nat + nearest(share);
        lemma_nearest_within(sum, (secs * UNIT + most) as nat);
        lemma_nearest_within(sum, (secs * UNIT) as nat);
    } else {
        let share = tenth * (HALF - draw) as nat;
        assert(share <= most) by (nonlinear_arith)
            requires
                share == tenth * (HALF - draw) as nat,
                most == tenth * HALF as nat,
                0 <= draw < HALF,
        ;
        lemma_nearest_within(share, most);
        let sum = (secs * UNIT as nat - nearest(share)) as nat;
        lemma_nearest_within(sum, (secs * UNIT - most) as nat);
        lemma_nearest_within(sum, (secs * UNIT) as nat);
    }
}

/// The wait in seconds after `attempt` failures, before it is spread.
pub fn capped_delay_secs(attempt: i32) -> (r: u64)
    requires
        attempt >= 1,
    ensures
        r == capped_delay(attempt as int),
        5 <= r <= 30,
{
    proof {
        lemma_capped_delay(attempt as int);
        lemma2_to64();
    }
    let mut delay: u64 = MIN_RETRY_DELAY_SECS;
    let mut i: i32 = 1;
    while i < attempt && delay < MAX_RETRY_DELAY_SECS
        invariant
            1 <= i <= attempt,
            delay == MIN_RETRY_DELAY_SECS * pow2((i - 1) as nat) || delay
                >= MAX_RETRY_DELAY_SECS,
            delay < 2 * MAX_RETRY_DELAY_SECS,
            delay >= MAX_RETRY_DELAY_SECS ==> capped_delay(attempt as int) == MAX_RETRY_DELAY_SECS,
        decreases attempt - i,
    {
        proof {
            lemma_pow2_unfold(i as nat);
            lemma2_to64();
            if i + 1 < attempt {
                lemma_pow2_strictly_increases(
                    i as nat,
                    (attempt - 1) as nat,
                );
            }
        }
        delay = delay * 2;
        i = i + 1;
    }
    if delay < MAX_RETRY_DELAY_SECS {
        delay
    } else {
        MAX_RETRY_DELAY_SECS
    }
}

/// The wait in nanoseconds after `attempt` failures, with the random share `draw / UNIT`.
pub fn retry_delay_nanos(attempt: i32, draw: u64) -> (r: u64)
    requires
        attempt >= 1,
        draw < UNIT,
    ensures
        r == retry_delay(attempt as int, draw as nat),
{
    let secs: u64 = capped_delay_secs(attempt);
    proof {
        lemma_capped_delay(attempt as int);
        lemma_spread_bounds(secs as nat, draw as nat);
    }
    let tenth: u64 = 2 * secs / JITTER_PARTS;
    assert(tenth <= 6);
    let wait: u64 = if draw >= HALF {
        assert(tenth * (draw - HALF) <= 6 * HALF) by (nonlinear_arith)
            requires
                0 <= tenth <= 6,
                HALF <= draw < UNIT,
        ;
        let share: u64 = nearest_of(tenth * (draw - HALF));
        nearest_of(secs * UNIT + share)
    } else {
        assert(tenth * (HALF - draw) <= 6 * HALF) by (nonlinear_arith)
            requires
                0 <= tenth <= 6,
                0 <= draw < HALF,
        ;
        let share: u64 = nearest_of(tenth * (HALF - draw));
        nearest_of(secs * UNIT - share)
    };
    let at_least: u64 = if wait < UNIT {
        UNIT
    } else {
        wait
    };
    let scaled: u128 = at_least as u128 * NANOS_PER_SEC as u128;
    let quotient: u128 = scaled / UNIT as u128;
    let rest: u128 = scaled % UNIT as u128;
    if 2 * rest > UNIT as u128 || (2 * rest == UNIT as u128 && quotient % 2 == 1) {
        quotient as u64 + 1
    } else {
        quotient as u64
    }
}

/// Calls `rand::random` for a `u64`; nothing is said of what comes out.
#[verifier::external_body]
fn random_bits() -> (r: u64) {
    rand::random::<u64>()
}

/// Whether `bits` are random bits that a call of `rand::random` gave.
pub closed spec fn drawn(bits: u64) -> bool {
    call_ensures(random_bits, (), bits)
}

/// The draw that random bits make: as many of them as a binary64 number keeps.
pub open spec fn draw_of(bits: u64) -> nat {
    bits as nat / 2048
}

/// Draws the wait in nanoseconds after `attempt` failures.
///
/// The draw has as many random bits as a binary64 number keeps.
pub fn next_retry_delay(attempt: i32) -> (r: u64)
    requires
        attempt >= 1,
    ensures
        is_wait_after(attempt as int, r as nat),
{
    let bits: u64 = random_bits();
    let draw: u64 = bits / 2048;
    assert(drawn(bits) && draw == draw_of(bits));
    proof {
        law_delay_is_spread_by_a_tenth(attempt as int, draw as nat);
    }
    retry_delay_nanos(attempt, draw)
}

/// Whether `nanos` is `secs` seconds up to a tenth to either side.
pub open spec fn within_a_tenth(nanos: nat, secs: nat) -> bool {
    9 * secs * NANOS_PER_SEC <= 10 * nanos <= 11 * secs * NANOS_PER_SEC
}

/// Every wait is the one before it is spread, up to a tenth to either side; so it is never less
/// than four and a half seconds and never more than thirty-three.
pub proof fn law_delay_is_spread_by_a_tenth(attempt: int, draw: nat)
    requires
        attempt >= 1,
        draw < UNIT,
    ensures
        within_a_tenth(retry_delay(attempt, draw), capped_delay(attempt)),
        4_500_000_000 <= retry_delay(attempt, draw) <= 33_000_000_000,
{
    lemma_capped_delay(attempt);
    let secs = capped_delay(attempt);
    lemma_spread_bounds(secs, draw);
    let wait = spread(secs, draw);
    let n = wait * NANOS_PER_SEC as nat;
    assert((9 * secs * NANOS_PER_SEC as nat) % 10 == 0);
    lemma_round_bounds(n, UNIT as nat, 9 * secs * NANOS_PER_SEC as nat / 10);
    lemma_round_bounds(n, UNIT as nat, 11 * secs * NANOS_PER_SEC as nat / 10);
}

/// The waits before they are spread are 5, 10 and 20 seconds, and 30 from then on.
pub proof fn law_delay_doubles_up_to_the_cap(attempt: int)
    requires
        attempt >= 1,
    ensures
        capped_delay(attempt) == if attempt == 1 {
            5nat
        } else if attempt == 2 {
            10
        } else if attempt == 3 {
            20
        } else {
            30
        },
        capped_delay(attempt) <= capped_delay(attempt + 1) <= MAX_RETRY_DELAY_SECS,
{
    lemma_capped_delay(attempt);
    lemma_capped_delay(attempt + 1);
}

/// The draw in the middle leaves the wait as it is.
pub proof fn law_middle_draw_is_neutral(attempt: int)
    requires
        attempt >= 1,
    ensures
        retry_delay(attempt, HALF as nat) == capped_delay(attempt) * NANOS_PER_SEC,
{
    lemma_capped_delay(attempt);
    let secs = capped_delay(attempt);
    let tenth = 2 * secs / JITTER_PARTS as nat;
    lemma2_to64();
    lemma2_to64_rest();
    assert(tenth * 0nat == 0) by (nonlinear_arith);
    lemma_nearest_within(0, 0);
    let whole = secs * UNIT as nat;
    lemma_nearest_within(whole, whole);
    let nanos = secs * NANOS_PER_SEC as nat;
    lemma_round_bounds(whole * NANOS_PER_SEC as nat, UNIT as nat, nanos);
}

/// What the requests for one token do next.
pub enum RequestStep<T> {
    /// The token is requested after this many nanoseconds.
    RequestAfter(u64),
    /// The requests end with this token.
    Return(T),
}

/// The requests for one token: how often they have failed.
///
/// A request is repeated until it succeeds; a failure is never handed on.
pub struct TokenRequest {
    failures: i32,
}

impl TokenRequest {
    #[verifier::type_invariant]
    spec fn counts(self) -> bool {
        self.failures >= 0
    }

    /// How often the request has failed.
    pub closed spec fn failures(&self) -> int {
        self.failures as int
    }

    /// A request that has not failed yet.
    pub fn new() -> (r: Self)
        ensures
            r.failures() == 0,
    {
        Self { failures: 0 }
    }

    /// What to do first: the token is requested without a wait.
    pub fn begin<T>(&self) -> (r: RequestStep<T>)
        ensures
            r == RequestStep::<T>::RequestAfter(0),
    {
        RequestStep::RequestAfter(0)
    }

    /// Takes in the answer to a request: a token, or nothing where the request failed. The token
    /// ends the requests without a wait; after a failure they go on.
    pub fn on_answer<T>(&mut self, answer: Option<T>) -> (r: RequestStep<T>)
        ensures
            match answer {
                Some(token) => r == RequestStep::Return(token) && final(self).failures() == old(
                    self,
                ).failures(),
                None => {
                    &&& final(self).failures() == one_more_failure(old(self).failures())
                    &&& r matches RequestStep::RequestAfter(wait) && is_wait_after(
                        final(self).failures(),
                        wait as nat,
                    )
                },
            },
    {
        match answer {
            Some(token) => RequestStep::Return(token),
            None => RequestStep::RequestAfter(self.on_failure()),
        }
    }

    /// Counts a failure, up to what an `i32` holds, and draws the wait in nanoseconds before the
    /// next attempt.
    pub fn on_failure(&mut self) -> (r: u64)
        ensures
            final(self).failures() == one_more_failure(old(self).failures()),
            is_wait_after(final(self).failures(), r as nat),
    {
        proof {
            use_type_invariant(&*self);
        }
        if self.failures < i32::MAX {
            self.failures = self.failures + 1;
        }
        next_retry_delay(self.failures)
    }
}

/// The number of failures with one more, up to what an `i32` holds.
pub open spec fn one_more_failure(failures: int) -> int {
    if failures < i32::MAX {
        failures + 1
    } else {
        i32::MAX as int
    }
}

/// Whether `wait` is a wait in nanoseconds after `attempt` failures: the one for bits that were
/// drawn, and so within a tenth of the one before it is spread.
pub open spec fn is_wait_after(attempt: int, wait: nat) -> bool {
    &&& exists|bits: u64| #[trigger] drawn(bits) && wait == retry_delay(attempt, draw_of(bits))
    &&& within_a_tenth(wait, capped_delay(attempt))
}

/// Every wait after `attempt` failures, however many, is five seconds doubled with each failure
/// but the first, at most thirty, up to a tenth to either side.
pub proof fn law_waits_after_failures(attempt: int, wait: nat)
    requires
        attempt >= 1,
        is_wait_after(attempt, wait),
    ensures
        ({
            let secs = if 5 * pow2((attempt - 1) as nat) < 30 {
                5 * pow2((attempt - 1) as nat)
            } else {
                30
            };
            9 * secs * 1_000_000_000 <= 10 * wait <= 11 * secs * 1_000_000_000
        }),
{
}

/// The seconds before the wait is spread are 5, 10, 20, and then 30 for every further failure.
pub proof fn law_waits_before_they_are_spread(attempt: i32, r: u64)
    requires
        attempt >= 1,
        call_ensures(capped_delay_secs, (attempt,), r),
    ensures
        attempt == 1 ==> r == 5,
        attempt == 2 ==> r == 10,
        attempt == 3 ==> r == 20,
        attempt >= 4 ==> r == 30,
{
    lemma_capped_delay(attempt as int);
}

/// How far rounding moves a number below `2^59`.
proof fn lemma_nearest_is_near(n: nat)
    requires
        n < 0x0800_0000_0000_0000,
    ensures
        -64 <= nearest(n) - n <= 64,
{
    let form = law_nearest_is_close(n);
}

/// How far a spread wait lies from the exact one, in units of `1 / 2^53` seconds.
proof fn lemma_spread_is_even(secs: nat, draw: nat)
    requires
        secs == 5 || secs == 10 || secs == 20 || secs == 30,
        draw < UNIT,
    ensures
        -1280 <= 10 * spread(secs, draw) - secs * (9 * UNIT + 2 * draw) <= 1280,
{
    let tenth = 2 * secs / 10;
    lemma_spread_bounds(secs, draw);
    if draw >= HALF {
        let share = tenth * (draw - HALF) as nat;
        assert(share <= 6 * HALF) by (nonlinear_arith)
            requires
                share == tenth * (draw - HALF) as nat,
                tenth <= 6,
                HALF <= draw < UNIT,
        ;
        lemma_nearest_is_near(share);
        lemma_nearest_is_near(secs * UNIT as nat + nearest(share));
        assert(5 * share == secs * (draw - HALF)) by (nonlinear_arith)
            requires
                share == tenth * (draw - HALF) as nat,
                5 * tenth == secs,
                draw >= HALF,
        ;
    } else {
        let share = tenth * (HALF - draw) as nat;
        assert(share <= 6 * HALF) by (nonlinear_arith)
            requires
                share == tenth * (HALF - draw) as nat,
                tenth <= 6,
                0 <= draw < HALF,
        ;
        lemma_nearest_is_near(share);
        lemma_nearest_is_near((secs * UNIT as nat - nearest(share)) as nat);
        assert(5 * share == secs * (HALF - draw)) by (nonlinear_arith)
            requires
                share == tenth * (HALF - draw) as nat,
                5 * tenth == secs,
                draw < HALF,
        ;
    }
}

/// The wait for a draw is spread evenly over the draws: it is the seconds before it is spread,
/// times nine tenths and a fifth of the draw's share, off by less than a nanosecond.
pub proof fn law_waits_are_spread_evenly(attempt: i32, draw: u64, r: u64)
    requires
        attempt >= 1,
        draw < 0x20_0000_0000_0000,
        call_ensures(retry_delay_nanos, (attempt, draw), r),
    ensures
        ({
            let secs: int = if attempt == 1 {
                5
            } else if attempt == 2 {
                10
            } else if attempt == 3 {
                20
            } else {
                30
            };
            -0x20_0000_0000_0000 < r * 0x20_0000_0000_0000 - 100_000_000 * secs * (9
                * 0x20_0000_0000_0000 + 2 * (draw)) < 0x20_0000_0000_0000
        }),
{
    lemma_even_delay(attempt as int, draw as nat);
}

/// The wait for a draw, against the exact one.
proof fn lemma_even_delay(attempt: int, draw: nat)
    requires
        attempt >= 1,
        draw < UNIT,
    ensures
        ({
            let secs: int = if attempt == 1 {
                5
            } else if attempt == 2 {
                10
            } else if attempt == 3 {
                20
            } else {
                30
            };
            -0x20_0000_0000_0000 < retry_delay(attempt, draw) * 0x20_0000_0000_0000 - 100_000_000 * secs * (9
                * 0x20_0000_0000_0000 + 2 * (draw)) < 0x20_0000_0000_0000
        }),
        capped_delay(attempt) == if attempt == 1 {
            5nat
        } else if attempt == 2 {
            10
        } else if attempt == 3 {
            20
        } else {
            30
        },
{
    lemma_capped_delay(attempt);
    let secs = capped_delay(attempt);
    lemma_spread_bounds(secs, draw);
    lemma_spread_is_even(secs, draw);
    let wait = spread(secs, draw);
    let n = wait * NANOS_PER_SEC as nat;
    let q = n / UNIT as nat;
    let rest = n % UNIT as nat;
    assert(n == q * UNIT + rest);
    let r = round_half_even(n, UNIT as nat);
    assert(-(UNIT as int) <= 2 * (r * UNIT - n) <= UNIT);
    let share = 9 * UNIT + 2 * draw;
    assert(100_000_000 * secs as int * share == 100_000_000 * (secs * share)) by (nonlinear_arith);
}

/// Every wait that is drawn is spread evenly, by the bits that were drawn for it.
pub proof fn law_drawn_waits_are_spread_evenly(attempt: int, wait: nat) -> (bits: u64)
    requires
        attempt >= 1,
        is_wait_after(attempt, wait),
    ensures
        drawn(bits),
        ({
            let secs: int = if attempt == 1 {
                5
            } else if attempt == 2 {
                10
            } else if attempt == 3 {
                20
            } else {
                30
            };
            -0x20_0000_0000_0000 < wait * 0x20_0000_0000_0000 - 100_000_000 * secs * (9
                * 0x20_0000_0000_0000 + 2 * (bits as int / 2048)) < 0x20_0000_0000_0000
        }),
{
    let bits = choose|bits: u64| #[trigger]
        drawn(bits) && wait == retry_delay(attempt, draw_of(bits));
    lemma_even_delay(attempt, draw_of(bits));
    bits
}

/// A failure is counted once, up to what an `i32` holds.
pub proof fn law_failures_are_counted(failures: int)
    ensures
        failures < 2_147_483_647 ==> one_more_failure(failures) == failures + 1,
        failures == 2_147_483_647 ==> one_more_failure(failures) == failures,
{
}

/// A wait that is drawn is the one for the upper 53 of random bits that were given.
proof fn law_waits_come_from_the_draw(attempt: i32, r: u64) -> (bits: u64)
    requires
        attempt >= 1,
        call_ensures(next_retry_delay, (attempt,), r),
    ensures
        call_ensures(random_bits, (), bits),
        forall|wait: u64| #[trigger]
            call_ensures(retry_delay_nanos, (attempt, (bits / 2048) as u64), wait) ==> r == wait,
{
    let bits = choose|bits: u64| #[trigger]
        drawn(bits) && r == retry_delay(attempt as int, draw_of(bits));
    bits
}

} // verus!
