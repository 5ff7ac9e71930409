//! The frequency normaliser: where a frequency lies between 80 Hz and
//! 230 Hz on a logarithmic scale, from zero at 80 Hz to one at 230 Hz.
//!
//! The place of `n` Hz is the logarithm of `n / 80` to the base `230 / 80`.
//! It is given to the nearest thousandth, and that is decided without a
//! logarithm: the place is at least `(2k - 1) / 2000` exactly when
//! `(230 / 80)` to the power `2k - 1` is at most `(n / 80)` to the power
//! 2000, which is a comparison of whole numbers.

use vstd::prelude::*;

use crate::natural::Natural;
use crate::pattern::AHAP;
use crate::scalar::Scalar;

verus! {

/// The lowest frequency that can be normalised, in Hz.
pub const MIN_FREQUENCY: u32 = 80;

/// The highest frequency that can be normalised, in Hz.
pub const MAX_FREQUENCY: u32 = 230;

/// Why a frequency could not be normalised.
#[derive(Clone, Copy, Debug, PartialEq, Eq, Structural)]
pub enum NormalizeError {
    /// The frequency, given here, lies outside 80 Hz to 230 Hz.
    OutOfRange(u32),
    /// The normalised value came out below zero or above one.
    ComputationOutOfRange,
}

/// `n` brought into 80 Hz to 230 Hz if `clamp` is set, and `n` itself if not.
pub open spec fn clamped_frequency(n: u32, clamp: bool) -> u32 {
    if clamp && n > MAX_FREQUENCY {
        MAX_FREQUENCY
    } else if clamp && n < MIN_FREQUENCY {
        MIN_FREQUENCY
    } else {
        n
    }
}

/// `base` to the power `e`.
pub open spec fn power(base: nat, e: nat) -> nat
    decreases e,
{
    if e == 0 {
        1
    } else {
        base * power(base, (e - 1) as nat)
    }
}

/// Whether the place of `n` Hz is at least `k` thousandths less half a
/// thousandth, that is whether `(23 / 8)` to the power `2k - 1` is at most
/// `(n / 80)` to the power 2000. Both sides are multiplied by what clears
/// them of fractions.
pub open spec fn reaches(n: nat, k: nat) -> bool {
    8 * power(23, 2 * k) * power(80, 2000) <= 23 * power(8, 2 * k) * power(n, 2000)
}

/// Whether `k` thousandths is the place of `n` Hz rounded to the nearest
/// thousandth, a half going up.
pub open spec fn rounds_to(n: nat, k: nat) -> bool {
    reaches(n, k) && !reaches(n, k + 1)
}

/// A power of a positive number is positive.
pub proof fn lemma_power_positive(base: nat, e: nat)
    requires
        base >= 1,
    ensures
        power(base, e) >= 1,
    decreases e,
{
    if e > 0 {
        lemma_power_positive(base, (e - 1) as nat);
        let p = power(base, (e - 1) as nat);
        assert(base * p >= 1) by (nonlinear_arith)
            requires
                base >= 1,
                p >= 1,
        ;
    }
}

/// The larger base has the larger power.
pub proof fn lemma_power_monotone(a: nat, b: nat, e: nat)
    requires
        a <= b,
    ensures
        power(a, e) <= power(b, e),
    decreases e,
{
    if e > 0 {
        lemma_power_monotone(a, b, (e - 1) as nat);
        let p = power(a, (e - 1) as nat);
        let q = power(b, (e - 1) as nat);
        assert(a * p <= b * q) by (nonlinear_arith)
            requires
                a <= b,
                p <= q,
        ;
    }
}

/// The power of a product is the product of the powers.
pub proof fn lemma_power_product(a: nat, b: nat, e: nat)
    ensures
        power(a * b, e) == power(a, e) * power(b, e),
    decreases e,
{
    if e > 0 {
        lemma_power_product(a, b, (e - 1) as nat);
        let p = power(a, (e - 1) as nat);
        let q = power(b, (e - 1) as nat);
        assert((a * b) * (p * q) == (a * p) * (b * q)) by (nonlinear_arith);
    } else {
        assert(1 * 1 == 1);
    }
}

/// Two more factors in a power.
pub proof fn lemma_power_two_more(base: nat, e: nat)
    ensures
        power(base, e + 2) == base * base * power(base, e),
{
    let p = power(base, e);
    assert(power(base, e + 1) == base * p);
    assert(power(base, e + 2) == base * power(base, e + 1));
    assert(base * (base * p) == base * base * p) by (nonlinear_arith);
}

/// From one thousandth to the next, the lower side grows by the square of
/// 23 and the upper side by the square of 8.
pub proof fn lemma_sides_step(n: nat, k: nat)
    ensures
        8 * power(23, 2 * (k + 1)) * power(80, 2000) == 529 * (8 * power(23, 2 * k) * power(
            80,
            2000,
        )),
        23 * power(8, 2 * (k + 1)) * power(n, 2000) == 64 * (23 * power(8, 2 * k) * power(n, 2000)),
{
    lemma_power_two_more(23, 2 * k);
    lemma_power_two_more(8, 2 * k);
    let p = power(23, 2 * k);
    let q = power(8, 2 * k);
    let x = power(80, 2000);
    let y = power(n, 2000);
    assert(8 * (23 * 23 * p) * x == 529 * (8 * p * x)) by (nonlinear_arith);
    assert(23 * (8 * 8 * q) * y == 64 * (23 * q * y)) by (nonlinear_arith);
}

/// What reaches a thousandth reaches the one before.
pub proof fn lemma_reaches_before(n: nat, k: nat)
    requires
        reaches(n, k + 1),
    ensures
        reaches(n, k),
{
    lemma_sides_step(n, k);
}

/// What reaches a thousandth reaches every earlier one.
pub proof fn lemma_reaches_earlier(n: nat, j: nat, k: nat)
    requires
        j <= k,
        reaches(n, k),
    ensures
        reaches(n, j),
    decreases k - j,
{
    if j < k {
        lemma_reaches_before(n, (k - 1) as nat);
        lemma_reaches_earlier(n, j, (k - 1) as nat);
    }
}

/// A frequency has one place and no more.
pub proof fn lemma_rounds_to_unique(n: nat, j: nat, k: nat)
    requires
        rounds_to(n, j),
        rounds_to(n, k),
    ensures
        j == k,
{
    if j < k {
        lemma_reaches_earlier(n, j + 1, k);
    } else if k < j {
        lemma_reaches_earlier(n, k + 1, j);
    }
}

/// The place of a frequency from 80 Hz to 230 Hz lies between zero and one
/// thousand thousandths.
pub proof fn lemma_place_in_range(n: nat)
    requires
        80 <= n <= 230,
    ensures
        reaches(n, 0),
        !reaches(n, 1001),
{
    let x = power(80, 2000);
    let y = power(n, 2000);
    lemma_power_monotone(80, n, 2000);
    lemma_power_positive(80, 2000);
    assert(power(23, 0) == 1 && power(8, 0) == 1);
    assert(8 * 1 * x <= 23 * 1 * y) by (nonlinear_arith)
        requires
            0 <= x <= y,
    ;
    lemma_sides_step(n, 1000);
    let p = power(23, 2000);
    let q = power(8, 2000);
    lemma_power_product(23, 80, 2000);
    lemma_power_product(8, n, 2000);
    lemma_power_monotone(8 * n, 1840, 2000);
    lemma_power_positive(1840, 2000);
    assert(8 * p * x == 8 * (p * x) && 23 * q * y == 23 * (q * y)) by (nonlinear_arith);
    assert(529 * (8 * (p * x)) > 64 * (23 * (q * y))) by (nonlinear_arith)
        requires
            q * y <= p * x,
            p * x >= 1,
    ;
}

/// The place of 80 Hz is zero, and the place of 230 Hz is one.
pub proof fn lemma_place_of_the_ends()
    ensures
        rounds_to(80, 0),
        rounds_to(230, 1000),
{
    lemma_place_in_range(80);
    lemma_place_in_range(230);
    lemma_sides_step(80, 0);
    lemma_power_positive(80, 2000);
    let x = power(80, 2000);
    assert(power(23, 0) == 1 && power(8, 0) == 1);
    assert(529 * (8 * 1 * x) > 64 * (23 * 1 * x)) by (nonlinear_arith)
        requires
            x >= 1,
    ;
    let p = power(23, 2000);
    let q = power(8, 2000);
    let y = power(230, 2000);
    lemma_power_product(23, 80, 2000);
    lemma_power_product(8, 230, 2000);
    assert(8 * p * x <= 23 * q * y) by (nonlinear_arith)
        requires
            p * x == q * y,
            p * x >= 0,
    ;
}

/// A power grows at least as fast as a straight line: `a + d` to the power
/// `e` is at least `1 + e * d / a` times `a` to the power `e`.
pub proof fn lemma_power_outgrows_line(a: nat, d: nat, e: nat)
    ensures
        power(a + d, e) * a >= power(a, e) * (a + e * d),
    decreases e,
{
    if e == 0 {
        assert(1 * a >= 1 * (a + 0 * d)) by (nonlinear_arith);
    } else {
        let f = (e - 1) as nat;
        lemma_power_outgrows_line(a, d, f);
        let p = power(a + d, f);
        let q = power(a, f);
        assert(((a + d) * p) * a >= (a * q) * (a + e * d)) by (nonlinear_arith)
            requires
                p * a >= q * (a + f * d),
                e == f + 1,
        ;
    }
}

/// The higher frequency reaches what the lower one reaches.
pub proof fn lemma_reaches_higher(n: nat, m: nat, k: nat)
    requires
        n <= m,
        reaches(n, k),
    ensures
        reaches(m, k),
{
    lemma_power_monotone(n, m, 2000);
    let q = power(8, 2 * k);
    let x = power(n, 2000);
    let y = power(m, 2000);
    assert(23 * q * x <= 23 * q * y) by (nonlinear_arith)
        requires
            x <= y,
            q >= 0,
    ;
}

/// The place of the higher of two frequencies is no lower.
pub proof fn lemma_place_keeps_order(n: nat, m: nat, j: nat, k: nat)
    requires
        n <= m,
        rounds_to(n, j),
        rounds_to(m, k),
    ensures
        j <= k,
{
    if j > k {
        lemma_reaches_earlier(n, k + 1, j);
        lemma_reaches_higher(n, m, k + 1);
    }
}

/// The place of a frequency strictly between 80 Hz and 230 Hz lies
/// strictly between zero and one.
pub proof fn lemma_place_inside(n: nat, k: nat)
    requires
        80 < n < 230,
        rounds_to(n, k),
    ensures
        0 < k < 1000,
{
    // 81 Hz reaches the first thousandth, and so does every frequency above.
    lemma_power_outgrows_line(80, 1, 2000);
    lemma_power_positive(80, 2000);
    lemma_sides_step(81, 0);
    let x = power(80, 2000);
    let y = power(81, 2000);
    assert(power(23, 0) == 1 && power(8, 0) == 1);
    assert(529 * (8 * 1 * x) <= 64 * (23 * 1 * y)) by (nonlinear_arith)
        requires
            y * 80 >= x * (80 + 2000 * 1),
            x >= 1,
    ;
    lemma_reaches_higher(81, n, 1);
    // 229 Hz does not reach the last thousandth, and nor does any below.
    lemma_power_outgrows_line(1832, 8, 2000);
    lemma_power_positive(1832, 2000);
    lemma_power_product(23, 80, 2000);
    lemma_power_product(8, 229, 2000);
    let p = power(1840, 2000);
    let q = power(1832, 2000);
    assert(8 * power(23, 2000) * power(80, 2000) > 23 * power(8, 2000) * power(229, 2000))
        by (nonlinear_arith)
        requires
            power(23, 2000) * power(80, 2000) == p,
            power(8, 2000) * power(229, 2000) == q,
            p * 1832 >= q * (1832 + 2000 * 8),
            q >= 1,
    ;
    if reaches(n, 1000) {
        lemma_reaches_higher(n, 229, 1000);
    }
    if k == 0 {
        assert(reaches(n, 1));
    }
    if k >= 1000 {
        lemma_reaches_earlier(n, 1000, k);
    }
}

/// `start` times `base` to the power `e`.
fn raised(start: u32, base: u32, e: u32) -> (r: Natural)
    ensures
        r@ == start * power(base as nat, e as nat),
        r.well_formed(),
{
    let mut r = Natural::from_u32(start);
    let mut i: u32 = 0;
    assert(start * power(base as nat, 0) == start) by (nonlinear_arith)
        requires
            power(base as nat, 0) == 1,
    ;
    while i < e
        invariant
            i <= e,
            r@ == start * power(base as nat, i as nat),
            r.well_formed(),
        decreases e - i,
    {
        proof {
            let p = power(base as nat, i as nat);
            assert(power(base as nat, (i + 1) as nat) == base * p);
            assert((start * p) * base == start * (base * p)) by (nonlinear_arith);
        }
        r.scale(base);
        i = i + 1;
    }
    r
}

impl AHAP {
    /// Where `n` Hz lies between 80 Hz and 230 Hz on a logarithmic scale,
    /// from zero at 80 Hz to one at 230 Hz, to the nearest thousandth. With
    /// `normalize` set, a frequency outside that range is first moved to the
    /// nearer end of it; without, such a frequency is refused.
    pub fn freq(n: u32, normalize: bool) -> (r: Result<Scalar, NormalizeError>)
        ensures
            match r {
                Ok(place) => {
                    &&& MIN_FREQUENCY <= clamped_frequency(n, normalize) <= MAX_FREQUENCY
                    &&& 0 <= place@ <= 1_000_000
                    &&& place@ % 1000 == 0
                    &&& rounds_to(clamped_frequency(n, normalize) as nat, (place@ / 1000) as nat)
                },
                Err(e) => {
                    &&& !(MIN_FREQUENCY <= clamped_frequency(n, normalize) <= MAX_FREQUENCY)
                    &&& e == NormalizeError::OutOfRange(n)
                },
            },
    {
        let taken = if normalize && n > MAX_FREQUENCY {
            MAX_FREQUENCY
        } else if normalize && n < MIN_FREQUENCY {
            MIN_FREQUENCY
        } else {
            n
        };
        if taken < MIN_FREQUENCY || taken > MAX_FREQUENCY {
            return Err(NormalizeError::OutOfRange(taken));
        }
        proof {
            lemma_place_in_range(taken as nat);
        }
        let mut low = raised(8, 80, 2000);
        let mut high = raised(23, taken, 2000);
        proof {
            let x = power(80, 2000);
            let y = power(taken as nat, 2000);
            assert(power(23, 0) == 1 && power(8, 0) == 1);
            assert(8 * 1 * x == 8 * x && 23 * 1 * y == 23 * y) by (nonlinear_arith);
        }
        if !low.at_most(&high) {
            return Err(NormalizeError::ComputationOutOfRange);
        }
        let mut k: u32 = 0;
        while k <= 1000
            invariant
                k <= 1001,
                taken == clamped_frequency(n, normalize),
                MIN_FREQUENCY <= taken <= MAX_FREQUENCY,
                low@ == 8 * power(23, 2 * (k as nat)) * power(80, 2000),
                high@ == 23 * power(8, 2 * (k as nat)) * power(taken as nat, 2000),
                reaches(taken as nat, k as nat),
                low.well_formed(),
                high.well_formed(),
            decreases 1001 - k,
        {
            proof {
                lemma_sides_step(taken as nat, k as nat);
                let l = low@;
                let h = high@;
                assert(l * 23 * 23 == 529 * l && h * 8 * 8 == 64 * h) by (nonlinear_arith);
            }
            low.scale(23);
            low.scale(23);
            high.scale(8);
            high.scale(8);
            if !low.at_most(&high) {
                let place = Scalar { micros: (k as i64) * 1000 };
                assert(place@ / 1000 == k && place@ % 1000 == 0);
                assert(!reaches(taken as nat, (k + 1) as nat));
                return Ok(place);
            }
            k = k + 1;
        }
        Err(NormalizeError::ComputationOutOfRange)
    }
}

} // verus!
