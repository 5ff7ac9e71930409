//! Linear ramps of control points, rounded to three decimals.

use vstd::arithmetic::div_mod::{lemma_fundamental_div_mod, lemma_fundamental_div_mod_converse};
use vstd::prelude::*;

use crate::pattern::{HapticCurve, AHAP};
use crate::scalar::{lemma_round_bounds, lemma_round_split, round_half_away, Scalar};

verus! {

/// The largest magnitude, in millionths, that rounding to three decimals
/// cannot carry past the range of a [`Scalar`].
pub const ROUNDING_LIMIT: i64 = 9_223_372_036_854_775_000;

/// A count of millionths rounded to three decimals, that is to the nearest
/// multiple of one thousand millionths.
pub open spec fn round3(micros: int) -> int {
    1000 * round_half_away(micros, 1000)
}

/// Point `i` of `count` on the straight line that starts at `from` and
/// reaches `to` at point `count`, rounded to three decimals:
/// `round3(from + (to - from) / count * i)`, all in millionths and with
/// the division exact.
pub open spec fn ramp_value(from: int, to: int, count: int, i: int) -> int {
    1000 * round_half_away(from * count + (to - from) * i, 1000 * count)
}

/// Whether rounding `s` to three decimals stays in range.
pub open spec fn roundable(s: Scalar) -> bool {
    -ROUNDING_LIMIT <= s@ <= ROUNDING_LIMIT
}

/// Rounding keeps the order of what it rounds.
pub proof fn lemma_round_monotone(a: int, b: int, den: int)
    requires
        den > 0,
        a <= b,
    ensures
        round_half_away(a, den) <= round_half_away(b, den),
{
    let ra = round_half_away(a, den);
    let rb = round_half_away(b, den);
    lemma_round_bounds(a, den);
    lemma_round_bounds(b, den);
    if ra > rb {
        assert(den * ra >= den * rb + den) by (nonlinear_arith)
            requires
                den > 0,
                ra >= rb + 1,
        ;
    }
}

/// Two quantities that lie at least one whole apart round to different
/// integers, in the same order.
pub proof fn lemma_round_separates(a: int, b: int, den: int)
    requires
        den > 0,
        a + den <= b,
    ensures
        round_half_away(a, den) < round_half_away(b, den),
{
    let ra = round_half_away(a, den);
    let rb = round_half_away(b, den);
    lemma_round_bounds(a, den);
    lemma_round_bounds(b, den);
    if ra >= rb {
        assert(den * ra >= den * rb) by (nonlinear_arith)
            requires
                den > 0,
                ra >= rb,
        ;
    }
}

/// On a ramp that does not descend, no point lies below an earlier one.
pub proof fn lemma_ramp_nondecreasing(from: int, to: int, count: int, i: int, j: int)
    requires
        1 <= i <= j <= count,
        from <= to,
    ensures
        ramp_value(from, to, count, i) <= ramp_value(from, to, count, j),
{
    assert((to - from) * i <= (to - from) * j) by (nonlinear_arith)
        requires
            from <= to,
            i <= j,
    ;
    lemma_round_monotone(from * count + (to - from) * i, from * count + (to - from) * j, 1000 * count);
}

/// On a ramp whose step from one point to the next is at least one
/// thousandth, every point lies strictly above the earlier ones. In
/// particular the times of a curve are strictly increasing when the end time
/// is later than the start time by at least `count` thousandths.
pub proof fn lemma_ramp_increasing(from: int, to: int, count: int, i: int, j: int)
    requires
        1 <= i < j <= count,
        to - from >= 1000 * count,
    ensures
        ramp_value(from, to, count, i) < ramp_value(from, to, count, j),
{
    assert((to - from) * i + 1000 * count <= (to - from) * j) by (nonlinear_arith)
        requires
            to - from >= 1000 * count,
            count >= 1,
            i + 1 <= j,
    ;
    lemma_round_separates(
        from * count + (to - from) * i,
        from * count + (to - from) * j,
        1000 * count,
    );
}

/// The last point of a ramp is the end of the line, rounded to three
/// decimals; where the end has no more than three decimals, it is the end.
pub proof fn lemma_ramp_reaches_end(from: int, to: int, count: int)
    requires
        count >= 1,
    ensures
        ramp_value(from, to, count, count) == round3(to),
        to % 1000 == 0 ==> ramp_value(from, to, count, count) == to,
{
    assert(from * count + (to - from) * count == to * count) by (nonlinear_arith);
    let x = if to >= 0 { 2 * to + 1000 } else { 1000 - 2 * to };
    let q = x / 2000;
    let r = x % 2000;
    lemma_fundamental_div_mod(x, 2000);
    assert(x * count == q * (2 * (1000 * count)) + r * count && 0 <= r * count < 2 * (1000
        * count)) by (nonlinear_arith)
        requires
            x == 2000 * q + r,
            0 <= r < 2000,
            count >= 1,
    ;
    lemma_fundamental_div_mod_converse(x * count, 2 * (1000 * count), q, r * count);
    if to >= 0 {
        assert(2 * (to * count) + 1000 * count == x * count) by (nonlinear_arith)
            requires
                x == 2 * to + 1000,
        ;
        assert(to * count >= 0) by (nonlinear_arith)
            requires
                to >= 0,
                count >= 1,
        ;
    } else {
        assert(1000 * count - 2 * (to * count) == x * count) by (nonlinear_arith)
            requires
                x == 1000 - 2 * to,
        ;
        assert(to * count < 0) by (nonlinear_arith)
            requires
                to < 0,
                count >= 1,
        ;
    }
    assert(round_half_away(to * count, 1000 * count) == round_half_away(to, 1000));
    if to % 1000 == 0 {
        lemma_fundamental_div_mod(to, 1000);
        let k = to / 1000;
        if to >= 0 {
            lemma_fundamental_div_mod_converse(2 * to + 1000, 2000, k, 1000);
        } else {
            lemma_fundamental_div_mod_converse(1000 - 2 * to, 2000, -k, 1000);
        }
    }
}

/// Point `i` of the ramp from `from` to `to`, in millionths.
fn ramp_step(from: i64, to: i64, count: usize, i: usize) -> (r: i64)
    requires
        1 <= i <= count,
        -ROUNDING_LIMIT <= from <= ROUNDING_LIMIT,
        -ROUNDING_LIMIT <= to <= ROUNDING_LIMIT,
    ensures
        r == ramp_value(from as int, to as int, count as int, i as int),
        -ROUNDING_LIMIT <= r <= ROUNDING_LIMIT,
{
    let n: i128 = count as i128;
    let k: i128 = i as i128;
    let rest: i128 = n - k;
    proof {
        let limit = ROUNDING_LIMIT as int;
        assert(-(limit * rest) <= from * rest <= limit * rest && -(limit * k) <= to * k <= limit
            * k) by (nonlinear_arith)
            requires
                rest >= 0,
                k >= 0,
                -limit <= from <= limit,
                -limit <= to <= limit,
        ;
        assert(from * rest + to * k == from * n + (to - from) * k && limit * rest + limit * k
            == limit * n) by (nonlinear_arith)
            requires
                n == rest + k,
        ;
        assert(limit * rest <= limit * n <= i128::MAX && limit * k <= limit * n) by (nonlinear_arith)
            requires
                0 <= rest <= n,
                0 <= k <= n,
                n <= 0xFFFF_FFFF_FFFF_FFFF,
                limit == 9_223_372_036_854_775_000,
        ;
    }
    let num: i128 = (from as i128) * rest + (to as i128) * k;
    let den: u128 = 1000 * (count as u128);
    let negative = num < 0;
    let mag: u128 = if negative {
        (-num) as u128
    } else {
        num as u128
    };
    let q: u128 = mag / den;
    let rem: u128 = mag % den;
    let up = 2 * rem >= den;
    proof {
        lemma_fundamental_div_mod(mag as int, den as int);
        assert(q <= 9_223_372_036_854_775 && (q == 9_223_372_036_854_775 ==> rem == 0))
            by (nonlinear_arith)
            requires
                mag == den * q + rem,
                0 <= rem < den,
                mag <= 9_223_372_036_854_775_000 * n,
                den == 1000 * n,
        ;
        lemma_round_split(q as int, rem as int, den as int);
        assert(q * den + rem == mag) by (nonlinear_arith)
            requires
                mag == den * q + rem,
        ;
    }
    let t: u128 = if up {
        q + 1
    } else {
        q
    };
    let m: i64 = (t * 1000) as i64;
    if negative {
        -m
    } else {
        m
    }
}

impl Scalar {
    /// The scalar rounded to three decimals, a half going away from zero.
    pub fn round3(self) -> (r: Scalar)
        requires
            roundable(self),
        ensures
            r@ == round3(self@),
            roundable(r),
    {
        let negative = self.micros < 0;
        let mag: u64 = if negative {
            (-self.micros) as u64
        } else {
            self.micros as u64
        };
        let q: u64 = mag / 1000;
        let rem: u64 = mag % 1000;
        proof {
            lemma_fundamental_div_mod(mag as int, 1000);
            lemma_round_split(q as int, rem as int, 1000);
        }
        let t: u64 = if rem >= 500 {
            q + 1
        } else {
            q
        };
        let m: i64 = (t * 1000) as i64;
        if negative {
            Scalar { micros: -m }
        } else {
            Scalar { micros: m }
        }
    }
}

impl AHAP {
    /// The `total` control points of the straight line from
    /// (`start_time`, `start_value`) to (`end_time`, `end_value`). Point `i`,
    /// counted from one, lies `i` steps of one `total`-th of the way after
    /// the start, so the start itself is not among the points and the last
    /// point is the end. Times and values are rounded to three decimals.
    /// With `total` zero there are no points.
    pub fn create_curve(
        start_time: Scalar,
        end_time: Scalar,
        start_value: Scalar,
        end_value: Scalar,
        total: usize,
    ) -> (points: Vec<HapticCurve>)
        requires
            roundable(start_time),
            roundable(end_time),
            roundable(start_value),
            roundable(end_value),
        ensures
            points@.len() == total,
            forall|i: int|
                0 <= i < total ==> (#[trigger] points@[i]).time@ == ramp_value(
                    start_time@,
                    end_time@,
                    total as int,
                    i + 1,
                ) && points@[i].parameter_value@ == ramp_value(
                    start_value@,
                    end_value@,
                    total as int,
                    i + 1,
                ),
    {
        let mut points: Vec<HapticCurve> = Vec::new();
        let mut i: usize = 0;
        while i < total
            invariant
                i <= total,
                roundable(start_time),
                roundable(end_time),
                roundable(start_value),
                roundable(end_value),
                points@.len() == i,
                forall|k: int|
                    0 <= k < i ==> (#[trigger] points@[k]).time@ == ramp_value(
                        start_time@,
                        end_time@,
                        total as int,
                        k + 1,
                    ) && points@[k].parameter_value@ == ramp_value(
                        start_value@,
                        end_value@,
                        total as int,
                        k + 1,
                    ),
            decreases total - i,
        {
            i = i + 1;
            let time = ramp_step(start_time.micros, end_time.micros, total, i);
            let value = ramp_step(start_value.micros, end_value.micros, total, i);
            points.push(
                HapticCurve { time: Scalar { micros: time }, parameter_value: Scalar { micros: value } },
            );
        }
        points
    }
}

} // verus!
