//! Fixed-point decimal numbers.

use vstd::arithmetic::div_mod::{lemma_fundamental_div_mod, lemma_fundamental_div_mod_converse};
use vstd::prelude::*;

verus! {

/// A signed decimal number with six fractional digits, stored as a count of
/// millionths. Seconds, intensities and every other quantity of a pattern are
/// held in this form; `Scalar { micros: 435_000 }` is 0.435.
#[derive(Clone, Copy, Debug, PartialEq, Eq, Structural)]
pub struct Scalar {
    pub micros: i64,
}

impl View for Scalar {
    type V = int;

    /// The number of millionths.
    open spec fn view(&self) -> int {
        self.micros as int
    }
}

impl Scalar {
    /// The scalar that is `micros` millionths.
    pub fn from_micros(micros: i64) -> (s: Scalar)
        ensures
            s@ == micros,
    {
        Scalar { micros }
    }

    /// The number of millionths in `self`.
    pub fn micros(&self) -> (m: i64)
        ensures
            m == self@,
    {
        self.micros
    }
}

/// The quotient `num / den` rounded to the nearest integer, a half going
/// away from zero.
pub open spec fn round_half_away(num: int, den: int) -> int
    recommends
        den > 0,
{
    if num >= 0 {
        (2 * num + den) / (2 * den)
    } else {
        -((den - 2 * num) / (2 * den))
    }
}

/// Rounding is off by at most a half, and reaches a half only away from zero.
pub proof fn lemma_round_bounds(num: int, den: int)
    requires
        den > 0,
    ensures
        num >= 0 ==> 2 * (den * round_half_away(num, den)) - den <= 2 * num < 2 * (den
            * round_half_away(num, den)) + den,
        num < 0 ==> 2 * (den * round_half_away(num, den)) - den < 2 * num <= 2 * (den
            * round_half_away(num, den)) + den,
        num >= 0 ==> round_half_away(num, den) >= 0,
        num <= 0 ==> round_half_away(num, den) <= 0,
{
    let x = if num >= 0 { 2 * num + den } else { den - 2 * num };
    let d = 2 * den;
    let q = x / d;
    lemma_fundamental_div_mod(x, d);
    assert(x == d * q + x % d);
    assert(0 <= x % d < d);
    assert(d * q == 2 * (den * q)) by (nonlinear_arith)
        requires
            d == 2 * den,
    ;
    assert(q >= 0) by (nonlinear_arith)
        requires
            x >= 0,
            d > 0,
            x == d * q + x % d,
            0 <= x % d < d,
    ;
    if num < 0 {
        assert(den * (-q) == -(den * q)) by (nonlinear_arith);
    }
    if num == 0 {
        assert(q == 0) by (nonlinear_arith)
            requires
                q >= 0,
                d > 0,
                x < d,
                x == d * q + x % d,
                0 <= x % d,
        ;
    }
}

/// Rounding a quotient that is written as a whole part and a remainder: the
/// whole part, and one more where the remainder is half the divisor or more.
pub proof fn lemma_round_split(q: int, r: int, den: int)
    requires
        q >= 0,
        0 <= r < den,
    ensures
        round_half_away(q * den + r, den) == q + if 2 * r >= den {
            1int
        } else {
            0int
        },
{
    let num = q * den + r;
    assert(num >= 0) by (nonlinear_arith)
        requires
            num == q * den + r,
            q >= 0,
            den > 0,
            r >= 0,
    ;
    let x = 2 * num + den;
    if 2 * r >= den {
        assert(x == (q + 1) * (2 * den) + (2 * r - den)) by (nonlinear_arith)
            requires
                x == 2 * num + den,
                num == q * den + r,
        ;
        lemma_fundamental_div_mod_converse(x, 2 * den, q + 1, 2 * r - den);
    } else {
        assert(x == q * (2 * den) + (2 * r + den)) by (nonlinear_arith)
            requires
                x == 2 * num + den,
                num == q * den + r,
        ;
        lemma_fundamental_div_mod_converse(x, 2 * den, q, 2 * r + den);
    }
}

} // verus!
