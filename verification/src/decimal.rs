//! Decimal text of a [`Scalar`]: how a number is written into a pattern file
//! and read back from one.
//!
//! A scalar is written with a whole part, a point and one to six fractional
//! digits, trailing zeros dropped: `1.0`, `0.435`, `-15.25`. Reading accepts
//! every number that JSON can write, with or without a fractional part and
//! an exponent, and rounds it to the nearest millionth, a half going away
//! from zero.

use vstd::prelude::*;
use vstd::string::is_ascii_spec_bytes;

use crate::digits::{
    all_digits, digit_char, digit_run, digit_value, digits_value, is_digit, lemma_digit_run,
    lemma_digits_value_bound, lemma_digits_value_concat, lemma_leading_digit, lemma_nat_digits,
    lemma_pow10_add, lemma_pow10_grows, lemma_pow10_values, nat_digits, pow10,
};
use crate::scalar::{lemma_round_split, round_half_away, Scalar};

verus! {

/// The first digits of the `width`-digit fraction `f`: as many as it takes
/// to reach its last digit that is not zero, and one at least.
pub open spec fn fraction_text(f: nat, width: nat) -> Seq<char>
    decreases width,
{
    let unit = pow10((width - 1) as nat);
    if width <= 1 || f % unit == 0 {
        seq![digit_char((f / unit) as int)]
    } else {
        seq![digit_char((f / unit) as int)] + fraction_text(f % unit, (width - 1) as nat)
    }
}

/// The text made of an optional minus sign, a whole part, a point and a
/// fractional part.
pub open spec fn decimal_literal(negative: bool, whole: Seq<char>, fraction: Seq<char>) -> Seq<char> {
    (if negative {
        seq!['-']
    } else {
        Seq::<char>::empty()
    }) + whole + seq!['.'] + fraction
}

/// Whether `s` is a number written with a point and without an exponent: an
/// optional minus sign, a whole part that is `0` or begins with another
/// digit, a point, and at least one fractional digit.
pub open spec fn is_decimal_literal(s: Seq<char>) -> bool {
    exists|negative: bool, whole: Seq<char>, fraction: Seq<char>|
        {
            &&& s == #[trigger] decimal_literal(negative, whole, fraction)
            &&& whole.len() >= 1
            &&& all_digits(whole)
            &&& (whole.len() == 1 || whole[0] != '0')
            &&& fraction.len() >= 1
            &&& all_digits(fraction)
        }
}

/// The text that writes `micros` millionths.
pub open spec fn decimal_text(micros: int) -> Seq<char> {
    let m = if micros < 0 {
        -micros
    } else {
        micros
    };
    decimal_literal(
        micros < 0,
        nat_digits((m / 1_000_000) as nat),
        fraction_text((m % 1_000_000) as nat, 6),
    )
}

/// Whether `c` can stand in a number: a digit, a sign, a point, or the
/// letter that begins an exponent.
pub open spec fn is_decimal_char(c: char) -> bool {
    is_digit(c) || c == '-' || c == '+' || c == '.' || c == 'e' || c == 'E'
}

/// Whether every character of `s` can stand in a number.
pub open spec fn all_decimal_chars(s: Seq<char>) -> bool {
    forall|i: int| 0 <= i < s.len() ==> is_decimal_char(#[trigger] s[i])
}

/// Where the run of digits that begins at `from` ends.
pub open spec fn digits_end(s: Seq<char>, from: int) -> int {
    from + digit_run(s.skip(from))
}

/// The digits of a number: those of the whole part, from `ws` to `we`,
/// followed by those of the fraction, from `fs` to `fe`.
pub open spec fn mantissa(s: Seq<char>, ws: int, we: int, fs: int, fe: int) -> Seq<char> {
    s.subrange(ws, we) + s.subrange(fs, fe)
}

/// `m` times ten to the power `shift`, rounded to the nearest integer, a
/// half going up.
pub open spec fn shifted(m: nat, shift: int) -> int {
    if shift >= 0 {
        (m * pow10(shift as nat)) as int
    } else {
        round_half_away(m as int, pow10((-shift) as nat) as int)
    }
}

/// The exponent that `s` writes: none is zero, and else `s` is an `e` or
/// `E`, an optional sign, and digits.
pub open spec fn exponent_value(s: Seq<char>) -> Option<int> {
    if s.len() == 0 {
        Some(0)
    } else if s[0] != 'e' && s[0] != 'E' {
        None
    } else {
        let signed = s.len() > 1 && (s[1] == '+' || s[1] == '-');
        let digits = s.skip(
            if signed {
                2
            } else {
                1
            },
        );
        if digits.len() == 0 || !all_digits(digits) {
            None
        } else if signed && s[1] == '-' {
            Some(-(digits_value(digits) as int))
        } else {
            Some(digits_value(digits) as int)
        }
    }
}

/// The millionths that `s` writes. `s` is an optional minus sign, a whole
/// part of one digit or more, then optionally a point and one fractional
/// digit or more, then optionally an exponent. Its value is rounded to the
/// nearest millionth, a half going away from zero, and has to fit a
/// [`Scalar`].
pub open spec fn decimal_micros(s: Seq<char>) -> Option<int> {
    let negative = s.len() > 0 && s[0] == '-';
    let ws: int = if negative {
        1
    } else {
        0
    };
    let we = digits_end(s, ws);
    let point = we < s.len() && s[we] == '.';
    let fs = if point {
        we + 1
    } else {
        we
    };
    let fe = if point {
        digits_end(s, fs)
    } else {
        we
    };
    if !all_decimal_chars(s) || we == ws || (point && fe == fs) {
        None
    } else {
        match exponent_value(s.skip(fe)) {
            Some(e) => {
                let m = shifted(
                    digits_value(mantissa(s, ws, we, fs, fe)),
                    6 + e - (fe - fs),
                );
                let v = if negative {
                    -m
                } else {
                    m
                };
                if i64::MIN <= v <= i64::MAX {
                    Some(v)
                } else {
                    None
                }
            },
            None => None,
        }
    }
}

/// Fractional digits are digits, no more than the width, and write the
/// fraction once the dropped zeros are put back.
pub proof fn lemma_fraction_text(f: nat, width: nat)
    requires
        1 <= width,
        f < pow10(width),
    ensures
        1 <= fraction_text(f, width).len() <= width,
        all_digits(fraction_text(f, width)),
        digits_value(fraction_text(f, width)) * pow10(
            (width - fraction_text(f, width).len()) as nat,
        ) == f,
    decreases width,
{
    let unit = pow10((width - 1) as nat);
    lemma_pow10_grows(0, (width - 1) as nat);
    let d = f / unit;
    assert(0 <= d <= 9 && f == d * unit + f % unit && 0 <= f % unit < unit) by (nonlinear_arith)
        requires
            d == f / unit,
            unit > 0,
            f < 10 * unit,
    ;
    let s = fraction_text(f, width);
    let head = seq![digit_char(d as int)];
    assert(head.drop_last() =~= Seq::<char>::empty());
    assert(digits_value(head.drop_last()) == 0);
    assert(digits_value(head) == d);
    if width <= 1 || f % unit == 0 {
        assert(s == head);
    } else {
        let rest = fraction_text(f % unit, (width - 1) as nat);
        lemma_fraction_text(f % unit, (width - 1) as nat);
        assert(s == head + rest);
        lemma_digits_value_concat(head, rest);
        let gap = (width - 1 - rest.len()) as nat;
        lemma_pow10_add(rest.len(), gap);
        assert(pow10(rest.len()) * pow10(gap) == unit);
        assert((d * pow10(rest.len()) + digits_value(rest)) * pow10(gap) == d * (pow10(rest.len())
            * pow10(gap)) + digits_value(rest) * pow10(gap)) by (nonlinear_arith);
        assert forall|i: int| 0 <= i < s.len() implies is_digit(#[trigger] s[i]) by {
            if i > 0 {
                assert(s[i] == rest[i - 1]);
            }
        }
    }
}

/// Every scalar is written as a decimal with a point, and reading what was
/// written gives the scalar back.
pub proof fn lemma_decimal_text(micros: int)
    requires
        i64::MIN <= micros <= i64::MAX,
    ensures
        is_decimal_literal(decimal_text(micros)),
        decimal_micros(decimal_text(micros)) == Some(micros),
{
    reveal_with_fuel(pow10, 7);
    let m = if micros < 0 {
        -micros
    } else {
        micros
    };
    let w = (m / 1_000_000) as nat;
    let f = (m % 1_000_000) as nat;
    let whole = nat_digits(w);
    let fraction = fraction_text(f, 6);
    lemma_nat_digits(w);
    lemma_fraction_text(f, 6);
    let s = decimal_text(micros);
    assert(s == decimal_literal(micros < 0, whole, fraction));
    let ws: int = if micros < 0 {
        1
    } else {
        0
    };
    let we = ws + whole.len();
    let fs = we + 1;
    let fe = fs + fraction.len();
    assert(s.len() == fe);
    assert forall|i: int| 0 <= i < s.len() implies is_decimal_char(#[trigger] s[i]) by {
        if ws <= i < we {
            assert(s[i] == whole[i - ws]);
        } else if i >= fs {
            assert(s[i] == fraction[i - fs]);
        }
    }
    if micros >= 0 {
        assert(s[0] == whole[0]);
    }
    let after_sign = s.skip(ws);
    assert forall|i: int| 0 <= i < whole.len() implies is_digit(#[trigger] after_sign[i]) by {
        assert(after_sign[i] == whole[i]);
    }
    assert(after_sign[whole.len() as int] == '.');
    lemma_digit_run(after_sign, whole.len() as int);
    assert(digits_end(s, ws) == we);
    assert(s[we] == '.');
    assert(s.skip(fs) =~= fraction);
    lemma_digit_run(fraction, fraction.len() as int);
    assert(digits_end(s, fs) == fe);
    assert(s.skip(fe) =~= Seq::<char>::empty());
    assert(s.subrange(ws, we) =~= whole);
    assert(s.subrange(fs, fe) =~= fraction);
    lemma_digits_value_concat(whole, fraction);
    let gap = (6 - fraction.len()) as nat;
    lemma_pow10_add(fraction.len(), gap);
    assert((w * pow10(fraction.len()) + digits_value(fraction)) * pow10(gap) == w * (pow10(
        fraction.len(),
    ) * pow10(gap)) + digits_value(fraction) * pow10(gap)) by (nonlinear_arith);
    assert(pow10(fraction.len()) * pow10(gap) == 1_000_000);
    assert(digits_value(fraction) * pow10(gap) == f);
    assert(digits_value(whole + fraction) == w * pow10(fraction.len()) + digits_value(fraction));
    assert(digits_value(whole + fraction) * pow10(gap) == w * 1_000_000 + f);
    assert(m == w * 1_000_000 + f);
    assert(shifted(digits_value(whole + fraction), 6 - fraction.len()) == m);
}

/// Far to either side the power of ten no longer matters: from twenty
/// places up, only zero stays small; from one place past all the digits
/// down, everything rounds to zero.
pub proof fn lemma_shifted_far(m: nat, len: nat, near: int, far: int)
    requires
        m < pow10(len),
        near == far || (near >= 20 && far >= near) || (near < -len && far <= near),
    ensures
        shifted(m, near) <= 0x8000_0000_0000_0000 <==> shifted(m, far) <= 0x8000_0000_0000_0000,
        shifted(m, near) <= 0x8000_0000_0000_0000 ==> shifted(m, far) == shifted(m, near),
{
    lemma_pow10_values();
    if near != far {
        if near >= 20 {
            lemma_pow10_grows(20, near as nat);
            lemma_pow10_grows(20, far as nat);
            let p = pow10(near as nat);
            let q = pow10(far as nat);
            assert(m == 0 ==> m * p == 0 && m * q == 0) by (nonlinear_arith);
            assert(m >= 1 ==> m * p >= p && m * q >= q) by (nonlinear_arith)
                requires
                    p >= 0,
                    q >= 0,
            ;
        } else {
            lemma_shifted_small(m, len, near);
            lemma_shifted_small(m, len, far);
        }
    }
}

/// A number of `len` digits, moved down by more than `len` places, rounds
/// to zero.
pub proof fn lemma_shifted_small(m: nat, len: nat, shift: int)
    requires
        m < pow10(len),
        shift < -len,
    ensures
        shifted(m, shift) == 0,
{
    let k = (-shift) as nat;
    lemma_pow10_grows(len + 1, k);
    lemma_round_split(0, m as int, pow10(k) as int);
    assert(0 * pow10(k) + m == m) by (nonlinear_arith);
}

/// The characters that ASCII bytes stand for.
pub open spec fn chars_of(bytes: Seq<u8>) -> Seq<char> {
    bytes.map_values(|b: u8| b as char)
}

/// The digit zero in ASCII.
const DIGIT_ZERO: u8 = 48;

/// The digit five in ASCII.
const DIGIT_FIVE: u8 = 53;

/// The digit nine in ASCII.
const DIGIT_NINE: u8 = 57;

/// The minus sign in ASCII.
const MINUS: u8 = 45;

/// The plus sign in ASCII.
const PLUS: u8 = 43;

/// The decimal point in ASCII.
const POINT: u8 = 46;

/// The letter `e` in ASCII.
const SMALL_E: u8 = 101;

/// The letter `E` in ASCII.
const CAPITAL_E: u8 = 69;

/// The largest magnitude of a number that fits a scalar.
const MAGNITUDE_LIMIT: u128 = 0x8000_0000_0000_0000;

/// A bound above every magnitude that fits a scalar: values are counted up
/// to here and no further.
const VALUE_CAP: u128 = 10_000_000_000_000_000_000;

/// A bound above every exponent that matters: exponents are counted up to
/// here and no further.
const EXPONENT_CAP: u128 = 1_000_000_000_000_000_000_000_000_000_000;

/// `v`, counted no further than `cap`.
pub open spec fn capped(v: int, cap: int) -> int {
    if v < cap {
        v
    } else {
        cap
    }
}

/// Whether all of `bytes` can stand in a number.
fn only_decimal_chars(bytes: &[u8]) -> (all: bool)
    ensures
        all == all_decimal_chars(chars_of(bytes@)),
{
    let n = bytes.len();
    let mut i: usize = 0;
    while i < n
        invariant
            i <= n,
            n == bytes@.len(),
            forall|j: int| 0 <= j < i ==> is_decimal_char(#[trigger] chars_of(bytes@)[j]),
        decreases n - i,
    {
        let b = bytes[i];
        let fits = (DIGIT_ZERO <= b && b <= DIGIT_NINE) || b == MINUS || b == PLUS || b == POINT || b == SMALL_E || b == CAPITAL_E;
        if !fits {
            assert(!is_decimal_char(chars_of(bytes@)[i as int]));
            return false;
        }
        i = i + 1;
    }
    true
}

/// Where the run of digits that begins at `from` ends.
fn scan_digits(bytes: &[u8], from: usize) -> (to: usize)
    requires
        from <= bytes@.len(),
    ensures
        from <= to <= bytes@.len(),
        to == digits_end(chars_of(bytes@), from as int),
        all_digits(chars_of(bytes@).subrange(from as int, to as int)),
{
    let n = bytes.len();
    let mut i: usize = from;
    while i < n && DIGIT_ZERO <= bytes[i] && bytes[i] <= DIGIT_NINE
        invariant
            from <= i <= n,
            n == bytes@.len(),
            forall|j: int| from <= j < i ==> is_digit(#[trigger] chars_of(bytes@)[j]),
        decreases n - i,
    {
        i = i + 1;
    }
    proof {
        let s = chars_of(bytes@);
        let t = s.skip(from as int);
        assert forall|j: int| 0 <= j < i - from implies is_digit(#[trigger] t[j]) by {
            assert(t[j] == s[from + j]);
        }
        if i < n {
            assert(t[i - from] == s[i as int]);
        }
        lemma_digit_run(t, i - from);
        let run = s.subrange(from as int, i as int);
        assert forall|j: int| 0 <= j < run.len() implies is_digit(#[trigger] run[j]) by {
            assert(run[j] == s[from + j]);
        }
    }
    i
}

/// The exponent that begins at `from`, counted no further than the cap to
/// either side.
fn read_exponent(bytes: &[u8], from: usize) -> (r: Option<i128>)
    requires
        from <= bytes@.len(),
    ensures
        match exponent_value(chars_of(bytes@).skip(from as int)) {
            Some(e) => r == Some(
                if e < 0 {
                    -capped(-e, EXPONENT_CAP as int)
                } else {
                    capped(e, EXPONENT_CAP as int)
                } as i128,
            ),
            None => r is None,
        },
{
    let n = bytes.len();
    let ghost s = chars_of(bytes@);
    let ghost rest = s.skip(from as int);
    if from == n {
        return Some(0);
    }
    assert(rest[0] == s[from as int]);
    if bytes[from] != SMALL_E && bytes[from] != CAPITAL_E {
        return None;
    }
    let mut i: usize = from + 1;
    let mut negative = false;
    if i < n {
        assert(rest[1] == s[i as int]);
        if bytes[i] == PLUS || bytes[i] == MINUS {
            negative = bytes[i] == MINUS;
            i = i + 1;
        }
    }
    let start = i;
    let ghost digits = s.skip(start as int);
    assert(digits =~= rest.skip(start - from));
    if start == n {
        return None;
    }
    let mut acc: u128 = 0;
    assert(exponent_value(rest) is Some ==> all_digits(digits));
    while i < n
        invariant
            start <= i <= n,
            n == bytes@.len(),
            s == chars_of(bytes@),
            rest == s.skip(from as int),
            digits == s.skip(start as int),
            exponent_value(rest) is Some ==> all_digits(digits),
            forall|j: int| start <= j < i ==> is_digit(#[trigger] s[j]),
            acc == capped(
                digits_value(s.subrange(start as int, i as int)) as int,
                EXPONENT_CAP as int,
            ),
        decreases n - i,
    {
        let b = bytes[i];
        if b < DIGIT_ZERO || b > DIGIT_NINE {
            proof {
                assert(digits[i - start] == s[i as int]);
                assert(!is_digit(s[i as int]));
            }
            return None;
        }
        let d = (b - DIGIT_ZERO) as u128;
        proof {
            let next = s.subrange(start as int, i + 1);
            assert(next.drop_last() =~= s.subrange(start as int, i as int));
            assert(next.last() == s[i as int]);
            assert(digit_value(s[i as int]) == d);
        }
        if acc < EXPONENT_CAP {
            acc = acc * 10 + d;
            if acc > EXPONENT_CAP {
                acc = EXPONENT_CAP;
            }
        }
        i = i + 1;
    }
    proof {
        assert(s.subrange(start as int, n as int) =~= digits);
        assert forall|j: int| 0 <= j < digits.len() implies is_digit(#[trigger] digits[j]) by {
            assert(digits[j] == s[start + j]);
        }
    }
    if negative {
        Some(-(acc as i128))
    } else {
        Some(acc as i128)
    }
}

/// What the first `count` digits of the whole part and the fraction write,
/// counted no further than the cap.
fn leading_value(bytes: &[u8], ws: usize, we: usize, fs: usize, fe: usize, count: usize) -> (acc:
    u128)
    requires
        ws <= we <= fs <= fe <= bytes@.len(),
        all_digits(chars_of(bytes@).subrange(ws as int, we as int)),
        all_digits(chars_of(bytes@).subrange(fs as int, fe as int)),
        count <= (we - ws) + (fe - fs),
    ensures
        acc == capped(
            digits_value(
                (mantissa(chars_of(bytes@), ws as int, we as int, fs as int, fe as int)).take(count as int),
            ) as int,
            VALUE_CAP as int,
        ),
{
    let ghost s = chars_of(bytes@);
    let ghost whole = s.subrange(ws as int, we as int);
    let ghost fraction = s.subrange(fs as int, fe as int);
    let ghost all = whole + fraction;
    let wlen = we - ws;
    let mut acc: u128 = 0;
    let mut j: usize = 0;
    assert(all.take(0) =~= Seq::<char>::empty());
    while j < count
        invariant
            j <= count,
            ws <= we <= fs <= fe <= bytes@.len(),
            count <= (we - ws) + (fe - fs),
            wlen == we - ws,
            s == chars_of(bytes@),
            whole == s.subrange(ws as int, we as int),
            fraction == s.subrange(fs as int, fe as int),
            all == whole + fraction,
            all_digits(whole),
            all_digits(fraction),
            acc == capped(digits_value(all.take(j as int)) as int, VALUE_CAP as int),
        decreases count - j,
    {
        let b = if j < wlen {
            bytes[ws + j]
        } else {
            bytes[fs + (j - wlen)]
        };
        proof {
            if j < wlen {
                assert(all[j as int] == whole[j as int]);
                assert(whole[j as int] == s[ws + j]);
            } else {
                assert(all[j as int] == fraction[j - wlen]);
                assert(fraction[j - wlen] == s[fs + (j - wlen)]);
            }
            assert(is_digit(all[j as int]));
            assert(all.take(j + 1).drop_last() =~= all.take(j as int));
            assert(all.take(j + 1).last() == all[j as int]);
        }
        let d = (b - DIGIT_ZERO) as u128;
        if acc < VALUE_CAP {
            acc = acc * 10 + d;
            if acc > VALUE_CAP {
                acc = VALUE_CAP;
            }
        }
        j = j + 1;
    }
    acc
}

/// The digits of the whole part and the fraction, with `shift` zeros after
/// them; nothing where that is too large for a scalar of either sign.
fn raised_digits(bytes: &[u8], ws: usize, we: usize, fs: usize, fe: usize, shift: i128) -> (r:
    Option<u128>)
    requires
        ws <= we <= fs <= fe <= bytes@.len(),
        all_digits(chars_of(bytes@).subrange(ws as int, we as int)),
        all_digits(chars_of(bytes@).subrange(fs as int, fe as int)),
        0 <= shift,
    ensures
        match r {
            Some(v) => v <= MAGNITUDE_LIMIT && v == shifted(
                digits_value(
                    mantissa(chars_of(bytes@), ws as int, we as int, fs as int, fe as int),
                ),
                shift as int,
            ),
            None => shifted(
                digits_value(
                    mantissa(chars_of(bytes@), ws as int, we as int, fs as int, fe as int),
                ),
                shift as int,
            ) > MAGNITUDE_LIMIT,
        },
{
    let ghost s = chars_of(bytes@);
    let ghost all = mantissa(s, ws as int, we as int, fs as int, fe as int);
    let ghost m = digits_value(all);
    let total: usize = (we - ws) + (fe - fs);
    assert(all.take(total as int) =~= all);
    let acc = leading_value(bytes, ws, we, fs, fe, total);
    if acc == 0 {
        assert(m * pow10(shift as nat) == 0) by (nonlinear_arith)
            requires
                m == 0,
        ;
        return Some(0);
    }
    proof {
        lemma_pow10_values();
        lemma_pow10_grows(0, shift as nat);
        let p = pow10(shift as nat);
        assert(m * p >= m && m * p >= p) by (nonlinear_arith)
            requires
                m >= 1,
                p >= 1,
        ;
        if shift >= 20 {
            lemma_pow10_grows(20, shift as nat);
        }
    }
    if acc >= VALUE_CAP || shift >= 20 {
        return None;
    }
    let mut value: u128 = acc;
    let mut t: i128 = 0;
    assert(m * pow10(0) == m) by (nonlinear_arith)
        requires
            pow10(0) == 1,
    ;
    while t < shift
        invariant
            0 <= t <= shift < 20,
            value <= VALUE_CAP,
            value == capped((m * pow10(t as nat)) as int, VALUE_CAP as int),
        decreases shift - t,
    {
        proof {
            let p = pow10(t as nat);
            assert(pow10((t + 1) as nat) == 10 * p);
            assert(m * (10 * p) == (m * p) * 10) by (nonlinear_arith);
        }
        if value < VALUE_CAP {
            value = value * 10;
            if value > VALUE_CAP {
                value = VALUE_CAP;
            }
        }
        t = t + 1;
    }
    if value > MAGNITUDE_LIMIT {
        None
    } else {
        Some(value)
    }
}

/// The digits of the whole part and the fraction without their last `drop`
/// digits, rounded by the first digit that is dropped; nothing where that
/// is too large for a scalar of either sign.
fn lowered_digits(bytes: &[u8], ws: usize, we: usize, fs: usize, fe: usize, drop: u128) -> (r:
    Option<u128>)
    requires
        ws <= we <= fs <= fe <= bytes@.len(),
        all_digits(chars_of(bytes@).subrange(ws as int, we as int)),
        all_digits(chars_of(bytes@).subrange(fs as int, fe as int)),
        0 < drop,
    ensures
        match r {
            Some(v) => v <= MAGNITUDE_LIMIT && v == shifted(
                digits_value(
                    mantissa(chars_of(bytes@), ws as int, we as int, fs as int, fe as int),
                ),
                -(drop as int),
            ),
            None => shifted(
                digits_value(
                    mantissa(chars_of(bytes@), ws as int, we as int, fs as int, fe as int),
                ),
                -(drop as int),
            ) > MAGNITUDE_LIMIT,
        },
{
    let ghost s = chars_of(bytes@);
    let ghost whole = s.subrange(ws as int, we as int);
    let ghost fraction = s.subrange(fs as int, fe as int);
    let ghost all = whole + fraction;
    let ghost m = digits_value(all);
    let total: usize = (we - ws) + (fe - fs);
    proof {
        lemma_mantissa_bound(s, ws as int, we as int, fs as int, fe as int);
    }
    if drop > total as u128 {
        proof {
            lemma_shifted_small(m, all.len(), -(drop as int));
        }
        return Some(0);
    }
    let keep: usize = total - (drop as usize);
    let acc = leading_value(bytes, ws, we, fs, fe, keep);
    let wlen = we - ws;
    let b = if keep < wlen {
        bytes[ws + keep]
    } else {
        bytes[fs + (keep - wlen)]
    };
    let ghost kept = all.take(keep as int);
    let ghost dropped = all.skip(keep as int);
    proof {
        assert(all =~= kept + dropped);
        assert forall|j: int| 0 <= j < dropped.len() implies is_digit(#[trigger] dropped[j]) by {
            assert(dropped[j] == all[keep + j]);
        }
        lemma_digits_value_concat(kept, dropped);
        lemma_digits_value_bound(dropped);
        lemma_leading_digit(dropped);
        lemma_round_split(
            digits_value(kept) as int,
            digits_value(dropped) as int,
            pow10(drop as nat) as int,
        );
        assert(dropped[0] == all[keep as int]);
        if keep < wlen {
            assert(all[keep as int] == whole[keep as int]);
        } else {
            assert(all[keep as int] == fraction[keep - wlen]);
        }
        assert(digit_value(dropped[0]) == b - DIGIT_ZERO);
        assert(shifted(m, -(drop as int)) == digits_value(kept) + if b >= DIGIT_FIVE {
            1int
        } else {
            0int
        });
    }
    if acc >= VALUE_CAP {
        return None;
    }
    let value = if b >= DIGIT_FIVE {
        acc + 1
    } else {
        acc
    };
    if value > MAGNITUDE_LIMIT {
        None
    } else {
        Some(value)
    }
}

/// The digits of the whole part and of the fraction write a number below
/// the power of ten of their count.
proof fn lemma_mantissa_bound(s: Seq<char>, ws: int, we: int, fs: int, fe: int)
    requires
        0 <= ws <= we <= fs <= fe <= s.len(),
        all_digits(s.subrange(ws, we)),
        all_digits(s.subrange(fs, fe)),
    ensures
        all_digits(mantissa(s, ws, we, fs, fe)),
        digits_value(mantissa(s, ws, we, fs, fe)) < pow10(
            ((we - ws) + (fe - fs)) as nat,
        ),
{
    let whole = s.subrange(ws, we);
    let fraction = s.subrange(fs, fe);
    let all = whole + fraction;
    assert forall|j: int| 0 <= j < all.len() implies is_digit(#[trigger] all[j]) by {
        if j < we - ws {
            assert(all[j] == whole[j]);
        } else {
            assert(all[j] == fraction[j - (we - ws)]);
        }
    }
    lemma_digits_value_bound(all);
}

/// The magnitude of the number whose whole part, fraction and exponent
/// have been found; nothing where it is too large for a scalar of either
/// sign.
fn read_magnitude(bytes: &[u8], ws: usize, we: usize, fs: usize, fe: usize, exponent: i128) -> (r:
    Option<u128>)
    requires
        ws <= we <= fs <= fe <= bytes@.len(),
        all_digits(chars_of(bytes@).subrange(ws as int, we as int)),
        all_digits(chars_of(bytes@).subrange(fs as int, fe as int)),
        exponent_value(chars_of(bytes@).skip(fe as int)) matches Some(e) && exponent == if e < 0 {
            -capped(-e, EXPONENT_CAP as int)
        } else {
            capped(e, EXPONENT_CAP as int)
        },
    ensures
        match r {
            Some(v) => v <= MAGNITUDE_LIMIT && v == shifted(
                digits_value(
                    mantissa(chars_of(bytes@), ws as int, we as int, fs as int, fe as int),
                ),
                6 + exponent_value(chars_of(bytes@).skip(fe as int))->Some_0 - (fe - fs),
            ),
            None => shifted(
                digits_value(
                    mantissa(chars_of(bytes@), ws as int, we as int, fs as int, fe as int),
                ),
                6 + exponent_value(chars_of(bytes@).skip(fe as int))->Some_0 - (fe - fs),
            ) > MAGNITUDE_LIMIT,
        },
{
    let shift: i128 = 6 + exponent - ((fe - fs) as i128);
    proof {
        let s = chars_of(bytes@);
        let exact = 6 + exponent_value(s.skip(fe as int))->Some_0 - (fe - fs);
        lemma_mantissa_bound(s, ws as int, we as int, fs as int, fe as int);
        lemma_shifted_far(
            digits_value(mantissa(s, ws as int, we as int, fs as int, fe as int)),
            ((we - ws) + (fe - fs)) as nat,
            shift as int,
            exact,
        );
    }
    if shift >= 0 {
        raised_digits(bytes, ws, we, fs, fe, shift)
    } else {
        lowered_digits(bytes, ws, we, fs, fe, (-shift) as u128)
    }
}

/// Reads a scalar from the bytes of an ASCII text.
fn read_bytes(bytes: &[u8]) -> (r: Option<Scalar>)
    ensures
        match r {
            Some(s) => decimal_micros(chars_of(bytes@)) == Some(s@),
            None => decimal_micros(chars_of(bytes@)) is None,
        },
{
    let n = bytes.len();
    if !only_decimal_chars(bytes) {
        return None;
    }
    let negative = n > 0 && bytes[0] == MINUS;
    let ws: usize = if negative {
        1
    } else {
        0
    };
    let we = scan_digits(bytes, ws);
    if we == ws {
        return None;
    }
    let point = we < n && bytes[we] == POINT;
    let fs: usize = if point {
        we + 1
    } else {
        we
    };
    let fe: usize = if point {
        scan_digits(bytes, fs)
    } else {
        we
    };
    if point && fe == fs {
        return None;
    }
    proof {
        if !point {
            assert(chars_of(bytes@).subrange(fs as int, fe as int) =~= Seq::<char>::empty());
        }
    }
    let exponent = match read_exponent(bytes, fe) {
        Some(e) => e,
        None => {
            return None;
        },
    };
    match read_magnitude(bytes, ws, we, fs, fe, exponent) {
        Some(m) => {
            if negative {
                if m == MAGNITUDE_LIMIT {
                    Some(Scalar { micros: i64::MIN })
                } else {
                    Some(Scalar { micros: -(m as i64) })
                }
            } else if m == MAGNITUDE_LIMIT {
                None
            } else {
                Some(Scalar { micros: m as i64 })
            }
        },
        None => None,
    }
}

/// Appends the digits of `n` to `out`.
fn push_digits(out: &mut String, n: u64)
    ensures
        final(out)@ == old(out)@ + nat_digits(n as nat),
    decreases n,
{
    if n >= 10 {
        push_digits(out, n / 10);
    }
    out.push(((n % 10) as u8 + DIGIT_ZERO) as char);
    assert(out@ =~= old(out)@ + nat_digits(n as nat));
}

/// Appends the first digits of the `width`-digit fraction `f` to `out`, up
/// to its last digit that is not zero.
fn push_fraction(out: &mut String, f: u64, width: u32, unit: u64)
    requires
        1 <= width <= 6,
        unit == pow10((width - 1) as nat),
        f < 10 * unit,
    ensures
        final(out)@ == old(out)@ + fraction_text(f as nat, width as nat),
    decreases width,
{
    proof {
        reveal_with_fuel(pow10, 7);
    }
    let d = f / unit;
    let rest = f % unit;
    assert(d <= 9) by (nonlinear_arith)
        requires
            d == f / unit,
            unit > 0,
            f < 10 * unit,
    ;
    out.push((d as u8 + DIGIT_ZERO) as char);
    if width > 1 && rest != 0 {
        push_fraction(out, rest, width - 1, unit / 10);
    }
    assert(out@ =~= old(out)@ + fraction_text(f as nat, width as nat));
}

impl Scalar {
    /// The scalar as decimal text: a minus sign if it is negative, the whole
    /// part, a point, and the fractional digits up to the last that is not
    /// zero, one at least.
    pub fn to_text(&self) -> (text: String)
        ensures
            text@ == decimal_text(self@),
    {
        let mut out = String::new();
        let negative = self.micros < 0;
        let mag: u64 = if negative {
            (-(self.micros as i128)) as u64
        } else {
            self.micros as u64
        };
        if negative {
            out.push('-');
        }
        push_digits(&mut out, mag / 1_000_000);
        out.push('.');
        proof {
            reveal_with_fuel(pow10, 7);
        }
        push_fraction(&mut out, mag % 1_000_000, 6, 100_000);
        assert(out@ =~= decimal_text(self@));
        out
    }

    /// Reads a scalar from decimal text: an optional minus sign, a whole
    /// part, and then optionally a point with fractional digits and an
    /// exponent. The number is rounded to the nearest millionth, a half
    /// going away from zero. Any other text, and a number too large for a
    /// scalar, gives `None`.
    pub fn from_text(text: &str) -> (r: Option<Scalar>)
        ensures
            match r {
                Some(s) => decimal_micros(text@) == Some(s@),
                None => decimal_micros(text@) is None,
            },
    {
        if !text.is_ascii() {
            return None;
        }
        let bytes = text.as_bytes();
        proof {
            is_ascii_spec_bytes(text);
            assert(chars_of(bytes@) =~= text@) by {
                assert forall|j: int| 0 <= j < text@.len() implies chars_of(bytes@)[j] == text@[j] by {
                    assert(text@[j] <= '\u{7f}');
                    assert(bytes@[j] == text@[j] as u8);
                }
            }
        }
        read_bytes(bytes)
    }
}

} // verus!
