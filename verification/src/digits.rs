//! Decimal digits: what a run of them writes, and the powers of ten.

use vstd::prelude::*;

verus! {

/// Whether `c` is one of the ten decimal digits.
pub open spec fn is_digit(c: char) -> bool {
    '0' <= c <= '9'
}

/// Whether `s` consists of decimal digits only.
pub open spec fn all_digits(s: Seq<char>) -> bool {
    forall|i: int| 0 <= i < s.len() ==> is_digit(#[trigger] s[i])
}

/// The digit that writes `d`, for `d` from zero to nine.
pub open spec fn digit_char(d: int) -> char {
    (d + 48) as char
}

/// The number that the digit `c` writes.
pub open spec fn digit_value(c: char) -> int {
    c as int - 48
}

/// The number that the digits `s` write in base ten; nothing writes zero.
pub open spec fn digits_value(s: Seq<char>) -> nat
    decreases s.len(),
{
    if s.len() == 0 {
        0
    } else {
        (digits_value(s.drop_last()) * 10 + digit_value(s.last())) as nat
    }
}

/// How many digits `s` begins with.
pub open spec fn digit_run(s: Seq<char>) -> nat
    decreases s.len(),
{
    if s.len() > 0 && is_digit(s[0]) {
        1 + digit_run(s.drop_first())
    } else {
        0
    }
}

/// The digits of `n` in base ten, without leading zeros; zero is `0`.
pub open spec fn nat_digits(n: nat) -> Seq<char>
    decreases n,
{
    if n < 10 {
        seq![digit_char(n as int)]
    } else {
        nat_digits(n / 10).push(digit_char((n % 10) as int))
    }
}

/// Ten to the power `e`.
pub open spec fn pow10(e: nat) -> nat
    decreases e,
{
    if e == 0 {
        1
    } else {
        10 * pow10((e - 1) as nat)
    }
}

/// Powers of ten are positive, and grow with the exponent.
pub proof fn lemma_pow10_grows(a: nat, b: nat)
    requires
        a <= b,
    ensures
        1 <= pow10(a) <= pow10(b),
    decreases b,
{
    if a < b {
        lemma_pow10_grows(a, (b - 1) as nat);
    } else if a > 0 {
        lemma_pow10_grows((a - 1) as nat, (a - 1) as nat);
    }
}

/// The power of a sum is the product of the powers.
pub proof fn lemma_pow10_add(a: nat, b: nat)
    ensures
        pow10(a + b) == pow10(a) * pow10(b),
    decreases b,
{
    if b > 0 {
        lemma_pow10_add(a, (b - 1) as nat);
        assert(pow10(a + b) == 10 * pow10((a + b - 1) as nat));
        assert(10 * (pow10(a) * pow10((b - 1) as nat)) == pow10(a) * (10 * pow10((b - 1) as nat)))
            by (nonlinear_arith);
    } else {
        assert(pow10(a) * 1 == pow10(a));
    }
}

/// Digits write a number below the power of ten of their count.
pub proof fn lemma_digits_value_bound(s: Seq<char>)
    requires
        all_digits(s),
    ensures
        digits_value(s) < pow10(s.len()),
    decreases s.len(),
{
    if s.len() > 0 {
        lemma_digits_value_bound(s.drop_last());
    }
}

/// What two runs of digits write when one follows the other.
pub proof fn lemma_digits_value_concat(a: Seq<char>, b: Seq<char>)
    requires
        all_digits(b),
    ensures
        digits_value(a + b) == digits_value(a) * pow10(b.len()) + digits_value(b),
    decreases b.len(),
{
    if b.len() == 0 {
        assert(a + b =~= a);
        assert(digits_value(a) * 1 == digits_value(a));
    } else {
        let front = b.drop_last();
        lemma_digits_value_concat(a, front);
        assert((a + b).drop_last() =~= a + front);
        assert((a + b).last() == b.last());
        let d = digit_value(b.last());
        assert((digits_value(a) * pow10(front.len()) + digits_value(front)) * 10 + d
            == digits_value(a) * (10 * pow10(front.len())) + (digits_value(front) * 10 + d))
            by (nonlinear_arith);
    }
}

/// A run of digits writes at least half the power of ten of its count
/// exactly when its first digit is five or more.
pub proof fn lemma_leading_digit(s: Seq<char>)
    requires
        s.len() >= 1,
        all_digits(s),
    ensures
        2 * digits_value(s) >= pow10(s.len()) <==> digit_value(s[0]) >= 5,
{
    let head = seq![s[0]];
    let tail = s.drop_first();
    assert(s =~= head + tail);
    lemma_digits_value_concat(head, tail);
    lemma_digits_value_bound(tail);
    assert(head.drop_last() =~= Seq::<char>::empty());
    assert(digits_value(head.drop_last()) == 0);
    assert(digits_value(head) == digit_value(s[0]));
    let p = pow10(tail.len());
    let d = digit_value(s[0]);
    assert(pow10(s.len()) == 10 * p);
    assert(d >= 5 ==> 2 * (d * p) >= 10 * p) by (nonlinear_arith)
        requires
            p >= 0,
    ;
    assert(d <= 4 ==> 2 * (d * p) <= 8 * p) by (nonlinear_arith)
        requires
            p >= 0,
    ;
}

/// The digits of a number are digits, begin with zero only for zero
/// itself, and write that number.
pub proof fn lemma_nat_digits(n: nat)
    ensures
        nat_digits(n).len() >= 1,
        all_digits(nat_digits(n)),
        nat_digits(n).len() == 1 || nat_digits(n)[0] != '0',
        digits_value(nat_digits(n)) == n,
    decreases n,
{
    if n < 10 {
        let s = nat_digits(n);
        assert(s.drop_last() =~= Seq::<char>::empty());
        assert(digits_value(s.drop_last()) == 0);
    } else {
        lemma_nat_digits(n / 10);
        let p = nat_digits(n / 10);
        let s = nat_digits(n);
        assert(s.drop_last() =~= p);
        assert(s[0] == p[0]);
        if p.len() == 1 {
            assert(digits_value(p) == n / 10);
            assert(p.drop_last() =~= Seq::<char>::empty());
            assert(digits_value(p.drop_last()) == 0);
            assert(digit_value(p[0]) >= 1);
        }
    }
}

/// A run of digits ends where the first character that is no digit stands.
pub proof fn lemma_digit_run(s: Seq<char>, k: int)
    requires
        0 <= k <= s.len(),
        forall|i: int| 0 <= i < k ==> is_digit(#[trigger] s[i]),
        k == s.len() || !is_digit(s[k]),
    ensures
        digit_run(s) == k,
    decreases k,
{
    if k > 0 {
        lemma_digit_run(s.drop_first(), k - 1);
    }
}

/// The powers of ten that bound a scalar.
pub proof fn lemma_pow10_values()
    ensures
        pow10(0) == 1,
        pow10(1) == 10,
        pow10(6) == 1_000_000,
        pow10(19) == 10_000_000_000_000_000_000,
        pow10(20) == 100_000_000_000_000_000_000,
{
    reveal_with_fuel(pow10, 21);
}

} // verus!
