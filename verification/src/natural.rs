//! Natural numbers of any size, with the two operations that the frequency
//! normaliser needs: multiplying by a small factor, and comparing.

use vstd::prelude::*;

verus! {

/// The radix to the power `e`; the radix is two to the power thirty-two.
pub open spec fn radix_pow(e: nat) -> nat
    decreases e,
{
    if e == 0 {
        1
    } else {
        0x1_0000_0000 * radix_pow((e - 1) as nat)
    }
}

/// The number that `limbs` write in radix two to the power thirty-two, the
/// least significant limb first.
pub open spec fn limbs_value(limbs: Seq<u32>) -> nat
    decreases limbs.len(),
{
    if limbs.len() == 0 {
        0
    } else {
        limbs_value(limbs.drop_last()) + limbs.last() as nat * radix_pow((limbs.len() - 1) as nat)
    }
}

/// Limbs write a number below the power of the radix of their count.
pub proof fn lemma_limbs_value_bound(limbs: Seq<u32>)
    ensures
        limbs_value(limbs) < radix_pow(limbs.len()),
    decreases limbs.len(),
{
    if limbs.len() > 0 {
        lemma_limbs_value_bound(limbs.drop_last());
        let p = radix_pow((limbs.len() - 1) as nat);
        let top = limbs.last() as nat;
        assert(top * p + p <= 0x1_0000_0000 * p) by (nonlinear_arith)
            requires
                top <= 0xFFFF_FFFF,
                p >= 0,
        ;
    }
}

/// One more limb in front of the first `i`.
pub proof fn lemma_limbs_value_step(limbs: Seq<u32>, i: int)
    requires
        0 <= i < limbs.len(),
    ensures
        limbs_value(limbs.take(i + 1)) == limbs_value(limbs.take(i)) + limbs[i] as nat * radix_pow(
            i as nat,
        ),
{
    assert(limbs.take(i + 1).drop_last() =~= limbs.take(i));
    assert(limbs.take(i + 1).last() == limbs[i]);
}

/// Two numbers of as many limbs, equal in every limb from `i` up, differ by
/// what their first `i` limbs differ.
pub proof fn lemma_limbs_value_upper_equal(a: Seq<u32>, b: Seq<u32>, i: int)
    requires
        a.len() == b.len(),
        0 <= i <= a.len(),
        forall|j: int| i <= j < a.len() ==> a[j] == b[j],
    ensures
        limbs_value(a) - limbs_value(b) == limbs_value(a.take(i)) - limbs_value(b.take(i)),
    decreases a.len() - i,
{
    if i == a.len() {
        assert(a.take(i) =~= a);
        assert(b.take(i) =~= b);
    } else {
        lemma_limbs_value_upper_equal(a.drop_last(), b.drop_last(), i);
        assert(a.drop_last().take(i) =~= a.take(i));
        assert(b.drop_last().take(i) =~= b.take(i));
        assert(a.last() == b.last());
    }
}

/// The powers of the radix are positive, and grow with the exponent.
pub proof fn lemma_radix_pow_grows(a: nat, b: nat)
    requires
        a <= b,
    ensures
        1 <= radix_pow(a) <= radix_pow(b),
    decreases b,
{
    if a < b {
        lemma_radix_pow_grows(a, (b - 1) as nat);
    } else if a > 0 {
        lemma_radix_pow_grows((a - 1) as nat, (a - 1) as nat);
    }
}

/// Limbs whose last is not zero write a number of at least the power of the
/// radix of their count less one.
pub proof fn lemma_limbs_value_least(limbs: Seq<u32>)
    requires
        limbs.len() > 0,
        limbs.last() != 0,
    ensures
        limbs_value(limbs) >= radix_pow((limbs.len() - 1) as nat),
{
    let p = radix_pow((limbs.len() - 1) as nat);
    let top = limbs.last() as nat;
    assert(top * p >= p) by (nonlinear_arith)
        requires
            top >= 1,
            p >= 0,
    ;
}

/// A natural number of any size.
pub struct Natural {
    limbs: Vec<u32>,
}

impl View for Natural {
    type V = nat;

    /// The number itself.
    closed spec fn view(&self) -> nat {
        limbs_value(self.limbs@)
    }
}

impl Natural {
    /// Whether the number is held without a needless limb: the most
    /// significant limb is not zero.
    pub closed spec fn well_formed(&self) -> bool {
        self.limbs@.len() == 0 || self.limbs@.last() != 0
    }

    /// The natural number `n`.
    pub fn from_u32(n: u32) -> (r: Natural)
        ensures
            r@ == n,
            r.well_formed(),
    {
        let mut limbs: Vec<u32> = Vec::new();
        if n != 0 {
            limbs.push(n);
            proof {
                assert(limbs@.drop_last() =~= Seq::<u32>::empty());
                assert(limbs_value(limbs@.drop_last()) == 0);
                assert(radix_pow(0) == 1);
                assert(n as nat * 1 == n as nat);
            }
        }
        Natural { limbs }
    }

    /// Multiplies the number by `factor`.
    pub fn scale(&mut self, factor: u32)
        requires
            old(self).well_formed(),
        ensures
            final(self)@ == old(self)@ * factor,
            final(self).well_formed(),
    {
        if factor == 0 {
            let ghost v = self@;
            self.limbs = Vec::new();
            assert(v * 0 == 0) by (nonlinear_arith);
            return;
        }
        let ghost before = self.limbs@;
        let n = self.limbs.len();
        let mut carry: u64 = 0;
        let mut i: usize = 0;
        assert(self.limbs@.take(0) =~= Seq::<u32>::empty());
        assert(before.take(0) =~= Seq::<u32>::empty());
        assert(0 * radix_pow(0) == 0 && limbs_value(Seq::<u32>::empty()) * factor == 0)
            by (nonlinear_arith)
            requires
                limbs_value(Seq::<u32>::empty()) == 0,
        ;
        while i < n
            invariant
                i <= n,
                n == before.len(),
                self.limbs@.len() == n,
                factor >= 1,
                carry <= 0xFFFF_FFFF,
                forall|j: int| i <= j < n ==> self.limbs@[j] == before[j],
                limbs_value(self.limbs@.take(i as int)) + carry * radix_pow(i as nat) == limbs_value(
                    before.take(i as int),
                ) * factor,
                i > 0 && before[i - 1] != 0 ==> carry > 0 || self.limbs@[i - 1] != 0,
            decreases n - i,
        {
            let ghost current = self.limbs@;
            let limb = self.limbs[i];
            assert(limb as u64 * factor as u64 + carry <= 0xFFFF_FFFF_FFFF_FFFF && (limb >= 1
                ==> limb as u64 * factor as u64 + carry >= 1)) by (nonlinear_arith)
                requires
                    limb <= 0xFFFF_FFFF,
                    1 <= factor <= 0xFFFF_FFFF,
                    0 <= carry <= 0xFFFF_FFFF,
            ;
            let product: u64 = limb as u64 * factor as u64 + carry;
            let low: u32 = (product % 0x1_0000_0000) as u32;
            let high: u64 = product / 0x1_0000_0000;
            self.limbs.set(i, low);
            proof {
                let p = radix_pow(i as nat);
                assert(self.limbs@.take(i as int) =~= current.take(i as int));
                lemma_limbs_value_step(self.limbs@, i as int);
                lemma_limbs_value_step(before, i as int);
                assert(radix_pow((i + 1) as nat) == 0x1_0000_0000 * p);
                assert(product == high * 0x1_0000_0000 + low);
                assert(low * p + high * (0x1_0000_0000 * p) == (limb * factor + carry) * p)
                    by (nonlinear_arith)
                    requires
                        limb * factor + carry == high * 0x1_0000_0000 + low,
                ;
                assert((limbs_value(before.take(i as int)) + limb * p) * factor == limbs_value(
                    before.take(i as int),
                ) * factor + (limb * factor) * p) by (nonlinear_arith);
                assert((limb * factor + carry) * p == (limb * factor) * p + carry * p)
                    by (nonlinear_arith);
            }
            carry = high;
            i = i + 1;
        }
        proof {
            assert(self.limbs@.take(n as int) =~= self.limbs@);
            assert(before.take(n as int) =~= before);
        }
        if carry > 0 {
            let ghost current = self.limbs@;
            self.limbs.push(carry as u32);
            proof {
                assert(self.limbs@.drop_last() =~= current);
            }
        } else {
            assert(0 * radix_pow(n as nat) == 0) by (nonlinear_arith);
        }
    }

    /// Whether the number is at most `other`.
    pub fn at_most(&self, other: &Natural) -> (r: bool)
        requires
            self.well_formed(),
            other.well_formed(),
        ensures
            r == (self@ <= other@),
    {
        let n = self.limbs.len();
        let m = other.limbs.len();
        proof {
            lemma_limbs_value_bound(self.limbs@);
            lemma_limbs_value_bound(other.limbs@);
        }
        if n < m {
            proof {
                lemma_limbs_value_least(other.limbs@);
                lemma_radix_pow_grows(n as nat, (m - 1) as nat);
            }
            return true;
        }
        if m < n {
            proof {
                lemma_limbs_value_least(self.limbs@);
                lemma_radix_pow_grows(m as nat, (n - 1) as nat);
            }
            return false;
        }
        let mut i: usize = n;
        while i > 0
            invariant
                i <= n,
                self.limbs@.len() == n,
                other.limbs@.len() == n,
                forall|j: int| i <= j < n ==> self.limbs@[j] == other.limbs@[j],
            decreases i,
        {
            i = i - 1;
            let a = self.limbs[i];
            let b = other.limbs[i];
            if a != b {
                proof {
                    let p = radix_pow(i as nat);
                    lemma_limbs_value_upper_equal(self.limbs@, other.limbs@, i + 1);
                    lemma_limbs_value_step(self.limbs@, i as int);
                    lemma_limbs_value_step(other.limbs@, i as int);
                    lemma_limbs_value_bound(self.limbs@.take(i as int));
                    lemma_limbs_value_bound(other.limbs@.take(i as int));
                    assert(a < b ==> a * p + p <= b * p) by (nonlinear_arith)
                        requires
                            p >= 0,
                    ;
                    assert(b < a ==> b * p + p <= a * p) by (nonlinear_arith)
                        requires
                            p >= 0,
                    ;
                }
                return a < b;
            }
        }
        proof {
            assert(self.limbs@ =~= other.limbs@);
        }
        true
    }
}

} // verus!
