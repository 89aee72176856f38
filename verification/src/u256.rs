//! The two-limb representation and its arithmetic.

use vstd::prelude::*;

verus! {

/// 2^128, the weight of the high limb.
pub open spec fn pow128() -> nat {
    0x100000000000000000000000000000000nat
}

/// 2^256, the modulus of all arithmetic on [`U256`].
pub open spec fn pow256() -> nat {
    0x10000000000000000000000000000000000000000000000000000000000000000nat
}

/// The unique limb pair representing a value below 2^256: the high limb is
/// the quotient by 2^128 and the low limb the remainder.
pub open spec fn u256_of_nat(v: nat) -> U256 {
    U256 { high: (v / pow128()) as u128, low: (v % pow128()) as u128 }
}

/// The sum modulo 2^256, as a limb pair.
pub open spec fn spec_add(a: U256, b: U256) -> U256 {
    u256_of_nat((a.as_nat() + b.as_nat()) % pow256())
}

/// The additive inverse modulo 2^256, as a limb pair.
pub open spec fn spec_neg(a: U256) -> U256 {
    u256_of_nat(((pow256() - a.as_nat()) % (pow256() as int)) as nat)
}

/// The difference modulo 2^256: the sum with the inverse.
pub open spec fn spec_sub(a: U256, b: U256) -> U256 {
    spec_add(a, spec_neg(b))
}

/// An unsigned 256-bit integer, stored as two 128-bit limbs.
///
/// The represented value is `high * 2^128 + low`. Every pair of limbs is
/// valid, and all arithmetic wraps silently modulo 2^256. The derived
/// ordering compares `high` first and then `low`, which is exactly the
/// numeric order of the represented values.
#[derive(Clone, Copy, Debug, Hash, PartialEq, Eq, Structural, PartialOrd, Ord)]
pub struct U256 {
    pub high: u128,
    pub low: u128,
}

impl U256 {
    /// The numeric value represented by the two limbs.
    pub open spec fn as_nat(self) -> nat {
        self.high as nat * pow128() + self.low as nat
    }

    /// Builds a value from the two limbs; the full limb range is valid.
    pub fn new(high: u128, low: u128) -> (r: U256)
        ensures
            r == (U256 { high, low }),
    {
        U256 { high, low }
    }

    /// Promotes a native unsigned integer into the low limb.
    pub fn from_u128(v: u128) -> (r: U256)
        ensures
            r == (U256 { high: 0, low: v }),
            r.as_nat() == v,
    {
        U256 { high: 0, low: v }
    }

    /// The largest representable value, 2^256 - 1.
    pub fn max_value() -> (r: U256)
        ensures
            r == (U256 { high: u128::MAX, low: u128::MAX }),
            r.as_nat() == pow256() - 1,
    {
        U256 { high: u128::MAX, low: u128::MAX }
    }

    /// Addition modulo 2^256: low limbs are added first and an overflow
    /// there carries one into the high-limb addition, which itself wraps.
    pub fn add(self, rhs: U256) -> (r: U256)
        ensures
            r == spec_add(self, rhs),
            r.as_nat() == (self.as_nat() + rhs.as_nat()) % pow256(),
    {
        let low = self.low.wrapping_add(rhs.low);
        let carry = low < self.low;
        let mut high = self.high.wrapping_add(rhs.high);
        if carry {
            high = high.wrapping_add(1);
        }
        let r = U256 { high, low };
        proof {
            assert(carry == (self.low + rhs.low >= pow128()));
            lemma_add_limbs(self, rhs, high, low);
            lemma_u256_of_as_nat(r);
        }
        r
    }

    /// In-place addition: replaces `self` with `self + rhs`, modulo 2^256.
    pub fn add_assign(&mut self, rhs: U256)
        ensures
            *final (self) == spec_add(*old(self), rhs),
            final (self).as_nat() == (old(self).as_nat() + rhs.as_nat()) % pow256(),
    {
        *self = self.add(rhs);
    }

    /// Two's-complement negation over 256 bits: the additive inverse
    /// modulo 2^256.
    pub fn neg(self) -> (r: U256)
        ensures
            r == spec_neg(self),
            r.as_nat() == (pow256() - self.as_nat()) % (pow256() as int),
            (self.as_nat() + r.as_nat()) % pow256() == 0,
    {
        proof {
            lemma_not_u128(self.high);
            lemma_not_u128(self.low);
        }
        let complement = U256 { high: !self.high, low: !self.low };
        let r = complement.add(U256 { high: 0, low: 1 });
        proof {
            assert(complement.as_nat() == pow256() - 1 - self.as_nat());
            lemma_neg_value(self, r);
            lemma_u256_of_as_nat(r);
        }
        r
    }

    /// Subtraction modulo 2^256, defined as `self + (-rhs)`.
    pub fn sub(self, rhs: U256) -> (r: U256)
        ensures
            r == spec_sub(self, rhs),
            r.as_nat() == (self.as_nat() + pow256() - rhs.as_nat()) % (pow256() as int),
            (rhs.as_nat() + r.as_nat()) % pow256() == self.as_nat() % pow256(),
    {
        let r = self.add(rhs.neg());
        proof {
            lemma_sub_value(self, rhs, r);
        }
        r
    }

    /// In-place subtraction: replaces `self` with `self - rhs`, modulo 2^256.
    pub fn sub_assign(&mut self, rhs: U256)
        ensures
            *final (self) == spec_sub(*old(self), rhs),
            final (self).as_nat() == (old(self).as_nat() + pow256() - rhs.as_nat()) % (
            pow256() as int),
    {
        *self = self.sub(rhs);
    }

    /// Strictly-less-than over the numeric value: the high limbs decide,
    /// and on equal high limbs the low limbs do.
    pub fn lt(&self, other: &U256) -> (r: bool)
        ensures
            r == (self.as_nat() < other.as_nat()),
    {
        proof {
            lemma_order_matches_limbs(*self, *other);
        }
        self.high < other.high || (self.high == other.high && self.low < other.low)
    }
}

/// Bitwise complement of a 128-bit limb is its distance from the limb maximum.
proof fn lemma_not_u128(x: u128)
    ensures
        !x == u128::MAX - x,
{
    assert(!x == u128::MAX - x) by (bit_vector);
}

/// Every limb pair represents a value below 2^256.
pub proof fn lemma_as_nat_bound(a: U256)
    ensures
        a.as_nat() < pow256(),
{
    assert(a.as_nat() < pow256()) by (nonlinear_arith)
        requires
            a.high < pow128() && a.low < pow128() && a.as_nat() == a.high as nat
                * pow128() + a.low as nat,
    ;
}

/// The represented value determines the limbs: splitting it back by 2^128
/// returns the pair it came from. In particular `as_nat` is injective.
pub proof fn lemma_u256_of_as_nat(a: U256)
    ensures
        u256_of_nat(a.as_nat()) == a,
{
    vstd::arithmetic::div_mod::lemma_fundamental_div_mod_converse(
        a.as_nat() as int,
        pow128() as int,
        a.high as int,
        a.low as int,
    );
}

/// Splitting a value below 2^256 into limbs represents it exactly.
pub proof fn lemma_as_nat_of_nat(v: nat)
    requires
        v < pow256(),
    ensures
        u256_of_nat(v).as_nat() == v,
{
    vstd::arithmetic::div_mod::lemma_fundamental_div_mod(v as int, pow128() as int);
    assert(pow256() == pow128() * pow128()) by (nonlinear_arith);
    assert(v / pow128() < pow128()) by (nonlinear_arith)
        requires
            v < pow256() && pow256() == pow128() * pow128() && pow128() > 0,
    ;
}

/// The carry algorithm computes the sum of the represented values mod 2^256.
proof fn lemma_add_limbs(a: U256, b: U256, high: u128, low: u128)
    requires
        low == if a.low + b.low < pow128() {
            a.low + b.low
        } else {
            a.low + b.low - pow128()
        },
        ({
            let c: int = if a.low + b.low < pow128() {
                0
            } else {
                1
            };
            let hs = a.high + b.high + c;
            high == if hs < pow128() {
                hs
            } else {
                hs - pow128()
            }
        }),
    ensures
        (U256 { high, low }).as_nat() == (a.as_nat() + b.as_nat()) % pow256(),
{
    let r = U256 { high, low };
    let sum = a.as_nat() + b.as_nat();
    let c: int = if a.low + b.low < pow128() {
        0
    } else {
        1
    };
    let hs = a.high + b.high + c;
    assert(pow128() * pow128() == pow256()) by (nonlinear_arith);
    assert(hs * pow128() == a.high * pow128() + b.high * pow128() + c * pow128())
        by (nonlinear_arith)
        requires
            hs == a.high + b.high + c,
    ;
    if hs < pow128() {
        assert(r.as_nat() == sum);
        lemma_as_nat_bound(r);
        vstd::arithmetic::div_mod::lemma_small_mod(sum, pow256());
    } else {
        assert((hs - pow128()) * pow128() == hs * pow128() - pow128() * pow128())
            by (nonlinear_arith);
        assert(r.as_nat() + pow256() == sum);
        lemma_as_nat_bound(r);
        vstd::arithmetic::div_mod::lemma_mod_multiples_vanish(
            1,
            r.as_nat() as int,
            pow256() as int,
        );
        vstd::arithmetic::div_mod::lemma_small_mod(r.as_nat(), pow256());
    }
}

/// Complement-then-increment yields the additive inverse modulo 2^256.
proof fn lemma_neg_value(a: U256, r: U256)
    requires
        r.as_nat() == ((pow256() - 1 - a.as_nat()) + 1) % (pow256() as int),
    ensures
        r.as_nat() == (pow256() - a.as_nat()) % (pow256() as int),
        (a.as_nat() + r.as_nat()) % pow256() == 0,
{
    assert(pow256() - 1 - a.as_nat() + 1 == pow256() - a.as_nat());
    if a.as_nat() == 0 {
        vstd::arithmetic::div_mod::lemma_mod_self_0(pow256() as int);
    } else {
        vstd::arithmetic::div_mod::lemma_small_mod(
            (pow256() - a.as_nat()) as nat,
            pow256(),
        );
        vstd::arithmetic::div_mod::lemma_mod_self_0(pow256() as int);
    }
}

/// `a + (-b)` represents subtraction: adding `b` back restores `a` mod 2^256.
proof fn lemma_sub_value(a: U256, b: U256, r: U256)
    requires
        r.as_nat() == (a.as_nat() + (pow256() - b.as_nat()) % (pow256() as int)) % (pow256() as int),
    ensures
        r.as_nat() == (a.as_nat() + pow256() - b.as_nat()) % (pow256() as int),
        (b.as_nat() + r.as_nat()) % pow256() == a.as_nat() % pow256(),
{
    let m = pow256() as int;
    let av = a.as_nat() as int;
    let bv = b.as_nat() as int;
    vstd::arithmetic::div_mod::lemma_add_mod_noop(av, m - bv, m);
    vstd::arithmetic::div_mod::lemma_mod_twice(m - bv, m);
    vstd::arithmetic::div_mod::lemma_add_mod_noop(bv, av + (m - bv), m);
    vstd::arithmetic::div_mod::lemma_mod_twice(av + (m - bv), m);
    vstd::arithmetic::div_mod::lemma_mod_multiples_vanish(1, av, m);
    vstd::arithmetic::div_mod::lemma_small_mod(a.as_nat(), pow256());
}

/// Lexicographic comparison of the limbs agrees with the numeric order.
proof fn lemma_order_matches_limbs(a: U256, b: U256)
    ensures
        (a.as_nat() < b.as_nat()) == (a.high < b.high || (a.high == b.high
            && a.low < b.low)),
{
    if a.high < b.high {
        assert(a.as_nat() < b.as_nat()) by (nonlinear_arith)
            requires
                a.high < b.high && a.low < pow128() && b.low < pow128()
                    && a.as_nat() == a.high * pow128() + a.low && b.as_nat() == b.high
                    * pow128() + b.low,
        ;
    } else if a.high > b.high {
        assert(b.as_nat() < a.as_nat()) by (nonlinear_arith)
            requires
                b.high < a.high && a.low < pow128() && b.low < pow128()
                    && a.as_nat() == a.high * pow128() + a.low && b.as_nat() == b.high
                    * pow128() + b.low,
        ;
    }
}

} // verus!
