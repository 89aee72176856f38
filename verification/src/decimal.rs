//! Decimal text and base-2^64 digits, with the big-integer collaborator
//! behind trusted wrappers.

use vstd::prelude::*;

use crate::u256::{pow128, pow256};

verus! {

/// 2^64, the base of the digit decomposition that the big-integer
/// collaborator hands back.
pub open spec fn pow64() -> nat {
    0x10000000000000000nat
}

pub open spec fn is_dec_digit(c: char) -> bool {
    '0' as u32 <= c as u32 && c as u32 <= '9' as u32
}

pub open spec fn dec_digit_val(c: char) -> nat {
    (c as u32 - '0' as u32) as nat
}

pub open spec fn all_dec_digits(s: Seq<char>) -> bool {
    forall|i: int| 0 <= i < s.len() ==> is_dec_digit(#[trigger] s[i])
}

/// The value of a big-endian string of decimal digits;
/// the empty string denotes zero.
pub open spec fn dec_value(s: Seq<char>) -> nat
    decreases s.len(),
{
    if s.len() == 0 {
        0
    } else {
        10 * dec_value(s.drop_last()) + dec_digit_val(s.last())
    }
}

/// The value of a least-significant-first sequence of base-2^64 digits.
pub open spec fn u64_digits_value(ds: Seq<u64>) -> nat
    decreases ds.len(),
{
    if ds.len() == 0 {
        0
    } else {
        ds[0] as nat + pow64() * u64_digits_value(ds.drop_first())
    }
}

/// 2^64 raised to the number of digits: the first value that needs one
/// digit more.
pub open spec fn pow64e(e: nat) -> nat
    decreases e,
{
    if e == 0 {
        1
    } else {
        pow64() * pow64e((e - 1) as nat)
    }
}

/// Four base-2^64 digits cover exactly the 256-bit range.
pub proof fn lemma_pow64e_4()
    ensures
        pow64e(4) == pow256(),
{
    reveal_with_fuel(pow64e, 5);
}

/// A sequence of e digits denotes a value below 2^(64 e).
pub proof fn lemma_u64_digits_value_bound(ds: Seq<u64>)
    ensures
        u64_digits_value(ds) < pow64e(ds.len()),
    decreases ds.len(),
{
    if ds.len() > 0 {
        let rest = ds.drop_first();
        lemma_u64_digits_value_bound(rest);
        assert(ds[0] + pow64() * u64_digits_value(rest) < pow64() * pow64e(rest.len()))
            by (nonlinear_arith)
            requires
                ds[0] < pow64() && u64_digits_value(rest) < pow64e(rest.len()),
        ;
    }
}

/// When the most significant digit is not zero, the value needs every
/// digit: it is at least 2^(64 (e - 1)).
pub proof fn lemma_u64_digits_value_lower(ds: Seq<u64>)
    requires
        ds.len() > 0,
        ds.last() != 0,
    ensures
        u64_digits_value(ds) >= pow64e((ds.len() - 1) as nat),
    decreases ds.len(),
{
    let rest = ds.drop_first();
    if ds.len() == 1 {
        assert(u64_digits_value(ds) == ds[0] + pow64() * u64_digits_value(rest));
        assert(rest.len() == 0);
    } else {
        assert(rest.last() == ds.last());
        lemma_u64_digits_value_lower(rest);
        assert(pow64() * u64_digits_value(rest) >= pow64() * pow64e(
            (rest.len() - 1) as nat,
        )) by (nonlinear_arith)
            requires
                u64_digits_value(rest) >= pow64e((rest.len() - 1) as nat) && pow64()
                    > 0,
        ;
    }
}

/// Unfolds the value of at most four digits into the explicit weighted sum.
pub proof fn lemma_u64_digits_value_4(ds: Seq<u64>, d0: u64, d1: u64, d2: u64, d3: u64)
    requires
        ds.len() <= 4,
        d0 == if ds.len() > 0 {
            ds[0]
        } else {
            0
        },
        d1 == if ds.len() > 1 {
            ds[1]
        } else {
            0
        },
        d2 == if ds.len() > 2 {
            ds[2]
        } else {
            0
        },
        d3 == if ds.len() > 3 {
            ds[3]
        } else {
            0
        },
    ensures
        u64_digits_value(ds) == (d3 * pow64() + d2) * pow128() + (d1 * pow64() + d0),
{
    let p = pow64();
    let v3 = d3 as nat;
    let v2 = d2 + p * v3;
    let v1 = d1 + p * v2;
    let v0 = d0 + p * v1;
    if ds.len() == 0 {
        assert(u64_digits_value(ds) == v0);
    } else {
        let r1 = ds.drop_first();
        assert(u64_digits_value(ds) == d0 + p * u64_digits_value(r1));
        if ds.len() == 1 {
            assert(u64_digits_value(r1) == v1);
        } else {
            let r2 = r1.drop_first();
            assert(r1[0] == ds[1]);
            assert(u64_digits_value(r1) == d1 + p * u64_digits_value(r2));
            if ds.len() == 2 {
                assert(u64_digits_value(r2) == v2);
            } else {
                let r3 = r2.drop_first();
                assert(r2[0] == ds[2]);
                assert(u64_digits_value(r2) == d2 + p * u64_digits_value(r3));
                if ds.len() == 3 {
                    assert(u64_digits_value(r3) == v3);
                } else {
                    let r4 = r3.drop_first();
                    assert(r3[0] == ds[3]);
                    assert(u64_digits_value(r3) == d3 + p * u64_digits_value(r4));
                    assert(r4.len() == 0);
                }
            }
        }
    }
    assert(u64_digits_value(ds) == v0);
    assert(d0 + p * (d1 + p * (d2 + p * d3)) == (d3 * p + d2) * (p * p) + (d1 * p
        + d0)) by (nonlinear_arith);
    assert(p * p == pow128()) by (nonlinear_arith)
        requires
            p == 0x10000000000000000nat && pow128()
                == 0x100000000000000000000000000000000nat,
    ;
}

/// Relies on num_bigint::BigUint: parsing a non-empty string of decimal
/// digits succeeds and yields its base-10 magnitude, and `to_u64_digits`
/// returns that magnitude's base-2^64 digits, least significant first,
/// normalized so that the last digit is never zero.
#[verifier::external_body]
pub(crate) fn dec_digits_of_str(s: &str) -> (r: Vec<u64>)
    requires
        s@.len() > 0,
        all_dec_digits(s@),
    ensures
        u64_digits_value(r@) == dec_value(s@),
        r@.len() > 0 ==> r@.last() != 0,
{
    let value: num_bigint::BigUint = s.parse().unwrap();
    value.to_u64_digits()
}

/// Relies on num_bigint::BigUint: shifting the high limb left by 128 bits
/// and OR-ing in the low limb rebuilds the magnitude `high * 2^128 + low`,
/// and `Display` renders that magnitude in base 10 with no sign and no
/// leading zeros.
#[verifier::external_body]
pub(crate) fn limbs_decimal_string(high: u128, low: u128) -> (r: String)
    ensures
        r@.len() > 0,
        all_dec_digits(r@),
        dec_value(r@) == high as nat * pow128() + low as nat,
        r@.len() > 1 ==> r@[0] != '0',
{
    let value = (num_bigint::BigUint::from(high) << 128u32) | num_bigint::BigUint::from(
        low,
    );
    format!("{}", value)
}

} // verus!
