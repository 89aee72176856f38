//! The algebraic and round-trip laws of the wide integer, stated once and
//! proved for every value.

use vstd::prelude::*;

use crate::codec::{dec_decode, decode, has_hex_prefix, hex_decode, hex_low_start, hex_render};
use crate::decimal::{all_dec_digits, dec_value, is_dec_digit};
use crate::hex::{
    hex_pad, hex_str, hex_value, is_hex_digit, lemma_hex_pad_props, lemma_hex_str_len,
    lemma_hex_str_props, lemma_pow16_32,
};
use crate::u256::{
    lemma_as_nat_bound, lemma_as_nat_of_nat, lemma_u256_of_as_nat, pow256, spec_add,
    spec_neg, u256_of_nat, U256,
};

verus! {

/// Addition modulo 2^256 is commutative.
pub proof fn lemma_add_commutes(a: U256, b: U256)
    ensures
        spec_add(a, b) == spec_add(b, a),
{
}

/// Addition modulo 2^256 is associative.
pub proof fn lemma_add_associates(a: U256, b: U256, c: U256)
    ensures
        spec_add(spec_add(a, b), c) == spec_add(a, spec_add(b, c)),
{
    let m = pow256() as int;
    let av = a.as_nat() as int;
    let bv = b.as_nat() as int;
    let cv = c.as_nat() as int;
    vstd::arithmetic::div_mod::lemma_mod_bound(av + bv, m);
    vstd::arithmetic::div_mod::lemma_mod_bound(bv + cv, m);
    lemma_as_nat_of_nat(((av + bv) % m) as nat);
    lemma_as_nat_of_nat(((bv + cv) % m) as nat);
    lemma_as_nat_bound(a);
    lemma_as_nat_bound(c);
    vstd::arithmetic::div_mod::lemma_small_mod(a.as_nat(), pow256());
    vstd::arithmetic::div_mod::lemma_small_mod(c.as_nat(), pow256());
    vstd::arithmetic::div_mod::lemma_add_mod_noop(av + bv, cv, m);
    vstd::arithmetic::div_mod::lemma_add_mod_noop(av, bv + cv, m);
}

/// Every value added to its negation gives zero: `v + (-v) == new(0, 0)`.
pub proof fn lemma_add_inverse(v: U256)
    ensures
        spec_add(v, spec_neg(v)) == (U256 { high: 0, low: 0 }),
{
    let m = pow256();
    lemma_as_nat_bound(v);
    let zero = U256 { high: 0, low: 0 };
    lemma_u256_of_as_nat(zero);
    if v.as_nat() == 0 {
        vstd::arithmetic::div_mod::lemma_mod_self_0(m as int);
        vstd::arithmetic::div_mod::lemma_small_mod(0, m);
        lemma_as_nat_of_nat(0);
    } else {
        vstd::arithmetic::div_mod::lemma_small_mod((m - v.as_nat()) as nat, m);
        lemma_as_nat_of_nat((m - v.as_nat()) as nat);
        vstd::arithmetic::div_mod::lemma_mod_self_0(m as int);
    }
}

/// Two values are equal exactly when they represent the same number: the
/// limb-wise order is total and agrees with the numeric magnitude.
pub proof fn lemma_order_total(a: U256, b: U256)
    ensures
        (a == b) == (a.as_nat() == b.as_nat()),
        a.as_nat() < b.as_nat() || b.as_nat() < a.as_nat() || a == b,
{
    lemma_u256_of_as_nat(a);
    lemma_u256_of_as_nat(b);
}

/// Hexadecimal round trip: decoding the canonical hexadecimal rendering of
/// any value reproduces that value exactly.
pub proof fn lemma_hex_round_trip(v: U256)
    ensures
        decode(hex_render(v)) == Result::<U256, crate::codec::DecodeError>::Ok(v),
{
    let s = hex_render(v);
    let prefix = seq!['0', 'x'];
    lemma_pow16_32();
    if v.high == 0 {
        let t = hex_str(v.low as nat);
        lemma_hex_str_props(v.low as nat);
        lemma_hex_str_len(v.low as nat, 32);
        assert(s == prefix + t);
        assert(s[0] == '0' && s[1] == 'x');
        assert(s.len() == 2 + t.len() <= 34);
        assert(hex_low_start(s) == 2);
        let lows = s.subrange(2, s.len() as int);
        let highs = s.subrange(2, 2);
        assert(lows =~= t);
        assert(highs =~= Seq::<char>::empty());
        assert(is_hex_digit(lows[0]));
        assert(!crate::codec::is_sign_char(lows[0]));
        assert(hex_value(highs) == 0);
        assert(hex_decode(s) == Result::<U256, crate::codec::DecodeError>::Ok(
            U256 { high: 0, low: v.low },
        ));
    } else {
        let th = hex_str(v.high as nat);
        let tl = hex_pad(v.low as nat, 32);
        lemma_hex_str_props(v.high as nat);
        lemma_hex_str_len(v.high as nat, 32);
        lemma_hex_pad_props(v.low as nat, 32);
        assert(s == prefix + (th + tl));
        assert(s[0] == '0' && s[1] == 'x');
        assert(s.len() == 2 + th.len() + 32);
        assert(34 < s.len() <= 66);
        assert(hex_low_start(s) == 2 + th.len());
        let lows = s.subrange(hex_low_start(s), s.len() as int);
        let highs = s.subrange(2, hex_low_start(s));
        assert(lows =~= tl);
        assert(highs =~= th);
        assert(is_hex_digit(lows[0]) && is_hex_digit(highs[0]));
        assert(!crate::codec::is_sign_char(lows[0]));
        assert(!crate::codec::is_sign_char(highs[0]));
        assert(hex_decode(s) == Result::<U256, crate::codec::DecodeError>::Ok(
            U256 { high: v.high, low: v.low },
        ));
    }
    assert(has_hex_prefix(s));
}

/// Decimal round trip: any string of decimal digits whose magnitude is the
/// value of `v` — the rendering `to_decimal` produces is one — decodes back
/// to `v` exactly.
pub proof fn lemma_dec_round_trip(v: U256, s: Seq<char>)
    requires
        s.len() > 0,
        all_dec_digits(s),
        dec_value(s) == v.as_nat(),
    ensures
        decode(s) == Result::<U256, crate::codec::DecodeError>::Ok(v),
{
    assert(!has_hex_prefix(s)) by {
        if s.len() >= 2 && s[1] == 'x' {
            assert(is_dec_digit(s[1]));
            assert(!is_dec_digit('x'));
        }
    }
    lemma_as_nat_bound(v);
    lemma_u256_of_as_nat(v);
    assert(dec_decode(s) == Result::<U256, crate::codec::DecodeError>::Ok(
        u256_of_nat(v.as_nat()),
    ));
}

} // verus!
