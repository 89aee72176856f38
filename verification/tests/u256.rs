use wideint::codec::DecodeError;
use wideint::u256::U256;

#[test]
fn to_string() {
    assert_eq!(U256::from_u128(0).to_hex(), "0x0");
    assert_eq!(
        U256::from_u128(u128::MAX).to_hex(),
        "0xffffffffffffffffffffffffffffffff"
    );
}

#[test]
fn add() {
    assert_eq!(
        U256::from_u128(u128::MAX).add(U256::from_u128(u128::MAX)).to_hex(),
        "0x1fffffffffffffffffffffffffffffffe"
    );
    let mut x = U256::from_u128(u128::MAX);
    x.add_assign(U256::from_u128(1));
    assert_eq!(x.to_hex(), "0x100000000000000000000000000000000");
}

#[test]
fn compare() {
    assert!(U256::from_u128(0) < U256::from_u128(1));
    assert!(
        U256::from_str("0x100000000000000000000000000000000").unwrap()
            > U256::from_u128(1)
    );
}

#[test]
fn from_hex() {
    assert_eq!(U256::from_str("0x").unwrap(), U256::from_u128(0));
    assert_eq!(U256::from_str("0x1").unwrap(), U256::from_u128(1));
    assert_eq!(U256::from_str("0x01").unwrap(), U256::from_u128(1));
    assert_eq!(
        U256::from_str("0x1fffffffffffffffffffffffffffffffe").unwrap(),
        U256::from_u128(u128::MAX).add(U256::from_u128(u128::MAX))
    );
    assert_eq!(
        U256::from_str("0x001fffffffffffffffffffffffffffffffe").unwrap(),
        U256::from_u128(u128::MAX).add(U256::from_u128(u128::MAX))
    );
    assert_eq!(
        U256::from_str("0x100000000000000000000000000000000").unwrap(),
        U256::from_u128(u128::MAX).add(U256::from_u128(1))
    );
}

#[test]
fn from_decimal() {
    assert_eq!(U256::from_str("0").unwrap(), U256::from_u128(0));
    assert_eq!(U256::from_str("10").unwrap(), U256::from_u128(10));
    assert_eq!(
        U256::from_str("680564733841876926926749214863536422910").unwrap(),
        U256::from_u128(u128::MAX).add(U256::from_u128(u128::MAX))
    );
    assert_eq!(
        U256::from_str("000680564733841876926926749214863536422910").unwrap(),
        U256::from_u128(u128::MAX).add(U256::from_u128(u128::MAX))
    );
    assert_eq!(
        U256::from_str("340282366920938463463374607431768211456").unwrap(),
        U256::from_u128(u128::MAX).add(U256::from_u128(1))
    );
}

#[test]
fn to_decimal() {
    assert_eq!(U256::from_str("0").unwrap().to_decimal(), "0");
    assert_eq!(
        U256::from_str("680564733841876926926749214863536422910")
            .unwrap()
            .to_decimal(),
        "680564733841876926926749214863536422910"
    );
    assert_eq!(
        U256::from_str("000680564733841876926926749214863536422910")
            .unwrap()
            .to_decimal(),
        "680564733841876926926749214863536422910"
    );
    assert_eq!(
        U256::from_str("340282366920938463463374607431768211456")
            .unwrap()
            .to_decimal(),
        "340282366920938463463374607431768211456"
    );
}

#[test]
fn construction() {
    assert_eq!(U256::from_u128(5), U256::new(0, 5));
    assert_eq!(U256::max_value(), U256::new(u128::MAX, u128::MAX));
    assert_eq!(
        U256::max_value().to_decimal(),
        "115792089237316195423570985008687907853269984665640564039457584007913129639935"
    );
}

#[test]
fn wraparound_at_top() {
    assert_eq!(U256::max_value().add(U256::from_u128(1)), U256::new(0, 0));
}

#[test]
fn add_commutes_on_values() {
    let a = U256::new(7, u128::MAX - 2);
    let b = U256::new(u128::MAX, 12);
    assert_eq!(a.add(b), b.add(a));
    assert_eq!(a.add(b).add(a), a.add(b.add(a)));
}

#[test]
fn neg_is_additive_inverse() {
    let v = U256::new(0xdead, 0xbeef);
    assert_eq!(v.add(v.neg()), U256::new(0, 0));
    assert_eq!(U256::new(0, 0).neg(), U256::new(0, 0));
    assert_eq!(U256::from_u128(1).neg(), U256::max_value());
}

#[test]
fn sub_undoes_add() {
    let a = U256::new(3, 5);
    let b = U256::new(9, u128::MAX);
    assert_eq!(a.add(b).sub(b), a);
    let mut x = a;
    x.sub_assign(b);
    assert_eq!(x.add(b), a);
    assert_eq!(U256::from_u128(0).sub(U256::from_u128(1)), U256::max_value());
}

#[test]
fn lt_matches_magnitude() {
    assert!(U256::from_u128(5).lt(&U256::from_u128(7)));
    assert!(!U256::from_u128(7).lt(&U256::from_u128(7)));
    assert!(U256::from_u128(u128::MAX).lt(&U256::new(1, 0)));
}

#[test]
fn hex_rendering_pads_low_limb() {
    assert_eq!(U256::new(1, 0).to_hex(), "0x100000000000000000000000000000000");
    assert_eq!(U256::new(1, 1).to_hex(), "0x100000000000000000000000000000001");
    assert_eq!(U256::new(0xab, 0xcd).to_hex(), "0xab000000000000000000000000000000cd");
}

#[test]
fn hex_round_trip_on_values() {
    let v = U256::new(0xabc, 0xdef);
    assert_eq!(U256::from_str(&v.to_hex()).unwrap(), v);
    let w = U256::max_value();
    assert_eq!(U256::from_str(&w.to_hex()).unwrap(), w);
}

#[test]
fn decimal_round_trip_on_values() {
    let v = U256::new(0x123, 0x456);
    assert_eq!(U256::from_str(&v.to_decimal()).unwrap(), v);
}

#[test]
fn hex_too_long_is_refused() {
    let s = format!("0x{}", "0".repeat(65));
    assert_eq!(U256::from_str(&s), Err(DecodeError::TooLong));
    let t = format!("0x{}", "0".repeat(64));
    assert_eq!(U256::from_str(&t).unwrap(), U256::new(0, 0));
}

#[test]
fn hex_sign_prefix_is_refused() {
    assert_eq!(U256::from_str("0x+1"), Err(DecodeError::SignPrefix));
    assert_eq!(U256::from_str("0x-1"), Err(DecodeError::SignPrefix));
    let high_sign = format!("0x+{}", "0".repeat(34));
    assert_eq!(U256::from_str(&high_sign), Err(DecodeError::SignPrefix));
}

#[test]
fn malformed_digits_are_refused() {
    assert_eq!(U256::from_str("0xzz"), Err(DecodeError::InvalidDigit));
    assert_eq!(U256::from_str("12a4"), Err(DecodeError::InvalidDigit));
    assert_eq!(U256::from_str(""), Err(DecodeError::InvalidDigit));
    assert_eq!(U256::from_str("-1"), Err(DecodeError::InvalidDigit));
}

#[test]
fn decimal_out_of_range_is_refused() {
    let two_pow_256 =
        "115792089237316195423570985008687907853269984665640564039457584007913129639936";
    assert_eq!(U256::from_str(two_pow_256), Err(DecodeError::OutOfRange));
    let max =
        "115792089237316195423570985008687907853269984665640564039457584007913129639935";
    assert_eq!(U256::from_str(max).unwrap(), U256::max_value());
}

#[test]
fn hex_parsing_is_case_insensitive() {
    assert_eq!(
        U256::from_str("0xAbCdEf").unwrap(),
        U256::from_str("0xabcdef").unwrap()
    );
    assert_eq!(U256::from_str("0xFF").unwrap(), U256::from_u128(255));
}
