use zk_recovery::u256::U256;

#[test]
fn parses_and_prints_decimal_numerals() {
    let v = U256::from_dec_str("123456789012345678901234567890").unwrap();
    assert_eq!(v.to_dec_string(), "123456789012345678901234567890");
    assert_eq!(U256::from_dec_str("0").unwrap(), U256::zero());
    assert_eq!(U256::zero().to_dec_string(), "0");
    assert_eq!(U256::from_dec_str("42").unwrap(), U256::from_u64(42));
}

#[test]
fn accepts_leading_zeros_and_the_empty_numeral() {
    // The numeral format is the permissive one the accumulator always used:
    // any all-digit string, the empty string counting as zero.
    assert_eq!(U256::from_dec_str(""), Some(U256::zero()));
    assert_eq!(U256::from_dec_str("007"), Some(U256::from_u64(7)));
    assert_eq!(U256::from_dec_str("007").unwrap().to_dec_string(), "7");
}

#[test]
fn rejects_non_digits_and_overflow() {
    assert_eq!(U256::from_dec_str("12a3"), None);
    assert_eq!(U256::from_dec_str("-5"), None);
    assert_eq!(U256::from_dec_str("1 2"), None);
    // 2^256 - 1 is the largest value; one more overflows.
    let max = "115792089237316195423570985008687907853269984665640564039457584007913129639935";
    let over = "115792089237316195423570985008687907853269984665640564039457584007913129639936";
    let m = U256::from_dec_str(max).unwrap();
    assert_eq!(m.to_dec_string(), max);
    assert_eq!(
        m,
        U256 { w0: u64::MAX, w1: u64::MAX, w2: u64::MAX, w3: u64::MAX }
    );
    assert_eq!(U256::from_dec_str(over), None);
}

#[test]
fn big_endian_bytes_are_most_significant_first() {
    let one = U256::from_u64(1).to_big_endian();
    assert_eq!(one.len(), 32);
    assert_eq!(one[31], 1);
    assert!(one[..31].iter().all(|b| *b == 0));
    let v = U256 { w0: 0x0102, w1: 0, w2: 0, w3: 0xAB00_0000_0000_0000 };
    let bytes = v.to_big_endian();
    assert_eq!(bytes[0], 0xAB);
    assert_eq!(bytes[30], 0x01);
    assert_eq!(bytes[31], 0x02);
}
