use genesis_tool::hexfmt::{dec_u64, hex_decode_digits, hex_encode, trim_ascii};
use genesis_tool::u256::{parse_u128_dec, parse_u256_dec, parse_u256_hex, NumParseError, U256};

#[test]
fn u256_from_parts_and_zero() {
    let z = U256::zero();
    assert!(z.is_zero());
    let x = U256::from_u64(7);
    assert!(!x.is_zero());
    assert_eq!(x, U256 { l0: 7, l1: 0, l2: 0, l3: 0 });
    let y = U256::from_u128(0x1_0000_0000_0000_0000u128);
    assert_eq!(y, U256 { l0: 0, l1: 1, l2: 0, l3: 0 });
}

#[test]
fn u256_checked_add_carries_and_overflows() {
    let max_low = U256 { l0: u64::MAX, l1: 0, l2: 0, l3: 0 };
    let one = U256::from_u64(1);
    let sum = max_low.checked_add(&one).unwrap();
    assert_eq!(sum, U256 { l0: 0, l1: 1, l2: 0, l3: 0 });
    let all_max = U256 { l0: u64::MAX, l1: u64::MAX, l2: u64::MAX, l3: u64::MAX };
    assert!(all_max.checked_add(&one).is_none());
    assert!(all_max.checked_add(&U256::zero()).is_some());
}

#[test]
fn u256_mul_small_add_exact() {
    let x = U256::from_u64(1000);
    let y = x.mul_small_add(10, 7).unwrap();
    assert_eq!(y, U256::from_u64(10007));
    let all_max = U256 { l0: u64::MAX, l1: u64::MAX, l2: u64::MAX, l3: u64::MAX };
    assert!(all_max.mul_small_add(2, 0).is_none());
}

#[test]
fn u256_divmod_small() {
    let x = U256::from_u64(10007);
    let (q, r) = x.divmod_small(10);
    assert_eq!(q, U256::from_u64(1000));
    assert_eq!(r, 7);
    let y = U256 { l0: 1, l1: 1, l2: 0, l3: 0 };
    let (q2, r2) = y.divmod_small(2);
    assert_eq!(r2, 1);
    assert_eq!(q2, U256 { l0: 0x8000_0000_0000_0000, l1: 0, l2: 0, l3: 0 });
}

#[test]
fn u256_decimal_rendering() {
    let x = U256::from_u128(10_000_000_000_000_000_000_000_000u128);
    assert_eq!(x.to_dec_bytes(), b"10000000000000000000000000".to_vec());
    assert_eq!(U256::zero().to_dec_bytes(), b"0".to_vec());
}

#[test]
fn parse_u256_decimal_cases() {
    let x = parse_u256_dec(b"12345").unwrap();
    assert_eq!(x, U256::from_u64(12345));
    assert_eq!(parse_u256_dec(b""), Err(NumParseError::Malformed));
    assert_eq!(parse_u256_dec(b"12a"), Err(NumParseError::Malformed));
    // 78 nines exceeds 2^256.
    let nines = vec![b'9'; 78];
    assert_eq!(parse_u256_dec(&nines), Err(NumParseError::Overflow));
}

#[test]
fn parse_u128_decimal_cases() {
    assert_eq!(
        parse_u128_dec(b"340282366920938463463374607431768211455"),
        Ok(u128::MAX)
    );
    assert_eq!(
        parse_u128_dec(b"340282366920938463463374607431768211456"),
        Err(NumParseError::Overflow)
    );
    assert_eq!(parse_u128_dec(b"x"), Err(NumParseError::Malformed));
}

#[test]
fn parse_u256_hex_defaults_to_zero() {
    assert_eq!(parse_u256_hex(b"0x10"), U256::from_u64(16));
    assert_eq!(parse_u256_hex(b"ff"), U256::from_u64(255));
    assert_eq!(parse_u256_hex(b""), U256::zero());
    assert_eq!(parse_u256_hex(b"0x"), U256::zero());
    assert_eq!(parse_u256_hex(b"zz"), U256::zero());
}

#[test]
fn hex_decode_and_encode_round_trip() {
    let decoded = hex_decode_digits(b"deadBEEF").unwrap();
    assert_eq!(decoded, vec![0xde, 0xad, 0xbe, 0xef]);
    assert_eq!(hex_encode(&decoded), b"deadbeef".to_vec());
    assert!(hex_decode_digits(b"abc").is_none());
    assert!(hex_decode_digits(b"zz").is_none());
    assert_eq!(hex_decode_digits(b"").unwrap(), Vec::<u8>::new());
}

#[test]
fn decimal_text_of_u64() {
    assert_eq!(dec_u64(0), b"0".to_vec());
    assert_eq!(dec_u64(12345), b"12345".to_vec());
    assert_eq!(dec_u64(u64::MAX), b"18446744073709551615".to_vec());
}

#[test]
fn trim_removes_surrounding_whitespace() {
    assert_eq!(trim_ascii(b"  60ff\n"), b"60ff".to_vec());
    assert_eq!(trim_ascii(b"\t\r\n "), Vec::<u8>::new());
    assert_eq!(trim_ascii(b"abc"), b"abc".to_vec());
}
