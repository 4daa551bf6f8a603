use evmil::util::u256;
use evmil::util::{from_be_digits, to_be_bytes};

#[test]
fn test_to_be_bytes_zero_is_one_byte() {
    assert_eq!(to_be_bytes(0), vec![0]);
}

#[test]
fn test_to_be_bytes_minimal() {
    assert_eq!(to_be_bytes(1), vec![1]);
    assert_eq!(to_be_bytes(255), vec![255]);
    assert_eq!(to_be_bytes(256), vec![1, 0]);
    assert_eq!(to_be_bytes(0x0102_03), vec![1, 2, 3]);
    assert_eq!(to_be_bytes(u128::MAX), vec![0xff; 16]);
}

#[test]
fn test_from_be_digits_decimal() {
    assert_eq!(from_be_digits(&[], 10), vec![0]);
    assert_eq!(from_be_digits(&[0], 10), vec![0]);
    assert_eq!(from_be_digits(&[0, 0, 7], 10), vec![7]);
    assert_eq!(from_be_digits(&[2, 5, 5], 10), vec![255]);
    assert_eq!(from_be_digits(&[2, 5, 6], 10), vec![1, 0]);
    assert_eq!(from_be_digits(&[6, 5, 5, 3, 6], 10), vec![1, 0, 0]);
}

#[test]
fn test_from_be_digits_hex() {
    assert_eq!(from_be_digits(&[0xf, 0xf], 16), vec![0xff]);
    assert_eq!(from_be_digits(&[1, 0, 0], 16), vec![1, 0]);
    assert_eq!(from_be_digits(&[0xa, 0xb, 0xc], 16), vec![0x0a, 0xbc]);
}

#[test]
fn test_from_be_digits_beyond_128_bits() {
    // 2^128 = 340282366920938463463374607431768211456
    let digits: Vec<u8> = "340282366920938463463374607431768211456"
        .bytes()
        .map(|c| c - b'0')
        .collect();
    let mut expected = vec![1u8];
    expected.extend_from_slice(&[0; 16]);
    assert_eq!(from_be_digits(&digits, 10), expected);
}

#[test]
fn test_from_be_digits_agrees_with_to_be_bytes() {
    let digits: Vec<u8> = "18446744073709551616".bytes().map(|c| c - b'0').collect();
    assert_eq!(from_be_digits(&digits, 10), to_be_bytes(18446744073709551616));
}

#[test]
fn test_u256_from_u64() {
    assert_eq!(u256::from(0u64).to_u64(), Some(0));
    assert_eq!(u256::from(u64::MAX).to_u64(), Some(u64::MAX));
    assert_eq!(u256::from(42u64).low_u64(), 42);
}

#[test]
fn test_u256_from_bytes() {
    let one: &[u8] = &[0x01];
    assert_eq!(u256::from(one).to_u64(), Some(1));
    let wide: &[u8] = &[0x01, 0x02, 0x03];
    assert_eq!(u256::from(wide).to_u64(), Some(0x010203));
    let nine: &[u8] = &[1, 0, 0, 0, 0, 0, 0, 0, 0];
    assert_eq!(u256::from(nine).to_u64(), None);
    assert_eq!(u256::from(nine).low_u64(), 0);
    let empty: &[u8] = &[];
    assert_eq!(u256::from(empty).to_u64(), Some(0));
}

#[test]
fn test_u256_from_bytes_keeps_last_word() {
    let mut bytes = vec![0xaau8; 8];
    bytes.extend_from_slice(&[0; 31]);
    bytes.push(9);
    assert_eq!(u256::from(bytes.as_slice()).to_u64(), Some(9));
}

#[test]
fn test_u256_add() {
    let sum = u256::from(1u64) + u256::from(2u64);
    assert_eq!(sum.to_u64(), Some(3));
    assert_eq!(sum, u256::from(3u64));
}

#[test]
fn test_u256_add_carries() {
    let sum = u256::from(u64::MAX) + u256::from(1u64);
    assert_eq!(sum.to_u64(), None);
    assert_eq!(sum.low_u64(), 0);
    let nine: &[u8] = &[1, 0, 0, 0, 0, 0, 0, 0, 0];
    assert_eq!(sum, u256::from(nine));
}
