use blockworld::utils::{
    base36_from_i64, base36_to_base10, decimal_from_i32, lossy_u64_from_base36,
};
use blockworld::wire::{get_u16, get_u32, get_u64, put_u16, put_u32, put_u64};

#[test]
fn test_base_conv() {
    assert_eq!(base36_to_base10(18), 44);
    println!("base: {}", base36_to_base10(-127));
    println!("{}", (12 << 4));
}

#[test]
fn test_lossy_u64_from_base36() {
    assert_eq!(lossy_u64_from_base36("ya"), 1234);
    assert_eq!(lossy_u64_from_base36("7cik2"), 12341234);
}

#[test]
fn test_base36_from_u64() {
    assert_eq!(base36_from_i64(1234), "ya");
    assert_eq!(base36_from_i64(12341234), "7cik2");
}

#[test]
fn base36_numerals_of_special_numbers() {
    assert_eq!(base36_from_i64(0), "0");
    assert_eq!(base36_from_i64(35), "z");
    assert_eq!(base36_from_i64(36), "10");
    assert_eq!(base36_from_i64(-1), "");
    assert_eq!(base36_from_i64(i64::MIN), "");
    assert_eq!(base36_from_i64(i64::MAX), "1y2p0ij32e8e7");
}

#[test]
fn base36_numerals_are_read_back() {
    for n in [0, 1, 35, 36, 63, 1295, 1296, 987654321, i64::MAX] {
        assert_eq!(lossy_u64_from_base36(&base36_from_i64(n)), n as u64);
    }
}

#[test]
fn other_characters_are_skipped() {
    assert_eq!(lossy_u64_from_base36(""), 0);
    assert_eq!(lossy_u64_from_base36("-Y.y A!a\u{e9}"), 1234);
}

#[test]
fn long_numerals_are_cut_to_64_bits() {
    assert_eq!(lossy_u64_from_base36("3w5e11264sgsf"), u64::MAX);
    assert_eq!(lossy_u64_from_base36("3w5e11264sgsg"), 0);
    assert_eq!(lossy_u64_from_base36("3w5e11264sgsh"), 1);
}

#[test]
fn decimal_digits_read_in_base_36() {
    assert_eq!(base36_to_base10(0), 0);
    assert_eq!(base36_to_base10(9), 9);
    assert_eq!(base36_to_base10(10), 36);
    assert_eq!(base36_to_base10(127), 1296 + 2 * 36 + 7);
    assert_eq!(base36_to_base10(-127), -(1296 + 2 * 36 + 7));
    assert_eq!(base36_to_base10(-18), -44);
}

#[test]
fn decimal_numerals() {
    assert_eq!(decimal_from_i32(0), "0");
    assert_eq!(decimal_from_i32(-1), "-1");
    assert_eq!(decimal_from_i32(1234567890), "1234567890");
    assert_eq!(decimal_from_i32(i32::MAX), "2147483647");
    assert_eq!(decimal_from_i32(i32::MIN), "-2147483648");
}

#[test]
fn numbers_are_big_endian() {
    let mut bytes = Vec::new();
    put_u16(&mut bytes, 0x0102);
    put_u32(&mut bytes, 0x03040506);
    put_u64(&mut bytes, 0x0708090a0b0c0d0e);
    assert_eq!(bytes, (1..=14).collect::<Vec<u8>>());
    assert_eq!(get_u16(&bytes, 0), 0x0102);
    assert_eq!(get_u32(&bytes, 2), 0x03040506);
    assert_eq!(get_u64(&bytes, 6), 0x0708090a0b0c0d0e);
}
