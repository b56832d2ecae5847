use rio::utils::{is_whitespace, small_value_to_num, to_digit};

#[test]
fn digits_have_their_values() {
    assert_eq!(to_digit(b'0'), Some(0));
    assert_eq!(to_digit(b'5'), Some(5));
    assert_eq!(to_digit(b'9'), Some(9));
}

#[test]
fn other_bytes_are_no_digits() {
    assert_eq!(to_digit(b'/'), None);
    assert_eq!(to_digit(b':'), None);
    assert_eq!(to_digit(b'a'), None);
    assert_eq!(to_digit(b'-'), None);
    assert_eq!(to_digit(0), None);
    assert_eq!(to_digit(255), None);
}

#[test]
fn six_bytes_are_blank() {
    for byte in 0..=255u8 {
        let expected = matches!(byte, b' ' | b'\t' | b'\n' | b'\r' | 0x0b | 0x0c);
        assert_eq!(is_whitespace(byte), expected);
    }
}

#[test]
fn small_values_keep_their_value() {
    assert_eq!(small_value_to_num::<u8>(10), 10u8);
    assert_eq!(small_value_to_num::<u32>(7), 7u32);
    assert_eq!(small_value_to_num::<u128>(127), 127u128);
    assert_eq!(small_value_to_num::<usize>(0), 0usize);
    assert_eq!(small_value_to_num::<i8>(-128), i8::MIN);
    assert_eq!(small_value_to_num::<i16>(-9), -9i16);
    assert_eq!(small_value_to_num::<i64>(9), 9i64);
    assert_eq!(small_value_to_num::<i128>(-1), -1i128);
}
