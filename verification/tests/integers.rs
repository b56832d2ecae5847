use rio::integer::extract_int;
use rio::{InputError, Rio};
use std::io::Cursor;

fn over(text: &str) -> Rio<Cursor<Vec<u8>>> {
    Rio::new(Cursor::new(text.as_bytes().to_vec()))
}

#[test]
fn u8_stops_at_letter() {
    let mut rio = over("123abc");
    assert_eq!(rio.read::<u8>(), Some(123));
    assert_eq!(rio.read::<String>(), Some(String::from("abc")));
}

#[test]
fn u16_stops_at_letter() {
    let mut rio = over("123abc");
    assert_eq!(rio.read::<u16>(), Some(123));
    assert_eq!(rio.read::<String>(), Some(String::from("abc")));
}

#[test]
fn u32_stops_at_letter() {
    let mut rio = over("123abc");
    assert_eq!(rio.read::<u32>(), Some(123));
    assert_eq!(rio.read::<String>(), Some(String::from("abc")));
}

#[test]
fn u64_stops_at_letter() {
    let mut rio = over("123abc");
    assert_eq!(rio.read::<u64>(), Some(123));
    assert_eq!(rio.read::<String>(), Some(String::from("abc")));
}

#[test]
fn u128_stops_at_letter() {
    let mut rio = over("123abc");
    assert_eq!(rio.read::<u128>(), Some(123));
    assert_eq!(rio.read::<String>(), Some(String::from("abc")));
}

#[test]
fn usize_stops_at_letter() {
    let mut rio = over("123abc");
    assert_eq!(rio.read::<usize>(), Some(123));
    assert_eq!(rio.read::<String>(), Some(String::from("abc")));
}

#[test]
fn i8_reads_negative() {
    assert_eq!(over("-7 ").read::<i8>(), Some(-7));
}

#[test]
fn i16_reads_negative() {
    assert_eq!(over("-7 ").read::<i16>(), Some(-7));
}

#[test]
fn i32_reads_negative() {
    assert_eq!(over("-7 ").read::<i32>(), Some(-7));
}

#[test]
fn i64_reads_negative() {
    assert_eq!(over("-7 ").read::<i64>(), Some(-7));
}

#[test]
fn i128_reads_negative() {
    assert_eq!(over("-7 ").read::<i128>(), Some(-7));
}

#[test]
fn isize_reads_negative() {
    assert_eq!(over("-7 ").read::<isize>(), Some(-7));
}

#[test]
fn i8_pushes_lone_sign_back() {
    let mut rio = over("-x");
    assert_eq!(rio.read::<i8>(), None);
    assert!(matches!(rio.clear(), Some(InputError::Extraction)));
    assert_eq!(rio.read::<String>(), Some(String::from("-")));
}

#[test]
fn i16_pushes_lone_sign_back() {
    let mut rio = over("-x");
    assert_eq!(rio.read::<i16>(), None);
    assert!(matches!(rio.clear(), Some(InputError::Extraction)));
    assert_eq!(rio.read::<String>(), Some(String::from("-")));
}

#[test]
fn i32_pushes_lone_sign_back() {
    let mut rio = over("-x");
    assert_eq!(rio.read::<i32>(), None);
    assert!(matches!(rio.clear(), Some(InputError::Extraction)));
    assert_eq!(rio.read::<String>(), Some(String::from("-")));
}

#[test]
fn i64_pushes_lone_sign_back() {
    let mut rio = over("-x");
    assert_eq!(rio.read::<i64>(), None);
    assert!(matches!(rio.clear(), Some(InputError::Extraction)));
    assert_eq!(rio.read::<String>(), Some(String::from("-")));
}

#[test]
fn i128_pushes_lone_sign_back() {
    let mut rio = over("-x");
    assert_eq!(rio.read::<i128>(), None);
    assert!(matches!(rio.clear(), Some(InputError::Extraction)));
    assert_eq!(rio.read::<String>(), Some(String::from("-")));
}

#[test]
fn isize_pushes_lone_sign_back() {
    let mut rio = over("-x");
    assert_eq!(rio.read::<isize>(), None);
    assert!(matches!(rio.clear(), Some(InputError::Extraction)));
    assert_eq!(rio.read::<String>(), Some(String::from("-")));
}

#[test]
fn lone_sign_is_seen_by_the_next_read() {
    let mut rio = over("-x");
    assert_eq!(rio.read::<i32>(), None);
    assert_eq!(rio.read::<String>(), Some(String::from("-")));
    assert_eq!(rio.read::<String>(), None);
}

#[test]
fn lone_sign_takes_the_place_of_the_byte_behind_it() {
    let mut rio = over("-x y");
    assert_eq!(rio.read::<i32>(), None);
    rio.clear();
    assert_eq!(rio.getch(), Some(b'-'));
    assert_eq!(rio.getch(), Some(b' '));
    assert_eq!(rio.getch(), Some(b'y'));
}

#[test]
fn lone_sign_at_the_end_is_pushed_back() {
    let mut rio = over("-");
    assert_eq!(rio.read::<i32>(), None);
    assert_eq!(rio.getch_impl(), Some(b'-'));
    assert_eq!(rio.getch_impl(), None);
}

#[test]
fn u8_stops_before_overflow() {
    let mut rio = over("256");
    assert_eq!(rio.read::<u8>(), Some(25));
    assert_eq!(rio.read::<u8>(), Some(6));
}

#[test]
fn u8_reads_its_maximum() {
    let mut rio = over("255");
    assert_eq!(rio.read::<u8>(), Some(255));
    assert_eq!(rio.read::<u8>(), None);
}

#[test]
fn u8_stops_where_the_product_overflows() {
    let mut rio = over("999");
    assert_eq!(rio.read::<u8>(), Some(99));
    assert_eq!(rio.read::<u8>(), Some(9));
}

#[test]
fn u16_stops_before_overflow() {
    let mut rio = over("65536");
    assert_eq!(rio.read::<u16>(), Some(6553));
    assert_eq!(rio.read::<u16>(), Some(6));
    assert_eq!(over("65535").read::<u16>(), Some(u16::MAX));
}

#[test]
fn u32_stops_before_overflow() {
    let mut rio = over("4294967296");
    assert_eq!(rio.read::<u32>(), Some(429496729));
    assert_eq!(rio.read::<u32>(), Some(6));
    assert_eq!(over("4294967295").read::<u32>(), Some(u32::MAX));
}

#[test]
fn u64_stops_before_overflow() {
    let mut rio = over("18446744073709551616");
    assert_eq!(rio.read::<u64>(), Some(1844674407370955161));
    assert_eq!(rio.read::<u64>(), Some(6));
    assert_eq!(over("18446744073709551615").read::<u64>(), Some(u64::MAX));
}

#[test]
fn u128_stops_before_overflow() {
    let mut rio = over("340282366920938463463374607431768211456");
    assert_eq!(rio.read::<u128>(), Some(34028236692093846346337460743176821145));
    assert_eq!(rio.read::<u128>(), Some(6));
    assert_eq!(
        over("340282366920938463463374607431768211455").read::<u128>(),
        Some(u128::MAX)
    );
}

#[test]
fn usize_reads_its_maximum() {
    let text = format!("{}", usize::MAX);
    assert_eq!(over(&text).read::<usize>(), Some(usize::MAX));
    let text = format!("{}0", usize::MAX);
    let mut rio = over(&text);
    assert_eq!(rio.read::<usize>(), Some(usize::MAX));
    assert_eq!(rio.read::<usize>(), Some(0));
}

#[test]
fn i8_stops_before_overflow() {
    let mut rio = over("128");
    assert_eq!(rio.read::<i8>(), Some(12));
    assert_eq!(rio.read::<i8>(), Some(8));
    assert_eq!(over("127").read::<i8>(), Some(i8::MAX));
}

#[test]
fn i8_stops_before_underflow() {
    let mut rio = over("-129");
    assert_eq!(rio.read::<i8>(), Some(-12));
    assert_eq!(rio.read::<i8>(), Some(9));
    assert_eq!(over("-128").read::<i8>(), Some(i8::MIN));
}

#[test]
fn i16_reads_its_bounds() {
    assert_eq!(over("-32768").read::<i16>(), Some(i16::MIN));
    assert_eq!(over("32767").read::<i16>(), Some(i16::MAX));
    assert_eq!(over("32768").read::<i16>(), Some(3276));
    assert_eq!(over("-32769").read::<i16>(), Some(-3276));
}

#[test]
fn i32_reads_its_bounds() {
    assert_eq!(over("-2147483648").read::<i32>(), Some(i32::MIN));
    assert_eq!(over("2147483647").read::<i32>(), Some(i32::MAX));
    assert_eq!(over("2147483648").read::<i32>(), Some(214748364));
    assert_eq!(over("-2147483649").read::<i32>(), Some(-214748364));
}

#[test]
fn i64_reads_its_bounds() {
    assert_eq!(over("-9223372036854775808").read::<i64>(), Some(i64::MIN));
    assert_eq!(over("9223372036854775807").read::<i64>(), Some(i64::MAX));
    assert_eq!(over("9223372036854775808").read::<i64>(), Some(922337203685477580));
}

#[test]
fn i128_reads_its_bounds() {
    assert_eq!(
        over("-170141183460469231731687303715884105728").read::<i128>(),
        Some(i128::MIN)
    );
    assert_eq!(
        over("170141183460469231731687303715884105727").read::<i128>(),
        Some(i128::MAX)
    );
    assert_eq!(
        over("170141183460469231731687303715884105728").read::<i128>(),
        Some(17014118346046923173168730371588410572)
    );
}

#[test]
fn isize_reads_its_bounds() {
    assert_eq!(over(&format!("{}", isize::MIN)).read::<isize>(), Some(isize::MIN));
    assert_eq!(over(&format!("{}", isize::MAX)).read::<isize>(), Some(isize::MAX));
}

#[test]
fn leading_zeros_are_digits() {
    assert_eq!(over("000123").read::<u8>(), Some(123));
    assert_eq!(over("00000000000000000000000000000000000000000005").read::<u8>(), Some(5));
    assert_eq!(over("-007").read::<i8>(), Some(-7));
    assert_eq!(over("0").read::<u32>(), Some(0));
    assert_eq!(over("-0").read::<i32>(), Some(0));
}

#[test]
fn unsigned_takes_no_sign() {
    let mut rio = over("-5");
    assert_eq!(rio.read::<u32>(), None);
    assert!(matches!(rio.clear(), Some(InputError::Extraction)));
    assert_eq!(rio.read::<i32>(), Some(-5));
}

#[test]
fn plus_is_no_sign() {
    let mut rio = over("+5");
    assert_eq!(rio.read::<i32>(), None);
    rio.clear();
    assert_eq!(rio.read::<String>(), Some(String::from("+5")));
}

#[test]
fn sign_inside_a_number_ends_it() {
    let mut rio = over("5-3");
    assert_eq!(rio.read::<i32>(), Some(5));
    assert_eq!(rio.read::<i32>(), Some(-3));
}

#[test]
fn second_sign_is_not_taken() {
    let mut rio = over("--5");
    assert_eq!(rio.read::<i32>(), None);
    rio.clear();
    assert_eq!(rio.read::<i32>(), Some(-5));
}

#[test]
fn integers_are_separated_by_blanks() {
    let mut rio = over(" 1\t2\n3\r4\x0b5\x0c6 ");
    assert_eq!(rio.read::<u8>(), Some(1));
    assert_eq!(rio.read::<i16>(), Some(2));
    assert_eq!(rio.read::<u32>(), Some(3));
    assert_eq!(rio.read::<i64>(), Some(4));
    assert_eq!(rio.read::<u128>(), Some(5));
    assert_eq!(rio.read::<isize>(), Some(6));
    assert_eq!(rio.read::<u8>(), None);
}

#[test]
fn empty_input_holds_no_integer() {
    let mut rio = over("");
    assert_eq!(rio.read::<u32>(), None);
    assert!(matches!(rio.clear(), Some(InputError::Extraction)));
}

#[test]
fn extract_int_does_not_pass_blanks() {
    let mut rio = over(" 5");
    assert_eq!(extract_int::<u32, _>(&mut rio, false), None);
    assert_eq!(rio.getch(), Some(b' '));
    assert_eq!(extract_int::<u32, _>(&mut rio, false), Some(5));
}

#[test]
fn extract_int_without_sign_on_signed_type() {
    let mut rio = over("-5");
    assert_eq!(extract_int::<i32, _>(&mut rio, false), None);
    assert_eq!(extract_int::<i32, _>(&mut rio, true), Some(-5));
}

#[test]
fn extract_leaves_error_alone() {
    let mut rio = over("x");
    assert_eq!(extract_int::<u32, _>(&mut rio, false), None);
    assert!(rio.clear().is_none());
}
