use univac::instruction::{parse_mnemonic, Instruction};
use univac::text::{chars_of, decimal_lines, find_char, format_octal, parse_i32, parse_u32, trim_bounds};

#[test]
fn parse_u32_reads_radix() {
    let s = chars_of("+777");
    assert_eq!(parse_u32(&s, 0, 4, 8), Some(0o777));
    assert_eq!(parse_u32(&s, 0, 4, 10), Some(777));
    let bad = chars_of("78");
    assert_eq!(parse_u32(&bad, 0, 2, 8), None);
    let big = chars_of("4294967296");
    assert_eq!(parse_u32(&big, 0, 10, 10), None);
}

#[test]
fn parse_i32_reads_signs() {
    let s = chars_of("-12");
    assert_eq!(parse_i32(&s, 0, 3), Some(-12));
    let min = chars_of("-2147483648");
    assert_eq!(parse_i32(&min, 0, 11), Some(i32::MIN));
    let empty = chars_of("-");
    assert_eq!(parse_i32(&empty, 0, 1), None);
}

#[test]
fn trim_and_find() {
    let s = chars_of("  ab c ");
    assert_eq!(trim_bounds(&s, 0, 7), (2, 6));
    assert_eq!(find_char(&s, 0, 7, 'c'), Some(5));
    assert_eq!(find_char(&s, 0, 5, 'c'), None);
}

#[test]
fn decimal_lines_skip_empty_lines() {
    assert_eq!(decimal_lines("1\n\n 2 \r\n3", 10), Some(vec![1, 2, 3]));
    assert_eq!(decimal_lines("10\n", 10), None);
}

#[test]
fn format_octal_pads_with_zeros() {
    assert_eq!(format_octal(8, 6), "000010");
    assert_eq!(format_octal(0, 6), "000000");
    assert_eq!(format_octal(0o1234567, 6), "1234567");
    assert_eq!(format_octal(0o777777, 6), "777777");
}

#[test]
fn parse_mnemonic_names_instructions() {
    let s = chars_of("ENTAL");
    assert_eq!(parse_mnemonic(&s, 0, 5), Some(Instruction::ENTAL { y: 0 }));
    let t = chars_of("RND");
    assert_eq!(parse_mnemonic(&t, 0, 3), Some(Instruction::RND));
    let u = chars_of("ental");
    assert_eq!(parse_mnemonic(&u, 0, 5), None);
}

#[test]
fn format_binary_pads_with_zeros() {
    assert_eq!(univac::text::format_binary(9, 5), "01001");
    assert_eq!(univac::text::format_binary(0, 5), "00000");
    assert_eq!(univac::text::format_binary(0b111111, 5), "111111");
}
