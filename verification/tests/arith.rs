use univac::arith::{
    add_18, add_36, complement_18, complement_36, div, is_zero, mul_18, ones_to_signed_18,
    rshift_18, rshift_36, sign_extend_12_to_18, sub_18, sub_36,
};

#[test]
fn add_18_adds_small_values() {
    assert_eq!(add_18(1, 2), 3);
}

#[test]
fn add_18_carries_end_around() {
    // -0 + 1 = 1
    assert_eq!(add_18(0o777777, 1), 1);
    // -1 + -1 = -2
    assert_eq!(add_18(0o777776, 0o777776), 0o777775);
}

#[test]
fn add_18_turns_negative_zero_into_zero() {
    // -1 + 1 = 0, never -0
    assert_eq!(add_18(0o777776, 1), 0);
}

#[test]
fn add_18_value_law_on_mixed_signs() {
    // 5 + (-3) = 2
    let minus_three = complement_18(3);
    assert_eq!(ones_to_signed_18(add_18(5, minus_three)), 2);
}

#[test]
fn sub_18_of_equal_words_is_zero() {
    assert_eq!(sub_18(5, 5), 0);
    assert_eq!(sub_18(0o777777, 0o777777), 0);
}

#[test]
fn sub_18_gives_negative_difference() {
    // 3 - 5 = -2
    assert_eq!(sub_18(3, 5), 0o777775);
    assert_eq!(ones_to_signed_18(sub_18(3, 5)), -2);
}

#[test]
fn complement_negates() {
    assert_eq!(complement_18(0), 0o777777);
    assert_eq!(complement_18(0o123456), 0o654321);
    assert_eq!(complement_36(1), 0o777777_777776);
}

#[test]
fn add_36_adds_with_end_around_carry() {
    assert_eq!(add_36(0, 0), 0);
    assert_eq!(add_36(5, 3), 8);
    assert_eq!(add_36(1, 2), 3);
    // -0 + 1 = 1
    assert_eq!(add_36(0o777777_777777, 1), 1);
    // -1 + -1 = -2
    assert_eq!(add_36(0o777777_777776, 0o777777_777776), 0o777777_777775);
    // -1 + 1 = 0, never -0
    assert_eq!(add_36(0o777777_777776, 1), 0);
    assert_eq!(add_36(0o777777_777777, 0), 0);
}

#[test]
fn sub_36_is_ones_complement_difference() {
    assert_eq!(sub_36(5, 3), 2);
    assert_eq!(sub_36(3, 5), 0o777777_777775);
    assert_eq!(sub_36(7, 7), 0);
}

#[test]
fn ones_to_signed_reads_signs() {
    assert_eq!(ones_to_signed_18(5), 5);
    assert_eq!(ones_to_signed_18(0o777776), -1);
    assert_eq!(ones_to_signed_18(0o777777), 0);
    assert_eq!(ones_to_signed_18(0o400000), -0o377777);
}

#[test]
fn mul_18_multiplies_with_signs() {
    assert_eq!(mul_18(3, 4), 12);
    // -3 * 4 = -12 in 36 bits
    assert_eq!(mul_18(0o777774, 4), 0o777777_777763);
    // -3 * -4 = 12
    assert_eq!(mul_18(0o777774, 0o777773), 12);
}

#[test]
fn div_gives_quotient_and_remainder() {
    assert_eq!(div(100, 7), (14, 2));
}

#[test]
fn div_applies_signs() {
    // -100 / 7 = -14 remainder -2
    let minus_hundred = 0o777777_777777 - 100;
    assert_eq!(div(minus_hundred, 7), (0o777777 - 14, 0o777777 - 2));
    // 100 / -7 = -14 remainder 2
    assert_eq!(div(100, 0o777777 - 7), (0o777777 - 14, 2));
}

#[test]
fn div_by_zero_gives_zeros() {
    assert_eq!(div(100, 0), (0, 0));
    assert_eq!(div(100, 0o777777), (0, 0));
}

#[test]
fn rshift_18_extends_sign() {
    assert_eq!(rshift_18(8, 2), 2);
    assert_eq!(rshift_18(0o400000, 1), 0o600000);
    assert_eq!(rshift_18(0o777770, 3), 0o777777);
}

#[test]
fn rshift_36_extends_sign() {
    assert_eq!(rshift_36(0o400000_000000, 3), 0o740000_000000);
    assert_eq!(rshift_36(0o100, 3), 0o10);
}

#[test]
fn sign_extend_12_to_18_copies_bit_11() {
    assert_eq!(sign_extend_12_to_18(0o4000), 0o774000);
    assert_eq!(sign_extend_12_to_18(0o3777), 0o3777);
    assert_eq!(sign_extend_12_to_18(0o7777), 0o777777);
}

#[test]
fn is_zero_only_for_positive_zero() {
    assert!(is_zero(0));
    assert!(!is_zero(0o777777));
}
