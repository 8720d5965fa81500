use nls::text::{decimal_string, left_aligned_string, push_decimal, push_right_aligned, push_spaces};

#[test]
fn left_alignment_pads_on_the_right() {
    assert_eq!(left_aligned_string("ab", 5), "ab   ");
    assert_eq!(left_aligned_string("abcde", 5), "abcde");
    assert_eq!(left_aligned_string("abcdef", 5), "abcdef");
    assert_eq!(left_aligned_string("", 0), "");
    assert_eq!(left_aligned_string("żółw", 6), format!("{:<6}", "żółw"));
}

#[test]
fn right_alignment_pads_on_the_left() {
    let mut out = String::from(">");
    push_right_aligned(&mut out, "ab", 5);
    push_right_aligned(&mut out, "abcdef", 5);
    push_right_aligned(&mut out, "é", 2);
    assert_eq!(out, ">   ababcdef é");
}

#[test]
fn spaces_are_appended() {
    let mut out = String::from("x");
    push_spaces(&mut out, 0);
    assert_eq!(out, "x");
    push_spaces(&mut out, 3);
    assert_eq!(out, "x   ");
}

#[test]
fn decimal_numerals() {
    assert_eq!(decimal_string(0), "0");
    assert_eq!(decimal_string(7), "7");
    assert_eq!(decimal_string(10), "10");
    assert_eq!(decimal_string(1234567890), "1234567890");
    assert_eq!(decimal_string(u64::MAX), "18446744073709551615");
    let mut out = String::new();
    push_decimal(&mut out, u128::MAX);
    assert_eq!(out, u128::MAX.to_string());
}
