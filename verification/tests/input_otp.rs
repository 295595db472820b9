use ducktape::input_otp::{is_complete, normalize, separator_indices, OtpPattern};

type Plain = fn(char) -> bool;

#[test]
fn normalization_supports_digits_alphanumeric_and_custom_patterns() {
    assert_eq!(normalize("1 a2-3٤", 4, OtpPattern::<Plain>::Digits), "123");
    assert_eq!(normalize("a-1_B2", 4, OtpPattern::<Plain>::Alphanumeric), "a1B2");
    assert_eq!(normalize("ABcd12", 3, OtpPattern::Custom(char::is_uppercase)), "AB");
    assert!(is_complete("12 34", 4, OtpPattern::<Plain>::Digits));
    assert!(!is_complete("123", 4, OtpPattern::<Plain>::Digits));
}

#[test]
fn group_boundaries_never_add_a_trailing_separator() {
    assert_eq!(separator_indices(6, &[3, 3]), [3]);
    assert_eq!(separator_indices(6, &[2, 2, 2]), [2, 4]);
    assert_eq!(separator_indices(4, &[8]), Vec::<usize>::new());
}

#[test]
fn normalization_keeps_at_most_the_slot_count() {
    assert_eq!(normalize("123456789", 6, OtpPattern::<Plain>::Digits), "123456");
    assert_eq!(normalize("123", 0, OtpPattern::<Plain>::Digits), "");
    assert!(!is_complete("", 0, OtpPattern::<Plain>::Digits));
    assert!(OtpPattern::<Plain>::Alphanumeric.accepts('z'));
    assert!(!OtpPattern::<Plain>::Digits.accepts('٤'));
}

#[test]
fn separators_saturate_instead_of_overflowing() {
    assert_eq!(separator_indices(10, &[usize::MAX, 1]), Vec::<usize>::new());
    assert_eq!(separator_indices(10, &[0, 4]), [0, 4]);
}
