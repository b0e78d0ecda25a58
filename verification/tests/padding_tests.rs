use halfblock::padding::{parse_padding, PaddingError};

#[test]
fn one_value_covers_all_sides() {
    assert_eq!(parse_padding("7").unwrap(), (7, 7, 7, 7));
}

#[test]
fn two_values_are_vertical_horizontal() {
    assert_eq!(parse_padding("1 2").unwrap(), (1, 2, 1, 2));
}

#[test]
fn three_values_reuse_horizontal() {
    assert_eq!(parse_padding("1 2 3").unwrap(), (1, 2, 3, 2));
}

#[test]
fn four_values_are_top_right_bottom_left() {
    assert_eq!(parse_padding("1 2 3 4").unwrap(), (1, 2, 3, 4));
}

#[test]
fn five_values_is_invalid_arity() {
    assert!(matches!(parse_padding("5 5 5 5 5"), Err(PaddingError::InvalidArity)));
}

#[test]
fn empty_string_is_invalid_arity() {
    assert!(matches!(parse_padding(""), Err(PaddingError::InvalidArity)));
}

#[test]
fn whitespace_only_is_invalid_arity() {
    assert!(matches!(parse_padding(" \t "), Err(PaddingError::InvalidArity)));
}

#[test]
fn non_numeric_token_is_parse_error() {
    match parse_padding("x") {
        Err(PaddingError::Parse { input }) => assert_eq!(input, "x"),
        other => panic!("expected a parse error, got {:?}", other),
    }
}

#[test]
fn bad_token_among_good_ones_is_parse_error() {
    match parse_padding("1 two 3") {
        Err(PaddingError::Parse { input }) => assert_eq!(input, "1 two 3"),
        other => panic!("expected a parse error, got {:?}", other),
    }
}

#[test]
fn negative_number_is_parse_error() {
    assert!(matches!(parse_padding("-1"), Err(PaddingError::Parse { .. })));
}

#[test]
fn plus_sign_is_accepted() {
    assert_eq!(parse_padding("+3").unwrap(), (3, 3, 3, 3));
}

#[test]
fn lone_plus_is_parse_error() {
    assert!(matches!(parse_padding("+"), Err(PaddingError::Parse { .. })));
}

#[test]
fn u32_max_is_accepted() {
    assert_eq!(
        parse_padding("4294967295").unwrap(),
        (u32::MAX, u32::MAX, u32::MAX, u32::MAX)
    );
}

#[test]
fn value_above_u32_max_is_parse_error() {
    assert!(matches!(parse_padding("4294967296"), Err(PaddingError::Parse { .. })));
}

#[test]
fn repeated_and_mixed_whitespace_separates_tokens() {
    assert_eq!(parse_padding("  1\t2  ").unwrap(), (1, 2, 1, 2));
}

#[test]
fn leading_zeros_are_accepted() {
    assert_eq!(parse_padding("007 08").unwrap(), (7, 8, 7, 8));
}
