//! Decimal-format pattern compilation and validation.

use fixedwidth::decimal_format::DecimalFormat;

#[test]
fn test_validate_number() {
    // # is optional digit, 0 is required digit
    let pattern = "0,##0.00;(#,##0.000)";
    let formatter = DecimalFormat::new(pattern).unwrap();
    assert!(formatter.validate_number("2,234.56").is_ok());
    assert!(formatter.validate_number("-1,234.560").is_ok());
    assert!(formatter.validate_number("1234.56").is_err());
    assert!(formatter.validate_number("1234").is_err());

    let pattern = "0.#0,##0";
    let formatter = DecimalFormat::new(pattern).unwrap();
    assert!(formatter.validate_number("2.20,125").is_ok());

    let pattern = "';#'##0";
    let formatter = DecimalFormat::new(pattern).unwrap();
    assert!(formatter.validate_number(";#123").is_ok());

    let pattern = "#######0.00";
    let formatter = DecimalFormat::new(pattern).unwrap();
    assert!(formatter.validate_number("00204000.00").is_ok());
}

#[test]
fn invalid_character_is_reported() {
    let err = DecimalFormat::new("0q0").unwrap_err();
    assert_eq!(err, "Invalid character: q");
}

#[test]
fn three_subpatterns_are_refused() {
    let err = DecimalFormat::new("0;0;0").unwrap_err();
    assert_eq!(err, "Invalid pattern");
}

#[test]
fn quoted_semicolon_does_not_split() {
    // The quoted `;` stays literal, so only one sub-pattern exists.
    let formatter = DecimalFormat::new("0';'0").unwrap();
    assert!(formatter.validate_number("1;2").is_ok());
    assert!(formatter.validate_number("12").is_err());
}

#[test]
fn unbalanced_group_is_a_regex_error() {
    // `(` alone emits an unbalanced group, which the regex engine refuses.
    let err = DecimalFormat::new("(").unwrap_err();
    assert_eq!(err, "Invalid regex pattern");
}

#[test]
fn negative_defaults_to_minus_positive() {
    let formatter = DecimalFormat::new("0.00").unwrap();
    assert!(formatter.validate_number("1.25").is_ok());
    assert!(formatter.validate_number("-1.25").is_ok());
    assert!(formatter.validate_number("+1.25").is_err());
}

#[test]
fn currency_sign_stands_for_dollar() {
    let formatter = DecimalFormat::new("\u{a4}0").unwrap();
    assert!(formatter.validate_number("$5").is_ok());
    assert!(formatter.validate_number("5").is_err());
}

#[test]
fn mismatch_message_is_stable() {
    let formatter = DecimalFormat::new("0").unwrap();
    let err = formatter.validate_number("ab").unwrap_err();
    assert_eq!(err, "Input does not match pattern");
}

#[test]
fn breaking_a_required_digit_fails() {
    let formatter = DecimalFormat::new("#######0.00").unwrap();
    assert!(formatter.validate_number("00204000.00").is_ok());
    // The required digit right before the point is mutated.
    assert!(formatter.validate_number("0020400a.00").is_err());
    // A mutated required decimal is refused too.
    assert!(formatter.validate_number("00204000.0x").is_err());
}
