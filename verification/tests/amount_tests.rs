use tip_core::error::WalletError;
use tip_core::utils::try_parse_required_nonzero_spectre_as_sompi_u64;

fn parse(s: &str) -> Result<u64, WalletError> {
    try_parse_required_nonzero_spectre_as_sompi_u64(Some(s.to_owned()))
}

#[test]
fn zero_is_rejected() {
    assert_eq!(parse("0"), Err(WalletError::InvalidAmount));
}

#[test]
fn negative_is_rejected() {
    assert_eq!(parse("-5"), Err(WalletError::InvalidAmount));
}

#[test]
fn non_numeric_is_rejected() {
    assert_eq!(parse("abc"), Err(WalletError::InvalidAmount));
}

#[test]
fn missing_amount_is_rejected() {
    assert_eq!(
        try_parse_required_nonzero_spectre_as_sompi_u64(None),
        Err(WalletError::InvalidAmount)
    );
}

#[test]
fn empty_string_is_rejected() {
    assert_eq!(parse(""), Err(WalletError::InvalidAmount));
}

#[test]
fn lone_dot_is_rejected() {
    assert_eq!(parse("."), Err(WalletError::InvalidAmount));
}

#[test]
fn missing_integer_part_is_rejected() {
    assert_eq!(parse(".5"), Err(WalletError::InvalidAmount));
}

#[test]
fn two_dots_are_rejected() {
    assert_eq!(parse("1..2"), Err(WalletError::InvalidAmount));
}

#[test]
fn more_than_eight_decimals_is_rejected() {
    assert_eq!(parse("1.234567891"), Err(WalletError::InvalidAmount));
}

#[test]
fn zero_point_zero_is_rejected() {
    assert_eq!(parse("0.0"), Err(WalletError::InvalidAmount));
}

#[test]
fn one_and_a_half_spectre() {
    assert_eq!(parse("1.5"), Ok(150_000_000));
}

#[test]
fn whole_spectre() {
    assert_eq!(parse("1"), Ok(100_000_000));
}

#[test]
fn trailing_dot_counts_as_whole() {
    assert_eq!(parse("1."), Ok(100_000_000));
}

#[test]
fn single_sompi() {
    assert_eq!(parse("0.00000001"), Ok(1));
}

#[test]
fn eight_decimals_exactly() {
    assert_eq!(parse("12.34500000"), Ok(1_234_500_000));
}

#[test]
fn largest_representable_amount() {
    assert_eq!(parse("184467440737.09551615"), Ok(u64::MAX));
}

#[test]
fn just_past_largest_amount_is_rejected() {
    assert_eq!(parse("184467440737.09551616"), Err(WalletError::InvalidAmount));
}

#[test]
fn oversized_whole_amount_is_rejected() {
    assert_eq!(parse("999999999999"), Err(WalletError::InvalidAmount));
}

#[test]
fn leading_zeroes_are_plain_digits() {
    assert_eq!(parse("007"), Ok(700_000_000));
}
