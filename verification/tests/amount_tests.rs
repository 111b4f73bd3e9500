use block_transfer::amount::parse_amount_base_units;
use block_transfer::errors::AmountError;

#[test]
fn converts_smallest_fraction() {
    assert_eq!(parse_amount_base_units("0.000000001"), Ok(1));
}

#[test]
fn converts_one_and_a_half() {
    assert_eq!(parse_amount_base_units("1.5"), Ok(1_500_000_000));
}

#[test]
fn converts_two_whole_units() {
    assert_eq!(parse_amount_base_units("2.0"), Ok(2_000_000_000));
}

#[test]
fn converts_bare_integer() {
    assert_eq!(parse_amount_base_units("3"), Ok(3_000_000_000));
}

#[test]
fn converts_zero() {
    assert_eq!(parse_amount_base_units("0"), Ok(0));
}

#[test]
fn leading_zeros_are_harmless() {
    assert_eq!(parse_amount_base_units("007"), Ok(7_000_000_000));
}

#[test]
fn bare_fraction_is_accepted() {
    assert_eq!(parse_amount_base_units(".5"), Ok(500_000_000));
}

#[test]
fn trailing_point_is_accepted() {
    assert_eq!(parse_amount_base_units("2."), Ok(2_000_000_000));
}

#[test]
fn truncates_digits_beyond_scale() {
    assert_eq!(parse_amount_base_units("0.0000000019"), Ok(1));
}

#[test]
fn truncates_never_rounds_up() {
    assert_eq!(parse_amount_base_units("1.9999999999"), Ok(1_999_999_999));
}

#[test]
fn rejects_empty_text() {
    assert_eq!(parse_amount_base_units(""), Err(AmountError::Malformed));
}

#[test]
fn rejects_lone_point() {
    assert_eq!(parse_amount_base_units("."), Err(AmountError::Malformed));
}

#[test]
fn rejects_two_points() {
    assert_eq!(parse_amount_base_units("1.2.3"), Err(AmountError::Malformed));
}

#[test]
fn rejects_sign_characters() {
    assert_eq!(parse_amount_base_units("-1"), Err(AmountError::Malformed));
    assert_eq!(parse_amount_base_units("+1"), Err(AmountError::Malformed));
}

#[test]
fn rejects_exponents_and_spaces() {
    assert_eq!(parse_amount_base_units("1e9"), Err(AmountError::Malformed));
    assert_eq!(parse_amount_base_units(" 1"), Err(AmountError::Malformed));
    assert_eq!(parse_amount_base_units("1,5"), Err(AmountError::Malformed));
}

#[test]
fn accepts_the_largest_representable_amount() {
    assert_eq!(parse_amount_base_units("18446744073.709551615"), Ok(u64::MAX));
}

#[test]
fn rejects_one_base_unit_past_the_largest() {
    assert_eq!(
        parse_amount_base_units("18446744073.709551616"),
        Err(AmountError::Overflow)
    );
}

#[test]
fn rejects_a_huge_integer_part() {
    assert_eq!(
        parse_amount_base_units("99999999999999999999"),
        Err(AmountError::Overflow)
    );
}
