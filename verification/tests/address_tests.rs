use block_transfer::errors::{AddressParseError, AmountError, StartupError};
use block_transfer::startup::{parse_recipient_address, prepare_transfer_plan};

#[test]
fn parses_the_system_program_address() {
    let a = parse_recipient_address("11111111111111111111111111111111").unwrap();
    assert_eq!(a.bytes, [0u8; 32]);
}

#[test]
fn round_trips_an_encoded_address() {
    let pk = solana_sdk::pubkey::Pubkey::new_from_array([7u8; 32]);
    let text = pk.to_string();
    let parsed = parse_recipient_address(&text).unwrap();
    assert_eq!(parsed.bytes, [7u8; 32]);
}

#[test]
fn rejects_empty_address_text() {
    assert_eq!(parse_recipient_address(""), Err(AddressParseError));
}

#[test]
fn rejects_invalid_characters() {
    assert_eq!(parse_recipient_address("0OIl+/="), Err(AddressParseError));
}

#[test]
fn rejects_too_short_text() {
    assert_eq!(parse_recipient_address("abc"), Err(AddressParseError));
}

#[test]
fn rejects_too_long_text() {
    let text = "1".repeat(64);
    assert_eq!(parse_recipient_address(&text), Err(AddressParseError));
}

#[test]
fn plan_rejects_malformed_address_before_any_connection() {
    let r = prepare_transfer_plan("1.5", "not a chain address");
    assert_eq!(r, Err(StartupError::Address(AddressParseError)));
}

#[test]
fn plan_rejects_malformed_amount_first() {
    let r = prepare_transfer_plan("1..5", "11111111111111111111111111111111");
    assert_eq!(r, Err(StartupError::Amount(AmountError::Malformed)));
}

#[test]
fn plan_rejects_overflowing_amount() {
    let r = prepare_transfer_plan("99999999999999999999", "11111111111111111111111111111111");
    assert_eq!(r, Err(StartupError::Amount(AmountError::Overflow)));
}

#[test]
fn plan_accepts_valid_configuration() {
    let plan = prepare_transfer_plan("2.5", "11111111111111111111111111111111").unwrap();
    assert_eq!(plan.amount_base_units, 2_500_000_000);
    assert_eq!(plan.recipient.bytes, [0u8; 32]);
}
