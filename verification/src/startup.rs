//! Startup validation: the configured amount and recipient address are
//! checked before anything touches the network.  A rejection here is fatal
//! and must abort startup; in particular no connection may be opened after
//! a failed address parse.

use vstd::prelude::*;
use vstd::string::StringSliceAdditionalSpecFns;

use crate::amount::{amount_accepted, base_units, parse_amount_base_units, valid_amount};
use crate::chain::{address_decoding, decode_address};
use crate::errors::{AddressParseError, AmountError, StartupError};
use crate::transfer::AccountAddress;

verus! {

/// Parses the configured recipient address.  Succeeds exactly when the
/// text is a valid encoding of an account identifier.
pub fn parse_recipient_address(s: &str) -> (r: Result<AccountAddress, AddressParseError>)
    ensures
        r is Ok <==> address_decoding(s.spec_bytes()) is Some,
        r matches Ok(a) ==> address_decoding(s.spec_bytes()) == Some(a@),
{
    match decode_address(s) {
        Some(bytes) => Ok(AccountAddress { bytes }),
        None => Err(AddressParseError),
    }
}

/// The validated transfer parameters, fixed for the process lifetime.
#[derive(Clone, Copy, Debug, PartialEq, Eq)]
pub struct TransferPlan {
    pub recipient: AccountAddress,
    pub amount_base_units: u64,
}

/// Validates the configured amount and recipient address.  Succeeds
/// exactly when both are acceptable; says which one was rejected
/// otherwise.  The amount is checked first; the caller aborts startup on
/// any failure, before opening any connection.
pub fn prepare_transfer_plan(amount: &str, recipient: &str) -> (r: Result<
    TransferPlan,
    StartupError,
>)
    ensures
        r is Ok <==> amount_accepted(amount.spec_bytes()) && address_decoding(
            recipient.spec_bytes(),
        ) is Some,
        r matches Ok(p) ==> p.amount_base_units == base_units(amount.spec_bytes())
            && address_decoding(recipient.spec_bytes()) == Some(p.recipient@),
        r matches Err(e) ==> match e {
            StartupError::Amount(ae) => !amount_accepted(amount.spec_bytes()) && (ae
                == AmountError::Malformed <==> !valid_amount(amount.spec_bytes())) && (ae
                == AmountError::Overflow <==> valid_amount(amount.spec_bytes())),
            StartupError::Address(_) => amount_accepted(amount.spec_bytes())
                && address_decoding(recipient.spec_bytes()) is None,
        },
{
    let amount_base_units = match parse_amount_base_units(amount) {
        Ok(v) => v,
        Err(e) => {
            return Err(StartupError::Amount(e));
        },
    };
    match parse_recipient_address(recipient) {
        Ok(addr) => Ok(TransferPlan { recipient: addr, amount_base_units }),
        Err(e) => Err(StartupError::Address(e)),
    }
}

} // verus!
