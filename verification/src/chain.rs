//! Trusted boundary to the chain SDK: address decoding and transaction
//! signing.  Each item here is believed on the strength of the SDK's own
//! source, not proved; everything stated about the rest of the pipeline
//! rests on these contracts.

use vstd::prelude::*;
use vstd::string::StringSliceAdditionalSpecFns;

use crate::transfer::TransactionRecord;

verus! {

/// What the canonical text encoding of an account address decodes to: the
/// 32-byte identifier, or nothing when the text is not a valid encoding.
/// A function of the text alone.
pub uninterp spec fn address_decoding(s: Seq<u8>) -> Option<Seq<u8>>;

/// Relies on solana_sdk::pubkey::Pubkey::from_str: deterministic base58
/// decoding of a 32-byte account identifier, a function of the text alone;
/// it fails exactly on text that is not such an encoding.
#[verifier::external_body]
pub(crate) fn decode_address(s: &str) -> (r: Option<[u8; 32]>)
    ensures
        r is Some <==> address_decoding(s.spec_bytes()) is Some,
        r matches Some(b) ==> address_decoding(s.spec_bytes()) == Some(b@),
{
    match s.parse::<solana_sdk::pubkey::Pubkey>() {
        Ok(p) => Some(p.to_bytes()),
        Err(_) => None,
    }
}

#[verifier::external_type_specification]
#[verifier::external_body]
pub struct ExKeypair(solana_sdk::signature::Keypair);

#[verifier::external_type_specification]
#[verifier::external_body]
pub struct ExTransaction(solana_sdk::transaction::Transaction);

/// Relies on solana_sdk's system_instruction::transfer, Message::new,
/// Transaction::new_unsigned and Transaction::try_sign: realizes the
/// record as a wire transaction and signs it.  The result is opaque here;
/// everything stated about its structure lives in the record.  Signing
/// fails only when the credential is not the record's required signer, so
/// nothing is promised of the outcome.
#[verifier::external_body]
fn sign_transfer_record(
    record: &TransactionRecord,
    keypair: &solana_sdk::signature::Keypair,
) -> (r: Option<solana_sdk::transaction::Transaction>)
    requires
        record.instructions@.len() == 1,
{
    let ix = &record.instructions[0];
    let from = solana_sdk::pubkey::Pubkey::new_from_array(ix.source.bytes);
    let to = solana_sdk::pubkey::Pubkey::new_from_array(ix.destination.bytes);
    let instruction = solana_sdk::system_instruction::transfer(&from, &to, ix.amount_base_units);
    let payer = solana_sdk::pubkey::Pubkey::new_from_array(record.fee_payer.bytes);
    let message = solana_sdk::message::Message::new(&[instruction], Some(&payer));
    let mut tx = solana_sdk::transaction::Transaction::new_unsigned(message);
    let hash = solana_sdk::hash::Hash::new_from_array(record.token.bytes);
    match tx.try_sign(&[keypair], hash) {
        Ok(()) => Some(tx),
        Err(_) => None,
    }
}

/// Signs the built transfer for broadcast.  Returns nothing when the
/// credential does not match the record's required signer; the caller
/// treats that as a failed attempt.
pub fn prepare_for_broadcast(
    record: &TransactionRecord,
    keypair: &solana_sdk::signature::Keypair,
) -> (r: Option<solana_sdk::transaction::Transaction>)
    requires
        record.instructions@.len() == 1,
{
    sign_transfer_record(record, keypair)
}

} // verus!
