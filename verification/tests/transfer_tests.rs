use block_transfer::chain::prepare_for_broadcast;
use block_transfer::errors::{RpcQueryError, SubmissionError, TransferError, TransferStage};
use block_transfer::transfer::{
    build_transfer, resolve_query, resolve_submission, AccountAddress, FreshnessToken,
};
use solana_sdk::signature::Keypair;
use solana_sdk::signer::Signer;

fn addr(b: u8) -> AccountAddress {
    AccountAddress { bytes: [b; 32] }
}

fn token(b: u8) -> FreshnessToken {
    FreshnessToken { bytes: [b; 32] }
}

#[test]
fn build_transfer_has_exactly_one_signer_and_one_instruction() {
    let sender = addr(1);
    let recipient = addr(2);
    let t = build_transfer(sender, recipient, 42, token(3));
    assert_eq!(t.signers.len(), 1);
    assert_eq!(t.signers[0], sender);
    assert_eq!(t.fee_payer, sender);
    assert_eq!(t.instructions.len(), 1);
    assert_eq!(t.instructions[0].source, sender);
    assert_eq!(t.instructions[0].destination, recipient);
    assert_eq!(t.instructions[0].amount_base_units, 42);
    assert_eq!(t.token, token(3));
}

#[test]
fn query_failure_aborts_at_the_fetch_stage() {
    let e = RpcQueryError { message: String::from("endpoint unreachable") };
    let r = resolve_query(Err(e.clone()));
    assert_eq!(r, Err(TransferError::Query(e)));
    assert_eq!(r.unwrap_err().stage(), TransferStage::FetchToken);
}

#[test]
fn query_success_hands_the_token_on() {
    let r = resolve_query(Ok(token(9)));
    assert_eq!(r, Ok(token(9)));
}

#[test]
fn submission_failure_aborts_at_the_submit_stage() {
    let e = SubmissionError { message: String::from("confirmation timed out") };
    let r = resolve_submission(Err(e.clone()));
    assert_eq!(r, Err(TransferError::Submission(e)));
    assert_eq!(r.unwrap_err().stage(), TransferStage::Submit);
}

#[test]
fn submission_success_resolves_to_the_transaction_id() {
    let r = resolve_submission(Ok(String::from("txid")));
    assert_eq!(r, Ok(String::from("txid")));
}

#[test]
fn signing_succeeds_for_the_matching_credential() {
    let keypair = Keypair::new();
    let sender = AccountAddress { bytes: keypair.pubkey().to_bytes() };
    let record = build_transfer(sender, addr(2), 42, token(3));
    let tx = prepare_for_broadcast(&record, &keypair);
    assert!(tx.is_some());
    let tx = tx.unwrap();
    assert_eq!(tx.signatures.len(), 1);
    assert!(tx.is_signed());
}

#[test]
fn signing_fails_for_a_mismatched_credential() {
    let keypair = Keypair::new();
    let record = build_transfer(addr(1), addr(2), 42, token(3));
    let tx = prepare_for_broadcast(&record, &keypair);
    assert!(tx.is_none());
}
