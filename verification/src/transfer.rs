//! The transfer transaction model: addresses, freshness tokens, and the
//! construction of a single-instruction transfer record, together with the
//! per-stage classification of a transfer attempt's outcome.

use vstd::prelude::*;

use crate::errors::{RpcQueryError, SubmissionError, TransferError};

verus! {

/// A chain account address: the fixed-length binary identifier behind the
/// canonical text encoding.
#[derive(Clone, Copy, Debug, PartialEq, Eq)]
pub struct AccountAddress {
    pub bytes: [u8; 32],
}

impl View for AccountAddress {
    type V = Seq<u8>;

    open spec fn view(&self) -> Seq<u8> {
        self.bytes@
    }
}

/// A freshness token: a recent ledger reference that bounds the validity
/// window of a transaction anchored to it.
#[derive(Clone, Copy, Debug, PartialEq, Eq)]
pub struct FreshnessToken {
    pub bytes: [u8; 32],
}

impl View for FreshnessToken {
    type V = Seq<u8>;

    open spec fn view(&self) -> Seq<u8> {
        self.bytes@
    }
}

/// One value-transfer instruction: move `amount_base_units` from `source`
/// to `destination`.
#[derive(Clone, Copy, Debug, PartialEq, Eq)]
pub struct TransferInstruction {
    pub source: AccountAddress,
    pub destination: AccountAddress,
    pub amount_base_units: u64,
}

/// A constructed transfer transaction, before signing: who pays the fee,
/// who must sign, what is moved, and the freshness token it is anchored to.
#[derive(Clone, Debug, PartialEq, Eq)]
pub struct TransactionRecord {
    pub fee_payer: AccountAddress,
    pub signers: Vec<AccountAddress>,
    pub instructions: Vec<TransferInstruction>,
    pub token: FreshnessToken,
}

impl TransactionRecord {
    /// The record is a single-instruction transfer of `amount` from
    /// `sender` to `recipient`, signed by the sender alone, with the
    /// sender as fee payer, anchored to `token`.
    pub open spec fn is_transfer(
        self,
        sender: AccountAddress,
        recipient: AccountAddress,
        amount: u64,
        token: FreshnessToken,
    ) -> bool {
        &&& self.fee_payer == sender
        &&& self.signers@ == seq![sender]
        &&& self.instructions@ == seq![
            TransferInstruction { source: sender, destination: recipient, amount_base_units: amount },
        ]
        &&& self.token == token
    }
}

/// Constructs the transfer transaction: exactly one instruction moving the
/// requested base-unit amount from sender to recipient, exactly one signer
/// (the sender), and the sender as fee payer.  Local and pure: no I/O.
pub fn build_transfer(
    sender: AccountAddress,
    recipient: AccountAddress,
    amount_base_units: u64,
    token: FreshnessToken,
) -> (t: TransactionRecord)
    ensures
        t.signers@.len() == 1,
        t.signers@[0] == sender,
        t.fee_payer == sender,
        t.instructions@.len() == 1,
        t.instructions@[0].source == sender,
        t.instructions@[0].destination == recipient,
        t.instructions@[0].amount_base_units == amount_base_units,
        t.token == token,
        t.is_transfer(sender, recipient, amount_base_units, token),
{
    let mut signers: Vec<AccountAddress> = Vec::new();
    signers.push(sender);
    let mut instructions: Vec<TransferInstruction> = Vec::new();
    instructions.push(
        TransferInstruction { source: sender, destination: recipient, amount_base_units },
    );
    proof {
        assert(signers@ =~= seq![sender]);
        assert(instructions@ =~= seq![
            TransferInstruction { source: sender, destination: recipient, amount_base_units },
        ]);
    }
    TransactionRecord { fee_payer: sender, signers, instructions, token }
}

/// Classifies the freshness-token query outcome: a query failure aborts
/// the attempt at the fetch stage; a token lets the attempt proceed.
pub fn resolve_query(outcome: Result<FreshnessToken, RpcQueryError>) -> (r: Result<
    FreshnessToken,
    TransferError,
>)
    ensures
        outcome matches Ok(t) ==> r == Ok::<FreshnessToken, TransferError>(t),
        outcome matches Err(e) ==> r == Err::<FreshnessToken, TransferError>(
            TransferError::Query(e),
        ),
{
    match outcome {
        Ok(t) => Ok(t),
        Err(e) => Err(TransferError::Query(e)),
    }
}

/// Classifies the submission outcome: a broadcast or confirmation failure
/// aborts the attempt at the submit stage; otherwise the attempt resolves
/// to the confirmed transaction id.
pub fn resolve_submission(outcome: Result<String, SubmissionError>) -> (r: Result<
    String,
    TransferError,
>)
    ensures
        outcome matches Ok(id) ==> r == Ok::<String, TransferError>(id),
        outcome matches Err(e) ==> r == Err::<String, TransferError>(
            TransferError::Submission(e),
        ),
{
    match outcome {
        Ok(id) => Ok(id),
        Err(e) => Err(TransferError::Submission(e)),
    }
}

} // verus!
