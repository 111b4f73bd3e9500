use vstd::prelude::*;

verus! {

/// Why a transfer amount literal was rejected.
#[derive(Clone, Copy, Debug, PartialEq, Eq, Structural)]
pub enum AmountError {
    /// The text is not a plain decimal literal made of digits with at most
    /// one decimal point.
    Malformed,
    /// The denoted base-unit quantity does not fit the wire representation.
    Overflow,
}

/// The configured recipient address failed validation; fatal at startup.
#[derive(Clone, Copy, Debug, PartialEq, Eq, Structural)]
pub struct AddressParseError;

/// Why startup preparation of the transfer parameters failed.
#[derive(Clone, Copy, Debug, PartialEq, Eq, Structural)]
pub enum StartupError {
    /// The configured transfer amount was rejected.
    Amount(AmountError),
    /// The configured recipient address was rejected.
    Address(AddressParseError),
}

/// The freshness-token query failed: the execution endpoint was unreachable
/// or answered with something unusable.
#[derive(Clone, Debug, PartialEq, Eq)]
pub struct RpcQueryError {
    pub message: String,
}

/// Broadcast or confirmation of a submitted transaction failed; covers both
/// rejection and confirmation timeout.
#[derive(Clone, Debug, PartialEq, Eq)]
pub struct SubmissionError {
    pub message: String,
}

/// The stage of a transfer attempt at which it gave up.
#[derive(Clone, Copy, Debug, PartialEq, Eq, Structural)]
pub enum TransferStage {
    /// Querying the freshness token that anchors the validity window.
    FetchToken,
    /// Broadcasting the signed transaction and awaiting confirmation.
    Submit,
}

/// A failed transfer attempt: which stage gave up, with its cause.
#[derive(Clone, Debug, PartialEq, Eq)]
pub enum TransferError {
    Query(RpcQueryError),
    Submission(SubmissionError),
}

impl TransferError {
    /// The stage at which this attempt failed.
    pub open spec fn spec_stage(&self) -> TransferStage {
        match self {
            TransferError::Query(_) => TransferStage::FetchToken,
            TransferError::Submission(_) => TransferStage::Submit,
        }
    }

    pub fn stage(&self) -> (s: TransferStage)
        ensures
            s == self.spec_stage(),
    {
        match self {
            TransferError::Query(_) => TransferStage::FetchToken,
            TransferError::Submission(_) => TransferStage::Submit,
        }
    }
}

} // verus!
