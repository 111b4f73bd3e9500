//! A verified core for a block-triggered value-transfer service.
//!
//! The service watches a chain's block feed and, on every new block
//! notification, submits one fixed-amount transfer from a configured sender
//! to a configured recipient.  This crate holds the logic of that pipeline:
//! decimal amount conversion to base units, recipient address validation,
//! transfer transaction construction, per-attempt error classification, and
//! the event loop's reaction to stream elements.  The unverified binary
//! around it only performs the network and file I/O and hands plain values
//! in and out.

pub mod amount;
pub mod chain;
pub mod errors;
pub mod orchestrator;
pub mod startup;
pub mod transfer;
