use block_transfer::errors::TransferStage;
use block_transfer::orchestrator::{
    react, run_trace, AttemptOutcome, LogEntry, Reaction, StreamElement,
};
use block_transfer::startup::prepare_transfer_plan;
use block_transfer::transfer::{AccountAddress, FreshnessToken};

fn addr(b: u8) -> AccountAddress {
    AccountAddress { bytes: [b; 32] }
}

fn token(b: u8) -> FreshnessToken {
    FreshnessToken { bytes: [b; 32] }
}

#[test]
fn a_notification_triggers_a_transfer_attempt() {
    assert_eq!(
        react(StreamElement::Notification { slot: 10 }),
        Reaction::AttemptTransfer { slot: 10 }
    );
}

#[test]
fn a_stream_fault_is_only_logged() {
    assert_eq!(react(StreamElement::StreamFault), Reaction::LogStreamError);
}

#[test]
fn stream_error_does_not_stop_the_loop() {
    let events = vec![
        StreamElement::Notification { slot: 10 },
        StreamElement::StreamFault,
        StreamElement::Notification { slot: 11 },
    ];
    let outcomes = vec![
        AttemptOutcome::Confirmed { token: token(1) },
        AttemptOutcome::Confirmed { token: token(2) },
    ];
    let r = run_trace(addr(1), addr(2), 42, &events, &outcomes);
    assert_eq!(r.attempted, 2);
    assert_eq!(r.stream_faults, 1);
    assert_eq!(
        r.log,
        vec![
            LogEntry::NotificationReceived { slot: 10 },
            LogEntry::TransferSucceeded { slot: 10 },
            LogEntry::StreamErrorLogged,
            LogEntry::NotificationReceived { slot: 11 },
            LogEntry::TransferSucceeded { slot: 11 },
        ]
    );
}

#[test]
fn submission_failure_does_not_stop_the_loop() {
    let events = vec![
        StreamElement::Notification { slot: 10 },
        StreamElement::Notification { slot: 11 },
    ];
    let outcomes = vec![
        AttemptOutcome::SubmissionFailed { token: token(1) },
        AttemptOutcome::Confirmed { token: token(2) },
    ];
    let r = run_trace(addr(1), addr(2), 42, &events, &outcomes);
    assert_eq!(r.attempted, 2);
    assert_eq!(r.succeeded, 1);
    assert_eq!(r.failed, 1);
    assert_eq!(
        r.log,
        vec![
            LogEntry::NotificationReceived { slot: 10 },
            LogEntry::TransferFailed { slot: 10, stage: TransferStage::Submit },
            LogEntry::NotificationReceived { slot: 11 },
            LogEntry::TransferSucceeded { slot: 11 },
        ]
    );
}

#[test]
fn query_failure_builds_and_submits_nothing() {
    let events = vec![
        StreamElement::Notification { slot: 10 },
        StreamElement::Notification { slot: 11 },
    ];
    let outcomes = vec![
        AttemptOutcome::QueryFailed,
        AttemptOutcome::Confirmed { token: token(2) },
    ];
    let r = run_trace(addr(1), addr(2), 42, &events, &outcomes);
    assert_eq!(r.attempted, 2);
    assert_eq!(r.built.len(), 1);
    assert_eq!(
        r.log,
        vec![
            LogEntry::NotificationReceived { slot: 10 },
            LogEntry::TransferFailed { slot: 10, stage: TransferStage::FetchToken },
            LogEntry::NotificationReceived { slot: 11 },
            LogEntry::TransferSucceeded { slot: 11 },
        ]
    );
}

#[test]
fn identical_attempts_are_not_deduplicated() {
    // Two notifications with identical inputs yield two distinct on-chain
    // transfers: the pipeline deliberately guarantees no idempotence.
    let events = vec![
        StreamElement::Notification { slot: 5 },
        StreamElement::Notification { slot: 5 },
    ];
    let outcomes = vec![
        AttemptOutcome::Confirmed { token: token(1) },
        AttemptOutcome::Confirmed { token: token(1) },
    ];
    let r = run_trace(addr(1), addr(2), 42, &events, &outcomes);
    assert_eq!(r.attempted, 2);
    assert_eq!(r.succeeded, 2);
    assert_eq!(r.built.len(), 2);
    assert_eq!(r.built[0], r.built[1]);
}

#[test]
fn end_to_end_single_notification_moves_the_configured_amount() {
    let plan = prepare_transfer_plan("2.0", "11111111111111111111111111111111").unwrap();
    assert_eq!(plan.amount_base_units, 2_000_000_000);
    let sender = addr(9);
    let events = vec![StreamElement::Notification { slot: 1 }];
    let outcomes = vec![AttemptOutcome::Confirmed { token: token(7) }];
    let r = run_trace(sender, plan.recipient, plan.amount_base_units, &events, &outcomes);
    assert_eq!(r.attempted, 1);
    assert_eq!(r.built.len(), 1);
    let record = &r.built[0];
    assert_eq!(record.instructions.len(), 1);
    assert_eq!(record.instructions[0].amount_base_units, 2_000_000_000);
    assert_eq!(record.instructions[0].destination, plan.recipient);
    assert_eq!(record.instructions[0].source, sender);
    assert_eq!(record.signers, vec![sender]);
}

#[test]
fn an_empty_prefix_reports_nothing() {
    let events: Vec<StreamElement> = vec![];
    let outcomes: Vec<AttemptOutcome> = vec![];
    let r = run_trace(addr(1), addr(2), 42, &events, &outcomes);
    assert_eq!(r.attempted, 0);
    assert_eq!(r.stream_faults, 0);
    assert!(r.log.is_empty());
    assert!(r.built.is_empty());
}
