//! The control loop: how the pipeline reacts to each element drawn from
//! the block event stream, and a verified replay of the loop over a finite
//! stream prefix with the outside world's answers supplied as values.
//!
//! A stream fault is logged and never ends the loop; a notification
//! triggers exactly one transfer attempt, run to completion before the
//! next element is consumed; a failed attempt is logged and never ends the
//! loop either.

use vstd::prelude::*;

use crate::errors::TransferStage;
use crate::transfer::{AccountAddress, FreshnessToken, TransactionRecord, build_transfer};

verus! {

/// One element drawn from the block event stream.  Each element is
/// independently a notification or a stream-level error; an error does
/// not terminate the stream.
#[derive(Clone, Copy, Debug, PartialEq, Eq)]
pub enum StreamElement {
    /// A new block was observed at this slot.
    Notification { slot: u64 },
    /// This element was malformed or dropped; the stream stays open.
    StreamFault,
}

/// What the loop does in reaction to one stream element.
#[derive(Clone, Copy, Debug, PartialEq, Eq)]
pub enum Reaction {
    /// Attempt one transfer for the notified slot.
    AttemptTransfer { slot: u64 },
    /// Log the stream-level error and keep consuming.
    LogStreamError,
}

/// The loop's reaction to one stream element: a notification triggers a
/// transfer attempt, a stream fault is logged and the loop continues.
pub fn react(element: StreamElement) -> (r: Reaction)
    ensures
        element matches StreamElement::Notification { slot } ==> r == (Reaction::AttemptTransfer {
            slot,
        }),
        element is StreamFault ==> r == Reaction::LogStreamError,
{
    match element {
        StreamElement::Notification { slot } => Reaction::AttemptTransfer { slot },
        StreamElement::StreamFault => Reaction::LogStreamError,
    }
}

/// How one transfer attempt resolved, as the loop observes it.
#[derive(Clone, Copy, Debug, PartialEq, Eq)]
pub enum AttemptOutcome {
    /// The freshness-token query failed; nothing was built or submitted.
    QueryFailed,
    /// The token arrived and the transfer was built, but broadcast or
    /// confirmation failed.
    SubmissionFailed { token: FreshnessToken },
    /// The transfer was built, submitted and confirmed.
    Confirmed { token: FreshnessToken },
}

/// One structured log line of the loop.
#[derive(Clone, Copy, Debug, PartialEq, Eq)]
pub enum LogEntry {
    NotificationReceived { slot: u64 },
    TransferSucceeded { slot: u64 },
    TransferFailed { slot: u64, stage: TransferStage },
    StreamErrorLogged,
}

pub open spec fn notification_count(es: Seq<StreamElement>) -> nat
    decreases es.len(),
{
    if es.len() == 0 {
        0
    } else {
        (match es[0] {
            StreamElement::Notification { .. } => 1nat,
            StreamElement::StreamFault => 0nat,
        }) + notification_count(es.drop_first())
    }
}

pub open spec fn fault_count(es: Seq<StreamElement>) -> nat
    decreases es.len(),
{
    if es.len() == 0 {
        0
    } else {
        (match es[0] {
            StreamElement::Notification { .. } => 0nat,
            StreamElement::StreamFault => 1nat,
        }) + fault_count(es.drop_first())
    }
}

pub open spec fn confirmed_count(os: Seq<AttemptOutcome>) -> nat
    decreases os.len(),
{
    if os.len() == 0 {
        0
    } else {
        (match os[0] {
            AttemptOutcome::Confirmed { .. } => 1nat,
            _ => 0nat,
        }) + confirmed_count(os.drop_first())
    }
}

/// The two log lines of one attempt for the notified slot.
pub open spec fn attempt_entries(slot: u64, o: AttemptOutcome) -> Seq<LogEntry> {
    match o {
        AttemptOutcome::QueryFailed => seq![
            LogEntry::NotificationReceived { slot },
            LogEntry::TransferFailed { slot, stage: TransferStage::FetchToken },
        ],
        AttemptOutcome::SubmissionFailed { .. } => seq![
            LogEntry::NotificationReceived { slot },
            LogEntry::TransferFailed { slot, stage: TransferStage::Submit },
        ],
        AttemptOutcome::Confirmed { .. } => seq![
            LogEntry::NotificationReceived { slot },
            LogEntry::TransferSucceeded { slot },
        ],
    }
}

/// The freshness token of an outcome that got past the query stage.
pub open spec fn outcome_token(o: AttemptOutcome) -> Option<FreshnessToken> {
    match o {
        AttemptOutcome::QueryFailed => None,
        AttemptOutcome::SubmissionFailed { token } => Some(token),
        AttemptOutcome::Confirmed { token } => Some(token),
    }
}

/// The log the loop writes over a stream prefix, one outcome consumed per
/// notification in order.  A stream fault contributes one line and
/// consumes no outcome; a notification contributes its two attempt lines.
pub open spec fn sim_log(es: Seq<StreamElement>, os: Seq<AttemptOutcome>) -> Seq<LogEntry>
    decreases es.len(),
{
    if es.len() == 0 {
        Seq::empty()
    } else {
        match es[0] {
            StreamElement::Notification { slot } => if os.len() > 0 {
                attempt_entries(slot, os[0]) + sim_log(es.drop_first(), os.drop_first())
            } else {
                sim_log(es.drop_first(), os)
            },
            StreamElement::StreamFault => seq![LogEntry::StreamErrorLogged] + sim_log(
                es.drop_first(),
                os,
            ),
        }
    }
}

/// The freshness tokens of the transactions the loop builds, in order:
/// one for every attempt whose token query succeeded.
pub open spec fn built_tokens(es: Seq<StreamElement>, os: Seq<AttemptOutcome>) -> Seq<
    FreshnessToken,
>
    decreases es.len(),
{
    if es.len() == 0 {
        Seq::empty()
    } else {
        match es[0] {
            StreamElement::Notification { .. } => if os.len() > 0 {
                (match outcome_token(os[0]) {
                    Some(t) => seq![t],
                    None => Seq::empty(),
                }) + built_tokens(es.drop_first(), os.drop_first())
            } else {
                built_tokens(es.drop_first(), os)
            },
            StreamElement::StreamFault => built_tokens(es.drop_first(), os),
        }
    }
}

proof fn lemma_counts_split(es: Seq<StreamElement>, i: int)
    requires
        0 <= i <= es.len(),
    ensures
        notification_count(es) == notification_count(es.take(i)) + notification_count(es.skip(i)),
        fault_count(es) == fault_count(es.take(i)) + fault_count(es.skip(i)),
    decreases i,
{
    if i == 0 {
        assert(es.take(0) =~= Seq::empty());
        assert(es.skip(0) =~= es);
        assert(notification_count(Seq::empty()) == 0);
        assert(fault_count(Seq::empty()) == 0);
    } else {
        lemma_counts_split(es.drop_first(), i - 1);
        assert(es.take(i).drop_first() =~= es.drop_first().take(i - 1));
        assert(es.skip(i) =~= es.drop_first().skip(i - 1));
        assert(es.take(i)[0] == es[0]);
        assert(es.take(i).len() == i);
    }
}

proof fn lemma_confirmed_split(os: Seq<AttemptOutcome>, k: int)
    requires
        0 <= k <= os.len(),
    ensures
        confirmed_count(os) == confirmed_count(os.take(k)) + confirmed_count(os.skip(k)),
    decreases k,
{
    if k == 0 {
        assert(os.take(0) =~= Seq::empty());
        assert(os.skip(0) =~= os);
        assert(confirmed_count(Seq::empty()) == 0);
    } else {
        lemma_confirmed_split(os.drop_first(), k - 1);
        assert(os.take(k).drop_first() =~= os.drop_first().take(k - 1));
        assert(os.skip(k) =~= os.drop_first().skip(k - 1));
        assert(os.take(k)[0] == os[0]);
        assert(os.take(k).len() == k);
    }
}

/// Every stream element leaves its mark and the loop never stops early:
/// the loop's log holds one line per stream fault and two per
/// notification, whatever the attempts' outcomes were.
pub proof fn lemma_log_covers_every_element(es: Seq<StreamElement>, os: Seq<AttemptOutcome>)
    requires
        os.len() == notification_count(es),
    ensures
        sim_log(es, os).len() == es.len() + notification_count(es),
    decreases es.len(),
{
    if es.len() > 0 {
        match es[0] {
            StreamElement::Notification { slot } => {
                assert(notification_count(es) == 1 + notification_count(es.drop_first()));
                assert(os.len() > 0);
                lemma_log_covers_every_element(es.drop_first(), os.drop_first());
                assert(attempt_entries(slot, os[0]).len() == 2);
            },
            StreamElement::StreamFault => {
                lemma_log_covers_every_element(es.drop_first(), os);
            },
        }
    }
}

/// What a replay of the loop reports: the structured log, the transfers
/// that were built, and the tallies.
pub struct TraceReport {
    pub log: Vec<LogEntry>,
    pub built: Vec<TransactionRecord>,
    pub attempted: usize,
    pub succeeded: usize,
    pub failed: usize,
    pub stream_faults: usize,
}

/// Replays the loop over a finite prefix of the event stream, with the
/// outside world's answer to each transfer attempt supplied as a value.
/// Exactly one outcome is consumed per notification, in arrival order;
/// each attempt resolves before the next element is consumed; neither a
/// stream fault nor a failed attempt stops the loop.
pub fn run_trace(
    sender: AccountAddress,
    recipient: AccountAddress,
    amount_base_units: u64,
    events: &Vec<StreamElement>,
    outcomes: &Vec<AttemptOutcome>,
) -> (r: TraceReport)
    requires
        outcomes@.len() == notification_count(events@),
    ensures
        r.log@ == sim_log(events@, outcomes@),
        r.attempted == notification_count(events@),
        r.stream_faults == fault_count(events@),
        r.succeeded == confirmed_count(outcomes@),
        r.attempted == r.succeeded + r.failed,
        r.built@.len() == built_tokens(events@, outcomes@).len(),
        forall|j: int|
            0 <= j < r.built@.len() ==> (#[trigger] r.built@[j]).is_transfer(
                sender,
                recipient,
                amount_base_units,
                built_tokens(events@, outcomes@)[j],
            ),
{
    let ghost es = events@;
    let ghost os = outcomes@;
    let mut log: Vec<LogEntry> = Vec::new();
    let mut built: Vec<TransactionRecord> = Vec::new();
    let mut attempted: usize = 0;
    let mut succeeded: usize = 0;
    let mut failed: usize = 0;
    let mut stream_faults: usize = 0;
    let mut k: usize = 0;
    let mut i: usize = 0;
    let events_n = events.len();
    let outcomes_n = outcomes.len();
    proof {
        assert(es.len() == events_n);
        assert(os.len() == outcomes_n);
        assert(es.take(0) =~= Seq::empty());
        assert(es.skip(0) =~= es);
        assert(os.take(0) =~= Seq::empty());
        assert(os.skip(0) =~= os);
    }
    while i < events.len()
        invariant
            events@ == es,
            outcomes@ == os,
            i <= es.len(),
            es.len() <= usize::MAX,
            k <= os.len(),
            os.len() <= usize::MAX,
            os.len() == notification_count(es),
            k == notification_count(es.take(i as int)),
            attempted == k,
            stream_faults == fault_count(es.take(i as int)),
            stream_faults <= i,
            succeeded == confirmed_count(os.take(k as int)),
            succeeded <= k,
            failed <= k,
            attempted == succeeded + failed,
            sim_log(es, os) =~= log@ + sim_log(es.skip(i as int), os.skip(k as int)),
            built_tokens(es, os) =~= built@.map_values(|t: TransactionRecord| t.token)
                + built_tokens(es.skip(i as int), os.skip(k as int)),
            forall|j: int|
                0 <= j < built@.len() ==> (#[trigger] built@[j]).is_transfer(
                    sender,
                    recipient,
                    amount_base_units,
                    built@[j].token,
                ),
        decreases es.len() - i,
    {
        proof {
            assert(es.skip(i as int)[0] == es[i as int]);
            assert(es.skip(i as int).drop_first() =~= es.skip(i as int + 1));
            assert(es.take(i as int + 1).drop_last() =~= es.take(i as int));
            lemma_counts_split(es.take(i as int + 1), i as int);
            assert(es.take(i as int + 1).take(i as int) =~= es.take(i as int));
            assert(es.take(i as int + 1).skip(i as int) =~= seq![es[i as int]]);
            assert(notification_count(seq![es[i as int]].drop_first()) == 0) by {
                assert(seq![es[i as int]].drop_first() =~= Seq::empty());
            }
            assert(fault_count(seq![es[i as int]].drop_first()) == 0) by {
                assert(seq![es[i as int]].drop_first() =~= Seq::empty());
            }
        }
        match events[i] {
            StreamElement::Notification { slot } => {
                proof {
                    lemma_counts_split(es, i as int);
                    assert(notification_count(es.skip(i as int)) == 1 + notification_count(
                        es.skip(i as int + 1),
                    ));
                    assert(k < os.len());
                    assert(os.skip(k as int)[0] == os[k as int]);
                    assert(os.skip(k as int).drop_first() =~= os.skip(k as int + 1));
                    lemma_confirmed_split(os.take(k as int + 1), k as int);
                    assert(os.take(k as int + 1).take(k as int) =~= os.take(k as int));
                    assert(os.take(k as int + 1).skip(k as int) =~= seq![os[k as int]]);
                    assert(confirmed_count(seq![os[k as int]].drop_first()) == 0) by {
                        assert(seq![os[k as int]].drop_first() =~= Seq::empty());
                    }
                }
                log.push(LogEntry::NotificationReceived { slot });
                let outcome = outcomes[k];
                match outcome {
                    AttemptOutcome::QueryFailed => {
                        log.push(
                            LogEntry::TransferFailed { slot, stage: TransferStage::FetchToken },
                        );
                        failed = failed + 1;
                    },
                    AttemptOutcome::SubmissionFailed { token } => {
                        let record = build_transfer(sender, recipient, amount_base_units, token);
                        built.push(record);
                        log.push(LogEntry::TransferFailed { slot, stage: TransferStage::Submit });
                        failed = failed + 1;
                    },
                    AttemptOutcome::Confirmed { token } => {
                        let record = build_transfer(sender, recipient, amount_base_units, token);
                        built.push(record);
                        log.push(LogEntry::TransferSucceeded { slot });
                        succeeded = succeeded + 1;
                    },
                }
                attempted = attempted + 1;
                k = k + 1;
            },
            StreamElement::StreamFault => {
                log.push(LogEntry::StreamErrorLogged);
                stream_faults = stream_faults + 1;
            },
        }
        i = i + 1;
    }
    proof {
        assert(es.take(i as int) =~= es);
        assert(os.take(k as int) =~= os);
        assert(es.skip(i as int) =~= Seq::empty());
        assert(sim_log(Seq::empty(), os.skip(k as int)) =~= Seq::empty());
        assert(built_tokens(Seq::empty(), os.skip(k as int)) =~= Seq::empty());
        assert(log@ =~= sim_log(es, os));
        assert(built_tokens(es, os) =~= built@.map_values(|t: TransactionRecord| t.token));
    }
    TraceReport { log, built, attempted, succeeded, failed, stream_faults }
}

} // verus!
