//! The ingestion entry point: a record is stamped and put on a queue that
//! writer workers drain; the caller never waits for the store.
//!
//! The queue is an unbounded crossbeam channel, so `submit` never blocks and
//! never refuses for backlog: a stalled consumer grows memory without bound.
//! Delivery is at most once; nothing acknowledges a write.
use vstd::prelude::*;
use crossbeam::channel::{Receiver, Sender};
use crate::time_source::{add_fits, TimeSource, Timestamp};

verus! {

#[verifier::external_type_specification]
#[verifier::external_body]
#[verifier::reject_recursive_types(T)]
pub struct ExSender<T>(Sender<T>);

#[verifier::external_type_specification]
#[verifier::external_body]
#[verifier::reject_recursive_types(T)]
pub struct ExReceiver<T>(Receiver<T>);

/// Relies on `crossbeam::channel::unbounded`: a new channel of unlimited
/// capacity, whose sender never blocks.
#[verifier::external_body]
fn open_unbounded<T>() -> (r: (Sender<T>, Receiver<T>)) {
    crossbeam::channel::unbounded()
}

/// Relies on `crossbeam::channel::Sender::send`: it hands the message to the
/// channel, and fails only when every receiver is gone. On an unbounded
/// channel it does not block.
#[verifier::external_body]
fn enqueue<T>(tx: &Sender<T>, msg: T) -> (r: bool) {
    tx.send(msg).is_ok()
}

#[derive(Clone, Copy, Debug, PartialEq, Eq, Structural)]
pub enum SubmitError {
    /// The stamp would leave the range of `Timestamp`.
    ClockOutOfRange,
    /// Every writer has stopped; the record was dropped.
    Disconnected,
}

/// The producer side of one telemetry stream.
#[verifier::reject_recursive_types(T)]
pub struct Pipeline<T> {
    tx: Sender<(bool, Timestamp, T)>,
    clock: TimeSource,
}

impl<T> Pipeline<T> {
    pub open spec fn wf(&self) -> bool {
        self.clock_spec().wf()
    }

    pub closed spec fn clock_spec(&self) -> TimeSource {
        self.clock
    }

    /// A stream stamped by `clock`, on a new unbounded queue; returns the
    /// receiving end for the writers to drain.
    pub fn new(clock: TimeSource) -> (r: (Pipeline<T>, Receiver<(bool, Timestamp, T)>))
        requires
            clock.wf(),
        ensures
            r.0.wf(),
            r.0.clock_spec() == clock,
    {
        let (tx, rx) = open_unbounded();
        (Pipeline { tx, clock }, rx)
    }

    /// The clock that stamps this stream's records.
    pub fn clock(&self) -> (r: TimeSource)
        ensures
            r == self.clock_spec(),
    {
        self.clock
    }

    /// Stamps `record` with the present time and queues it for the writers;
    /// returns the stamp. A record is stamped before it is queued, so it is
    /// never queued without a stamp, and no stamp lies before the clock's start.
    pub fn submit(&self, is_reference: bool, record: T) -> (r: Result<Timestamp, SubmitError>)
        requires
            self.wf(),
        ensures
            r matches Ok(t) ==> t.wf() && t.total_nanos() >= self.clock_spec().start.total_nanos(),
            r == Err::<Timestamp, SubmitError>(SubmitError::ClockOutOfRange) ==> !add_fits(
                self.clock_spec().start,
                u64::MAX as int,
            ),
    {
        let now = match self.clock.timestamp() {
            Some(t) => t,
            None => {
                return Err(SubmitError::ClockOutOfRange);
            },
        };
        if enqueue(&self.tx, (is_reference, now, record)) {
            Ok(now)
        } else {
            Err(SubmitError::Disconnected)
        }
    }
}

} // verus!
