//! The channel the producer thread hands observations over.

use vstd::prelude::*;

use crate::model::Observation;

verus! {

/// `flume::Receiver`, carried through unchanged.
#[verifier::external_type_specification]
#[verifier::external_body]
#[verifier::reject_recursive_types(T)]
pub struct ExReceiver<T>(flume::Receiver<T>);

/// What one non-blocking look at the channel found.
#[derive(Debug)]
pub enum Inbox {
    /// An observation was waiting.
    Arrived(Observation),
    /// Nothing is waiting right now.
    Empty,
    /// Every sender has gone and nothing is left to take.
    Closed,
}

/// Calls `flume::Receiver::try_recv` and tells its outcomes apart: a value,
/// `TryRecvError::Empty`, or `TryRecvError::Disconnected`. Nothing is stated
/// of which comes back: that depends on the producer thread.
#[verifier::external_body]
pub(crate) fn try_receive(rx: &flume::Receiver<Observation>) -> Inbox {
    match rx.try_recv() {
        Ok(observation) => Inbox::Arrived(observation),
        Err(flume::TryRecvError::Empty) => Inbox::Empty,
        Err(flume::TryRecvError::Disconnected) => Inbox::Closed,
    }
}

} // verus!
