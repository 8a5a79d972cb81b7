//! Events, and the channel that carries them from the control side to the
//! audio side.
use vstd::prelude::*;

use std::sync::mpsc::{Receiver, Sender};

verus! {

/// A musical event for the synthesizer.
#[derive(Clone, Copy, Debug, PartialEq, Eq, Structural)]
pub enum Event {
    /// Start a note: instrument id and note index.
    NoteOn(usize, u8),
    /// Release a note: instrument id and note index.
    NoteOff(usize, u8),
    /// Start a one-shot sound of an instrument.
    Trigger(usize),
}

#[verifier::external_type_specification]
#[verifier::external_body]
#[verifier::reject_recursive_types(T)]
pub struct ExReceiver<T>(Receiver<T>);

#[verifier::external_type_specification]
#[verifier::external_body]
#[verifier::reject_recursive_types(T)]
pub struct ExSender<T>(Sender<T>);

/// Relies on `std::sync::mpsc::Receiver::try_recv`: the oldest event waiting
/// in the channel, or `None` when none is waiting (or every sender is gone),
/// without blocking.
#[verifier::external_body]
pub(crate) fn try_take(rx: &Receiver<Event>) -> (r: Option<Event>) {
    rx.try_recv().ok()
}

/// Relies on `std::sync::mpsc::Sender::send`: queues the event for the
/// receiver without blocking; when the receiver is gone the event is dropped.
#[verifier::external_body]
pub(crate) fn post(tx: &Sender<Event>, e: Event) {
    let _ = tx.send(e);
}

} // verus!
