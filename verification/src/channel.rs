//! The queue between the two sides: a channel of the standard library, whose
//! sender never blocks and whose receiver can look without waiting. Nothing
//! here is proved, and nothing is promised of what a call returns: that
//! depends on what the other side has done by then.

use crate::message::{Message, Polled};
use std::sync::mpsc::{channel, Receiver, Sender, TryRecvError};
use vstd::prelude::*;

verus! {

/// `std::sync::mpsc::Sender`, carried as an opaque value.
#[verifier::external_type_specification]
#[verifier::external_body]
#[verifier::reject_recursive_types(T)]
pub struct ExSender<T>(Sender<T>);

/// `std::sync::mpsc::Receiver`, carried as an opaque value.
#[verifier::external_type_specification]
#[verifier::external_body]
#[verifier::reject_recursive_types(T)]
pub struct ExReceiver<T>(Receiver<T>);

/// `std::sync::mpsc::channel`: the two ends of a new queue without bound.
#[verifier::external_body]
pub(crate) fn message_channel() -> (ends: (Sender<Message>, Receiver<Message>)) {
    channel()
}

/// `Sender::send`: puts the message on the queue without blocking, and
/// tells whether a receiver was still there to take it.
#[verifier::external_body]
pub(crate) fn send_message(sender: &Sender<Message>, message: Message) -> (delivered: bool) {
    match sender.send(message) {
        Ok(()) => true,
        Err(_) => false,
    }
}

/// `Receiver::try_recv`: takes the oldest message if one is waiting, and
/// returns at once if none is or if the sender is gone.
#[verifier::external_body]
pub(crate) fn poll_message(receiver: &Receiver<Message>) -> (polled: Polled) {
    match receiver.try_recv() {
        Ok(message) => Polled::Message(message),
        Err(TryRecvError::Empty) => Polled::Empty,
        Err(TryRecvError::Disconnected) => Polled::Disconnected,
    }
}

} // verus!
