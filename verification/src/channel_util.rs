//! Optional-channel helpers, and the trusted declarations for std's mpsc
//! channels that the client tasks communicate over.
use vstd::prelude::*;

use std::sync::mpsc::{Receiver, Sender};

use crate::client::ClientMessage;

verus! {

#[verifier::external_type_specification]
#[verifier::external_body]
#[verifier::reject_recursive_types(T)]
pub struct ExReceiver<T>(Receiver<T>);

#[verifier::external_type_specification]
#[verifier::external_body]
#[verifier::reject_recursive_types(T)]
pub struct ExSender<T>(Sender<T>);

/// Relies on std's mpsc `Receiver::try_recv`: yields one queued message, or
/// nothing when the channel is empty or closed. Nothing can be promised of
/// what other tasks have queued.
#[verifier::external_body]
pub(crate) fn channel_try_recv<T>(rx: &Receiver<T>) -> (r: Option<T>) {
    rx.try_recv().ok()
}

/// Relies on std's mpsc `Sender::send`: queues the message unless the
/// receiving side is gone, and says which of the two happened.
#[verifier::external_body]
pub(crate) fn channel_send<T>(tx: &Sender<T>, msg: T) -> (ok: bool) {
    tx.send(msg).is_ok()
}

/// Relies on std's mpsc `Receiver::try_iter`: yields the messages queued at
/// this moment, in arrival order, without blocking. Nothing can be promised
/// of what other tasks have queued.
#[verifier::external_body]
pub(crate) fn channel_drain<T>(rx: &Receiver<T>) -> (msgs: Vec<T>) {
    rx.try_iter().collect()
}

/// Non-blocking receive on a channel the task may not have been given.
pub fn receive_tui_message(rx: &Option<Receiver<ClientMessage>>) -> (r: Option<ClientMessage>)
    ensures
        rx is None ==> r is None,
{
    match rx {
        Some(rx) => channel_try_recv(rx),
        None => None,
    }
}

/// Best-effort send on a channel the task may not have been given.
pub fn send_tui_message(message: ClientMessage, tx: &Option<Sender<ClientMessage>>) {
    match tx {
        Some(tx) => {
            channel_send(tx, message);
        }
        None => {}
    }
}

} // verus!
