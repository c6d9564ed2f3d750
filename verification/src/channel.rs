//! Bounded channels between the coordinator and the processes it runs.
//!
//! The channels are tokio's. What they hold at any moment depends on the other
//! end, so nothing is claimed about what a receive or a send comes back with:
//! callers are verified for every outcome.

use vstd::prelude::*;
use tokio::sync::mpsc::{Receiver, Sender};
use tokio::sync::Mutex;

verus! {

/// The sending half of a bounded tokio channel; opaque to the verifier.
#[verifier::external_type_specification]
#[verifier::external_body]
#[verifier::reject_recursive_types(T)]
pub struct ExSender<T>(Sender<T>);

/// The receiving half of a bounded tokio channel; opaque to the verifier.
#[verifier::external_type_specification]
#[verifier::external_body]
#[verifier::reject_recursive_types(T)]
pub struct ExReceiver<T>(Receiver<T>);

/// tokio's asynchronous mutex; opaque to the verifier.
#[verifier::external_type_specification]
#[verifier::external_body]
#[verifier::reject_recursive_types(T)]
pub struct ExMutex<T: ?Sized>(Mutex<T>);

/// Number of messages that each channel of a process buffers.
pub const CHANNEL_CAPACITY: usize = 32;

/// Opens a bounded channel with `tokio::sync::mpsc::channel`.
///
/// Trusted: that function returns the two halves of a new channel, and panics
/// when the capacity is zero or above the semaphore's limit of
/// `usize::MAX >> 3`, which the precondition excludes.
#[verifier::external_body]
pub(crate) fn open_channel<T>(capacity: usize) -> (ends: (Sender<T>, Receiver<T>))
    requires
        0 < capacity,
        capacity <= usize::MAX / 8,
{
    tokio::sync::mpsc::channel(capacity)
}

/// Takes the next buffered message, if one is there, with
/// `tokio::sync::mpsc::Receiver::try_recv`.
///
/// Trusted: nothing is claimed. An empty channel and a disconnected one both
/// give `None`.
#[verifier::external_body]
pub(crate) fn try_receive<T>(receiver: &mut Receiver<T>) -> (message: Option<T>) {
    receiver.try_recv().ok()
}

/// Offers `message` to the channel with
/// `tokio::sync::mpsc::Sender::try_send`, and says whether it was taken.
///
/// Trusted: nothing is claimed. A full channel and a closed one both give
/// `false`, and the message is dropped.
#[verifier::external_body]
pub(crate) fn try_deliver<T>(sender: &Sender<T>, message: T) -> (taken: bool) {
    sender.try_send(message).is_ok()
}

} // verus!
