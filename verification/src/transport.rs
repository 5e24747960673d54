//! Trusted declarations for the cross-thread FIFO transport.
//!
//! The two queues of a Remote Channel are crossbeam's unbounded channels:
//! cheap, contention-free, and usable while the owning thread sits in its
//! own blocking event loop.  Everything verified about the channel rests on
//! what these few items state; each doc comment names the function relied
//! on.  What another thread has queued is outside the model, so no contract
//! here speaks of a queue's contents, only of what holds of every outcome.

use vstd::prelude::*;

verus! {

#[verifier::external_type_specification]
#[verifier::external_body]
#[verifier::reject_recursive_types(T)]
pub struct ExSender<T>(crossbeam_channel::Sender<T>);

#[verifier::external_type_specification]
#[verifier::external_body]
#[verifier::reject_recursive_types(T)]
pub struct ExReceiver<T>(crossbeam_channel::Receiver<T>);

/// The outcome of one non-blocking receive attempt.
#[derive(Debug)]
pub enum RecvAttempt<T> {
    /// A message was waiting and is handed over.
    Received(T),
    /// Nothing is queued right now.
    Empty,
    /// Nothing is queued and every paired sender has been dropped.
    Disconnected,
}

/// Relies on crossbeam_channel::unbounded: an unbounded FIFO queue, handed
/// back as a connected sender/receiver pair.
#[verifier::external_body]
pub(crate) fn new_queue<T>() -> (crossbeam_channel::Sender<T>, crossbeam_channel::Receiver<T>) {
    crossbeam_channel::unbounded()
}

/// Relies on crossbeam_channel::Sender::send: on an unbounded queue it never
/// blocks; it fails exactly when every paired receiver has been dropped, and
/// then hands the unsent message back.
#[verifier::external_body]
pub(crate) fn queue_send<T>(tx: &crossbeam_channel::Sender<T>, value: T) -> (r: Result<(), T>)
    ensures
        r matches Err(v) ==> v == value,
{
    match tx.send(value) {
        Ok(()) => Ok(()),
        Err(crossbeam_channel::SendError(v)) => Err(v),
    }
}

/// Relies on crossbeam_channel::Receiver::try_recv: it never blocks, and it
/// reports an empty queue and an abandoned one apart.
#[verifier::external_body]
pub(crate) fn queue_try_recv<T>(rx: &crossbeam_channel::Receiver<T>) -> RecvAttempt<T> {
    match rx.try_recv() {
        Ok(v) => RecvAttempt::Received(v),
        Err(crossbeam_channel::TryRecvError::Empty) => RecvAttempt::Empty,
        Err(crossbeam_channel::TryRecvError::Disconnected) => RecvAttempt::Disconnected,
    }
}

/// Relies on crossbeam_channel::Sender::clone: another sending handle for
/// the same queue.
#[verifier::external_body]
pub(crate) fn queue_sender_clone<T>(
    tx: &crossbeam_channel::Sender<T>,
) -> crossbeam_channel::Sender<T> {
    tx.clone()
}

/// Relies on crossbeam_channel::Receiver::clone: another receiving handle
/// for the same queue; each message is received by exactly one handle.
#[verifier::external_body]
pub(crate) fn queue_receiver_clone<T>(
    rx: &crossbeam_channel::Receiver<T>,
) -> crossbeam_channel::Receiver<T> {
    rx.clone()
}

/// Relies on crossbeam_channel::Receiver::len: how many messages sat in the
/// queue at the moment of the call.
#[verifier::external_body]
pub(crate) fn queue_len<T>(rx: &crossbeam_channel::Receiver<T>) -> usize {
    rx.len()
}

} // verus!
