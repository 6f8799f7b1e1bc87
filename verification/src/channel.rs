//! The tail-change channel between the writer and the readers: a watch
//! channel, which keeps only the latest tail that was published.

use vstd::prelude::*;

verus! {

/// `tokio::sync::watch::Sender`, the end of the channel that the writer
/// holds. Nothing is known of what is inside.
#[verifier::external_type_specification]
#[verifier::external_body]
#[verifier::reject_recursive_types(T)]
pub struct ExSender<T>(tokio::sync::watch::Sender<T>);

/// `tokio::sync::watch::Receiver`, the end of the channel that each reader
/// holds. Nothing is known of what is inside.
#[verifier::external_type_specification]
#[verifier::external_body]
#[verifier::reject_recursive_types(T)]
pub struct ExReceiver<T>(tokio::sync::watch::Receiver<T>);

/// Calls `tokio::sync::watch::channel`. Nothing is claimed of the two ends.
#[verifier::external_body]
pub(crate) fn tail_channel(tail: u64) -> (ends: (
    tokio::sync::watch::Sender<u64>,
    tokio::sync::watch::Receiver<u64>,
)) {
    tokio::sync::watch::channel(tail)
}

/// Calls `tokio::sync::watch::Sender::send`, which fails when no receiver is
/// left. Nothing is claimed of the outcome; the error comes back as its text.
#[verifier::external_body]
pub(crate) fn publish_tail(sender: &tokio::sync::watch::Sender<u64>, tail: u64) -> (sent: Result<
    (),
    String,
>) {
    match sender.send(tail) {
        Ok(()) => Ok(()),
        Err(e) => Err(e.to_string()),
    }
}

/// Calls `tokio::sync::watch::Receiver::borrow` and copies the value out. It
/// is the tail most recently published, which depends on what the writer has
/// done meanwhile: nothing is claimed of it.
#[verifier::external_body]
pub(crate) fn latest_tail(receiver: &tokio::sync::watch::Receiver<u64>) -> (tail: u64) {
    *receiver.borrow()
}

/// Calls `clone` on a `tokio::sync::watch::Receiver`: one more receiving end
/// of the same channel. The clone is made of the same shared state and the
/// same last version seen, which is all that a receiver is made of: it is
/// equal to the one it was made from.
#[verifier::external_body]
pub(crate) fn another_receiver(
    receiver: &tokio::sync::watch::Receiver<u64>,
) -> (same: tokio::sync::watch::Receiver<u64>)
    ensures
        same == *receiver,
{
    receiver.clone()
}

} // verus!
