//! The channel that carries scheduling updates from producers to the
//! scheduler: tokio's unbounded many-producer single-consumer channel.
use vstd::prelude::*;
use tokio::sync::mpsc::{UnboundedReceiver, UnboundedSender};
use crate::handle::AddrPair;

verus! {

/// A scheduling update: a connection and the scheduler instant it is due at,
/// `None` meaning at once.
pub type PollUpdate = (AddrPair, Option<u64>);

#[verifier::external_type_specification]
#[verifier::external_body]
#[verifier::reject_recursive_types(T)]
pub struct ExUnboundedSender<T>(UnboundedSender<T>);

#[verifier::external_type_specification]
#[verifier::external_body]
#[verifier::reject_recursive_types(T)]
pub struct ExUnboundedReceiver<T>(UnboundedReceiver<T>);

/// Relies on tokio's `Clone` for `UnboundedSender`: another sender into the same
/// channel, so that producers can be handed out freely.
pub assume_specification<T>[ <UnboundedSender<T> as core::clone::Clone>::clone ](
    s: &UnboundedSender<T>,
) -> UnboundedSender<T>;

/// Relies on tokio::sync::mpsc::unbounded_channel: a connected sender and
/// receiver.
#[verifier::external_body]
pub(crate) fn channel() -> (UnboundedSender<PollUpdate>, UnboundedReceiver<PollUpdate>) {
    tokio::sync::mpsc::unbounded_channel()
}

/// Relies on tokio::sync::mpsc::UnboundedSender::send: it never waits, and
/// when the receiver is closed it hands the message back in its error.
#[verifier::external_body]
pub(crate) fn channel_send(sender: &UnboundedSender<PollUpdate>, msg: PollUpdate) -> (r: Result<
    (),
    PollUpdate,
>)
    ensures
        r matches Err(m) ==> m == msg,
{
    sender.send(msg).map_err(|e| e.0)
}

/// Relies on tokio::sync::mpsc::UnboundedReceiver::len: how many messages
/// are buffered now.
#[verifier::external_body]
pub(crate) fn buffered(receiver: &UnboundedReceiver<PollUpdate>) -> usize {
    receiver.len()
}

/// Relies on tokio::sync::mpsc::UnboundedReceiver::try_recv: the next
/// buffered message, without waiting; `None` when there is none or every
/// sender is gone.
#[verifier::external_body]
pub(crate) fn try_receive(receiver: &mut UnboundedReceiver<PollUpdate>) -> Option<PollUpdate> {
    receiver.try_recv().ok()
}

} // verus!
