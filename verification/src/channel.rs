//! The unbounded multi-producer multi-consumer queues that carry requests
//! and messages between the parts of the engine.
//!
//! The queues are those of `crossbeam_channel`. What a queue holds at a given
//! moment depends on every thread that owns one of its endpoints, so nothing
//! is claimed here about the outcome of sending or receiving: callers handle
//! every outcome.

use vstd::prelude::*;
use crossbeam_channel::{Receiver, SendError, Sender};

verus! {

/// The sending endpoint of a queue, `crossbeam_channel::Sender`. Opaque.
#[verifier::external_type_specification]
#[verifier::external_body]
#[verifier::reject_recursive_types(T)]
pub struct ExSender<T>(Sender<T>);

/// The receiving endpoint of a queue, `crossbeam_channel::Receiver`. Opaque.
#[verifier::external_type_specification]
#[verifier::external_body]
#[verifier::reject_recursive_types(T)]
pub struct ExReceiver<T>(Receiver<T>);

/// The error of a send on a queue whose receivers are all gone,
/// `crossbeam_channel::SendError`. It carries the message back. Opaque.
#[verifier::external_type_specification]
#[verifier::external_body]
#[verifier::reject_recursive_types(T)]
pub struct ExSendError<T>(SendError<T>);

/// `crossbeam_channel::unbounded`: makes a queue without a capacity limit and
/// returns its two endpoints. Nothing is claimed of them.
pub assume_specification<T>[ crossbeam_channel::unbounded::<T> ]() -> (r: (Sender<T>, Receiver<T>));

/// `crossbeam_channel::Sender::send`: puts a message on the queue, or fails
/// when the queue is disconnected. On an unbounded queue it does not block.
/// Which of the two happens is not claimed.
pub assume_specification<T>[ Sender::<T>::send ](sender: &Sender<T>, msg: T) -> (r: Result<
    (),
    SendError<T>,
>);

/// `Clone` of `crossbeam_channel::Sender`: another endpoint of the same queue.
pub assume_specification<T>[ <Sender<T> as Clone>::clone ](sender: &Sender<T>) -> (r: Sender<T>);

/// `Clone` of `crossbeam_channel::Receiver`: another endpoint of the same
/// queue.
pub assume_specification<T>[ <Receiver<T> as Clone>::clone ](receiver: &Receiver<T>) -> (r: Receiver<T>);

/// `crossbeam_channel::Receiver::try_iter`, collected: takes the messages
/// that are on the queue right now, oldest first, without blocking. Which
/// messages those are is not claimed.
#[verifier::external_body]
pub(crate) fn drain<T>(receiver: &Receiver<T>) -> (r: Vec<T>) {
    receiver.try_iter().collect()
}

/// Whether `taken` is what a call of `drain` on the receiver returned: the
/// messages that were on its queue at that moment.
pub closed spec fn taken_from<T>(receiver: Receiver<T>, taken: Vec<T>) -> bool {
    call_ensures(drain::<T>, (&receiver,), taken)
}

/// Takes the messages that are on the queue right now, as `drain` does.
pub(crate) fn take_pending<T>(receiver: &Receiver<T>) -> (r: Vec<T>)
    ensures
        taken_from(*receiver, r),
{
    drain(receiver)
}

/// `Debug` of `crossbeam_channel::SendError`, as text. What the text says is
/// not claimed.
#[verifier::external_body]
pub(crate) fn describe_send_error<T>(err: &SendError<T>) -> (r: String) {
    format!("{:?}", err)
}

} // verus!
