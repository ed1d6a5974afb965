use vstd::prelude::*;

verus! {

#[verifier::external_type_specification]
#[verifier::external_body]
#[verifier::reject_recursive_types(T)]
pub struct ExSender<T>(crossbeam_channel::Sender<T>);

#[verifier::external_type_specification]
#[verifier::external_body]
#[verifier::reject_recursive_types(T)]
pub struct ExReceiver<T>(crossbeam_channel::Receiver<T>);

/// Relies on crossbeam_channel::unbounded: creates the two endpoints of a
/// fresh unbounded, ordered queue.
#[verifier::external_body]
pub(crate) fn new_channel<T>() -> (crossbeam_channel::Sender<T>, crossbeam_channel::Receiver<T>) {
    crossbeam_channel::unbounded::<T>()
}

/// Relies on crossbeam_channel::Sender::send: queues the message unless
/// every receiver is gone, in which case the unsent message comes back
/// inside the error.
#[verifier::external_body]
pub(crate) fn channel_send<T>(sender: &crossbeam_channel::Sender<T>, message: T) -> (r: Result<
    (),
    T,
>)
    ensures
        r matches Err(m) ==> m == message,
{
    sender.send(message).map_err(|e| e.0)
}

/// Relies on crossbeam_channel::Receiver::try_iter: takes every message
/// already queued, in arrival order, without blocking.
#[verifier::external_body]
pub(crate) fn channel_drain<T>(receiver: &crossbeam_channel::Receiver<T>) -> Vec<T> {
    receiver.try_iter().collect()
}

} // verus!
