use crate::reactor::Reactor;
use futures::channel::mpsc::{Sender, TrySendError};
use vstd::prelude::*;

verus! {

#[verifier::external_type_specification]
#[verifier::external_body]
#[verifier::reject_recursive_types(T)]
pub struct ExSender<T>(Sender<T>);

#[verifier::external_type_specification]
#[verifier::external_body]
#[verifier::reject_recursive_types(T)]
pub struct ExTrySendError<T>(TrySendError<T>);

/// Relies on `futures::channel::mpsc::Sender::try_send`: it never waits and needs no executor;
/// it hands `value` to the channel when the receiving end is alive and there is room, in this
/// sender's own slot or in the buffer that all senders share, and otherwise returns `value`
/// inside the error. Which happens depends on the receiving end and on the other senders.
#[verifier::external_body]
fn try_send<T>(sender: &mut Sender<T>, value: T) -> (r: Result<(), TrySendError<T>>) {
    sender.try_send(value)
}

/// A reactor that offers a clone of each state to a channel and never waits for it.
///
/// Since it never waits, it never holds up the loop of the task that owns its store, and it
/// may run on any thread, an executor's included. Where the channel has no room for the state
/// (this sender's own slot is taken and the shared buffer is full) or its receiving end is
/// gone, the reaction fails at once, with the state inside the error; it does not slow the
/// store down. A reactor that waits for the receiving end belongs with the executor that
/// awaits it, outside this library.
#[derive(Debug, Clone, Default, PartialEq, Eq, Hash)]
pub struct TryReactor<T>(pub T);

impl<S: Clone> Reactor<S> for TryReactor<Sender<S>> {
    type Error = TrySendError<S>;

    /// Whether the state was taken depends on the receiving end and on the other senders.
    open spec fn reacts(self, state: S, next: Self, result: Result<(), TrySendError<S>>) -> bool {
        true
    }

    fn react(&mut self, state: &S) -> (r: Result<(), TrySendError<S>>) {
        try_send(&mut self.0, state.clone())
    }
}

} // verus!
