use crate::reactor::{MockSubscriber, Reactor};
use crate::reducer::Reducer;
use vstd::prelude::*;

verus! {

/// Something that actions can be dispatched to.
pub trait Dispatcher<A>: Sized {
    /// What a dispatch returns.
    type Output;

    /// Holds when dispatching `action` on `self` may leave `next` and return `output`.
    spec fn dispatches(self, action: A, next: Self, output: Self::Output) -> bool;

    /// Dispatches `action`.
    fn dispatch(&mut self, action: A) -> (r: Self::Output)
        ensures
            old(self).dispatches(action, *final(self), r),
    ;
}

/// A reactive state container: it owns the state, which only actions change, and a reactor,
/// which it tells about the state after each change.
#[derive(Debug, Default, Clone, PartialEq, Eq, Hash)]
pub struct Store<S, R> {
    state: S,
    reactor: R,
}

impl<S, R> Store<S, R> {
    /// The state held.
    pub closed spec fn state_of(self) -> S {
        self.state
    }

    /// The reactor held.
    pub closed spec fn reactor_of(self) -> R {
        self.reactor
    }

    /// Holds when `self` is the store made of `state` and `reactor`.
    pub open spec fn holds(self, state: S, reactor: R) -> bool {
        self.state_of() == state && self.reactor_of() == reactor
    }

    /// A store of the initial `state` that tells `reactor` about each change.
    pub fn new(state: S, reactor: R) -> (r: Self)
        ensures
            r.holds(state, reactor),
    {
        Store { state, reactor }
    }

    /// Replaces the reactor and returns the one it replaced.
    pub fn subscribe(&mut self, reactor: R) -> (r: R)
        ensures
            r == old(self).reactor_of(),
            final(self).holds(old(self).state_of(), reactor),
    {
        let mut reactor = reactor;
        std::mem::swap(&mut self.reactor, &mut reactor);
        reactor
    }

    /// The current state.
    pub fn state(&self) -> (r: &S)
        ensures
            *r == self.state_of(),
    {
        &self.state
    }

    /// The current reactor.
    pub fn reactor(&self) -> (r: &R)
        ensures
            *r == self.reactor_of(),
    {
        &self.reactor
    }

    /// Takes the store apart into its state and its reactor.
    pub fn into_parts(self) -> (r: (S, R))
        ensures
            self.holds(r.0, r.1),
    {
        (self.state, self.reactor)
    }

    /// Holds when dispatching `action` on `self` may leave `next` and return `result`: the
    /// state is reduced by `action` first, whatever the reactor then does, and the reactor is
    /// told about the new state.
    pub open spec fn steps<A>(self, action: A, next: Self, result: Result<(), R::Error>) -> bool where
        S: Reducer<A>,
        R: Reactor<S>,
     {
        &&& self.state_of().reduces(action, next.state_of())
        &&& self.reactor_of().reacts(next.state_of(), next.reactor_of(), result)
    }

    /// Reduces the state by `action`, then tells the reactor about the new state and returns
    /// what it returned. The state is changed even where the reactor fails.
    pub fn dispatch<A>(&mut self, action: A) -> (r: Result<(), R::Error>) where
        S: Reducer<A>,
        R: Reactor<S>,
        ensures
            old(self).steps(action, *final(self), r),
    {
        self.state.reduce(action);
        self.reactor.react(&self.state)
    }
}

impl<A, S: Reducer<A>, R: Reactor<S>> Dispatcher<A> for Store<S, R> {
    type Output = Result<(), R::Error>;

    open spec fn dispatches(self, action: A, next: Self, output: Result<(), R::Error>) -> bool {
        self.steps(action, next, output)
    }

    fn dispatch(&mut self, action: A) -> (r: Result<(), R::Error>) {
        Store::dispatch(self, action)
    }
}

/// Dispatching `action` on the store made of `state` and `reactor` leaves the store made of
/// `next_state` and `next_reactor` and returns `result` exactly when reducing `state` by
/// `action` may leave `next_state`, and telling `reactor` about `next_state` may leave
/// `next_reactor` and return `result`.
pub proof fn lemma_round_trip<A, S: Reducer<A>, R: Reactor<S>>(
    store: Store<S, R>,
    state: S,
    reactor: R,
    action: A,
    next: Store<S, R>,
    next_state: S,
    next_reactor: R,
    result: Result<(), R::Error>,
)
    requires
        store.holds(state, reactor),
        next.holds(next_state, next_reactor),
    ensures
        store.steps(action, next, result) <==> (state.reduces(action, next_state)
            && reactor.reacts(next_state, next_reactor, result)),
{
}

/// Where a store whose reactor records states dispatches `actions` one after another, each
/// reaction succeeding, and passes through the stores `history`: every state is one that
/// reducing the state before it by the next action may leave, and the reactor has recorded,
/// after what it held at first, a clone of each of those states in the order they arose.
pub proof fn lemma_recorded_fold<A, S: Reducer<A> + Clone>(
    history: Seq<Store<S, MockSubscriber<S>>>,
    actions: Seq<A>,
)
    requires
        history.len() == actions.len() + 1,
        forall|i: int|
            0 <= i < actions.len() ==> #[trigger] history[i].steps(
                actions[i],
                history[i + 1],
                Ok(()),
            ),
    ensures
        ({
            let first = history[0].reactor_of().recorded();
            let last = history.last().reactor_of().recorded();
            &&& last.len() == first.len() + actions.len()
            &&& last.take(first.len() as int) == first
            &&& forall|i: int|
                0 <= i < actions.len() ==> cloned(
                    #[trigger] history[i + 1].state_of(),
                    last[first.len() + i],
                )
            &&& forall|i: int|
                0 <= i < actions.len() ==> (#[trigger] history[i]).state_of().reduces(
                    actions[i],
                    history[i + 1].state_of(),
                )
        }),
    decreases actions.len(),
{
    let n = actions.len() as int;
    if n > 0 {
        let h = history.drop_last();
        let a = actions.drop_last();
        assert forall|i: int| 0 <= i < a.len() implies #[trigger] h[i].steps(
            a[i],
            h[i + 1],
            Ok(()),
        ) by {
            assert(history[i].steps(actions[i], history[i + 1], Ok(())));
        }
        lemma_recorded_fold(h, a);
        assert(history[n - 1].steps(actions[n - 1], history[n], Ok(())));
        let first = history[0].reactor_of().recorded();
        let mid = history[n - 1].reactor_of().recorded();
        let last = history[n].reactor_of().recorded();
        let c = choose|c: S| last == mid.push(c) && cloned(history[n].state_of(), c);
        assert(last.take(first.len() as int) =~= mid.take(first.len() as int));
        assert forall|i: int| 0 <= i < n implies cloned(
            #[trigger] history[i + 1].state_of(),
            last[first.len() + i],
        ) by {
            if i < n - 1 {
                assert(h[i + 1] == history[i + 1]);
                assert(last[first.len() + i] == mid[first.len() + i]);
            }
        }
        assert forall|i: int| 0 <= i < n implies (#[trigger] history[i]).state_of().reduces(
            actions[i],
            history[i + 1].state_of(),
        ) by {
            assert(history[i].steps(actions[i], history[i + 1], Ok(())));
        }
    } else {
        assert(history[0].reactor_of().recorded().take(
            history[0].reactor_of().recorded().len() as int,
        ) =~= history[0].reactor_of().recorded());
    }
}

} // verus!
