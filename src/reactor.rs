use vstd::prelude::*;

verus! {

/// Something told about every state transition, such as a view of the state.
///
/// A reactor may have side effects and may fail.
pub trait Reactor<S>: Sized {
    /// What a failed reaction reports.
    type Error;

    /// Holds when reacting on `self` to `state` may leave `next` and return `result`.
    spec fn reacts(self, state: S, next: Self, result: Result<(), Self::Error>) -> bool;

    /// Reacts to `state`, the state just after a transition.
    fn react(&mut self, state: &S) -> (r: Result<(), Self::Error>)
        ensures
            old(self).reacts(*state, *final(self), r),
    ;
}

/// A reactor that records a clone of each state it is told about, or fails without recording
/// while its result is set to an error.
#[derive(Debug, Clone, PartialEq, Eq)]
pub struct MockSubscriber<S> {
    states: Vec<S>,
    failing: bool,
}

impl<S> MockSubscriber<S> {
    /// The states recorded so far, oldest first.
    pub closed spec fn recorded(self) -> Seq<S> {
        self.states@
    }

    /// What the next reaction returns.
    pub closed spec fn outcome(self) -> Result<(), ()> {
        if self.failing {
            Err(())
        } else {
            Ok(())
        }
    }

    /// A mock that has already recorded `states` and whose reactions succeed.
    pub fn new(states: Vec<S>) -> (r: Self)
        ensures
            r.recorded() == states@,
            r.outcome() == Ok::<(), ()>(()),
    {
        MockSubscriber { states, failing: false }
    }

    /// Sets what later reactions return to `result(())`.
    pub fn set_result<F: FnOnce(()) -> Result<(), ()>>(&mut self, result: F)
        requires
            result.requires(((),)),
        ensures
            result.ensures(((),), final(self).outcome()),
            final(self).recorded() == old(self).recorded(),
    {
        let r = result(());
        self.failing = match r {
            Ok(u) => {
                proof {
                    assert(u == ());
                }
                false
            },
            Err(u) => {
                proof {
                    assert(u == ());
                }
                true
            },
        };
    }

    /// The states recorded so far, oldest first.
    pub fn states(&self) -> (r: &Vec<S>)
        ensures
            r@ == self.recorded(),
    {
        &self.states
    }
}

impl<S> Default for MockSubscriber<S> {
    fn default() -> (r: Self)
        ensures
            r.recorded() == Seq::<S>::empty(),
            r.outcome() == Ok::<(), ()>(()),
    {
        MockSubscriber { states: Vec::new(), failing: false }
    }
}

impl<S: Clone> Reactor<S> for MockSubscriber<S> {
    type Error = ();

    open spec fn reacts(self, state: S, next: Self, result: Result<(), ()>) -> bool {
        &&& result == self.outcome()
        &&& next.outcome() == self.outcome()
        &&& result is Err ==> next.recorded() == self.recorded()
        &&& result is Ok ==> exists|c: S| #[trigger]
            next.recorded() == self.recorded().push(c) && cloned(state, c)
    }

    fn react(&mut self, state: &S) -> (r: Result<(), ()>) {
        if self.failing {
            return Err(());
        }
        let c = state.clone();
        let ghost gc = c;
        self.states.push(c);
        proof {
            assert(cloned(*state, gc));
            assert(self.recorded() == old(self).recorded().push(gc));
        }
        Ok(())
    }
}

/// A boxed reactor reacts as the reactor inside it.
impl<S, T: Reactor<S>> Reactor<S> for Box<T> {
    type Error = T::Error;

    open spec fn reacts(self, state: S, next: Self, result: Result<(), T::Error>) -> bool {
        (*self).reacts(state, *next, result)
    }

    fn react(&mut self, state: &S) -> (r: Result<(), T::Error>) {
        (**self).react(state)
    }
}

/// An optional reactor: absent, it succeeds without doing anything.
impl<S, T: Reactor<S>> Reactor<S> for Option<T> {
    type Error = T::Error;

    open spec fn reacts(self, state: S, next: Self, result: Result<(), T::Error>) -> bool {
        match self {
            Some(t) => next is Some && t.reacts(state, next->0, result),
            None => next is None && result is Ok,
        }
    }

    fn react(&mut self, state: &S) -> (r: Result<(), T::Error>) {
        match self {
            Some(t) => t.react(state),
            None => Ok(()),
        }
    }
}

/// Holds when the reactors `cur`, told in order about `state`, become `next` and return
/// `result`, the first `k` of them having succeeded: the one at `k`, if any, failed with
/// `result`, and those after it were not told at all.
pub open spec fn fan_out<S, T: Reactor<S>>(
    cur: Seq<T>,
    state: S,
    next: Seq<T>,
    result: Result<(), T::Error>,
    k: int,
) -> bool {
    &&& 0 <= k <= cur.len()
    &&& next.len() == cur.len()
    &&& forall|i: int| 0 <= i < k ==> #[trigger] cur[i].reacts(state, next[i], Ok(()))
    &&& k < cur.len() ==> result is Err && cur[k].reacts(state, next[k], result)
    &&& k == cur.len() ==> result is Ok
    &&& forall|i: int| k < i < cur.len() ==> #[trigger] next[i] == cur[i]
}

/// Reactors told in order about each state; the first failure stops the round and is returned,
/// and the reactors after it are not told about that state.
impl<S, T: Reactor<S>> Reactor<S> for Vec<T> {
    type Error = T::Error;

    open spec fn reacts(self, state: S, next: Self, result: Result<(), T::Error>) -> bool {
        exists|k: int| fan_out(self@, state, next@, result, k)
    }

    fn react(&mut self, state: &S) -> (r: Result<(), T::Error>) {
        let n = self.len();
        let mut i: usize = 0;
        while i < n
            invariant
                n == old(self)@.len(),
                self@.len() == n,
                i <= n,
                forall|j: int| 0 <= j < i ==> #[trigger] old(self)@[j].reacts(*state, self@[j], Ok(())),
                forall|j: int| i <= j < n ==> #[trigger] self@[j] == old(self)@[j],
            decreases n - i,
        {
            let ghost pre = self@;
            let r = self[i].react(state);
            proof {
                assert(forall|j: int| 0 <= j < n && j != i ==> self@[j] == pre[j]);
            }
            match r {
                Ok(u) => {
                    proof {
                        assert(u == ());
                        assert(r == Ok::<(), T::Error>(()));
                    }
                },
                Err(e) => {
                    proof {
                        assert(fan_out(old(self)@, *state, self@, r, i as int));
                    }
                    return Err(e);
                },
            }
            i = i + 1;
        }
        proof {
            assert(fan_out(old(self)@, *state, self@, Ok(()), n as int));
        }
        Ok(())
    }
}

/// Where reactors told in order about one state return an error, one of them failed with it:
/// every reactor before it was told and succeeded, and every reactor after it was not told at
/// all; where they return `Ok`, every one of them was told and succeeded.
pub proof fn lemma_short_circuit<S, T: Reactor<S>>(
    cur: Vec<T>,
    state: S,
    next: Vec<T>,
    result: Result<(), T::Error>,
)
    requires
        cur.reacts(state, next, result),
    ensures
        next@.len() == cur@.len(),
        result is Ok ==> forall|i: int|
            0 <= i < cur@.len() ==> #[trigger] cur@[i].reacts(state, next@[i], Ok(())),
        result is Err ==> exists|k: int|
            {
                &&& 0 <= k < cur@.len()
                &&& forall|i: int|
                    0 <= i < k ==> #[trigger] cur@[i].reacts(state, next@[i], Ok(()))
                &&& #[trigger] cur@[k].reacts(state, next@[k], result)
                &&& forall|i: int| k < i < cur@.len() ==> #[trigger] next@[i] == cur@[i]
            },
{
    let k = choose|k: int| fan_out(cur@, state, next@, result, k);
    assert(fan_out(cur@, state, next@, result, k));
}

} // verus!
