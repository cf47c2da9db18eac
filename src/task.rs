use crate::reactor::Reactor;
use crate::reducer::Reducer;
use crate::store::Store;
use std::collections::VecDeque;
use vstd::prelude::*;

verus! {

/// Why an action was not accepted.
#[derive(Debug, Clone, Copy, PartialEq, Eq, Hash)]
pub enum DispatchError {
    /// The task has stopped, or its mailbox was closed: it takes no further actions.
    Terminated,
}

/// What running a task came to.
pub enum Completion<E> {
    /// The task waits for the next action.
    Pending,
    /// The task has stopped: `Ok` once its mailbox was closed and drained, or the error of the
    /// reactor that failed.
    Ready(Result<(), E>),
}

/// Everything a task is, as far as its contracts speak of it.
pub struct TaskView<S, R: Reactor<S>, A> {
    /// The store the task owns.
    pub store: Store<S, R>,
    /// The actions accepted and not yet taken, oldest first.
    pub queue: Seq<A>,
    /// How many actions the mailbox buffers ahead of the task.
    pub capacity: nat,
    /// Whether the mailbox was closed.
    pub closed: bool,
    /// Whether the task is parked on an empty mailbox, ready to take an action at once.
    pub waiting: bool,
    /// How the task ended, once it has.
    pub outcome: Option<Result<(), R::Error>>,
    /// Whether the outcome was handed out.
    pub reported: bool,
    /// Every action the mailbox accepted, in the order it accepted them.
    pub accepted: Seq<A>,
    /// The actions dispatched to the store, in order.
    pub processed: Seq<A>,
    /// The actions that were accepted but thrown away when the task failed.
    pub dropped: Seq<A>,
    /// The store before the first action and after each processed action.
    pub history: Seq<Store<S, R>>,
    /// What each dispatch to the store returned.
    pub results: Seq<Result<(), R::Error>>,
}

impl<S, R: Reactor<S>, A> TaskView<S, R, A> where S: Reducer<A> {
    /// The invariant of every task.
    pub open spec fn wf(self) -> bool {
        &&& self.history.len() == self.processed.len() + 1
        &&& self.results.len() == self.processed.len()
        &&& self.history.last() == self.store
        &&& forall|i: int|
            0 <= i < self.processed.len() ==> #[trigger] self.history[i].steps(
                self.processed[i],
                self.history[i + 1],
                self.results[i],
            )
        &&& forall|i: int|
            0 <= i < self.processed.len() && (#[trigger] self.results[i]) is Err ==> i
                == self.processed.len() - 1
        &&& self.accepted == self.processed + self.dropped + self.queue
        &&& match self.outcome {
            None => self.dropped.len() == 0 && (self.processed.len() > 0
                ==> self.results.last() is Ok),
            Some(Ok(())) => self.closed && self.dropped.len() == 0 && (self.processed.len() > 0
                ==> self.results.last() is Ok),
            Some(Err(e)) => self.processed.len() > 0 && self.results.last() == Err::<(), R::Error>(
                e,
            ),
        }
        &&& self.outcome is Some ==> self.queue.len() == 0 && !self.waiting
        &&& self.waiting ==> self.queue.len() == 0
        &&& self.queue.len() <= self.capacity || (self.queue.len() == 1 && self.capacity == 0)
        &&& self.reported ==> self.outcome is Some
    }

    /// Whether the mailbox can take an action without the producer waiting.
    pub open spec fn has_room(self) -> bool {
        self.queue.len() < self.capacity || self.waiting
    }

    /// The task after its mailbox accepted `action`.
    pub open spec fn accept(self, action: A) -> Self {
        TaskView {
            queue: self.queue.push(action),
            accepted: self.accepted.push(action),
            waiting: false,
            ..self
        }
    }

    /// Holds when `next` is what running the task until it parks or stops may leave, `k` being
    /// how many of the buffered actions it dispatched: all of them unless one failed, in which
    /// case the failing one is the last dispatched and the rest are thrown away.
    pub open spec fn drains(self, next: Self, k: int) -> bool {
        &&& 0 <= k <= self.queue.len()
        &&& next.processed == self.processed + self.queue.take(k)
        &&& next.history.take(self.history.len() as int) == self.history
        &&& next.queue.len() == 0
        &&& next.accepted == self.accepted
        &&& next.capacity == self.capacity
        &&& next.closed == self.closed
        &&& match next.outcome {
            None => k == self.queue.len() && next.waiting && !self.closed && next.dropped
                == self.dropped,
            Some(Ok(())) => k == self.queue.len() && self.closed && next.dropped == self.dropped,
            Some(Err(_)) => k >= 1 && next.dropped == self.dropped + self.queue.skip(k),
        }
    }

    /// Holds when `next` is what one step of the running task may leave: it dispatches the
    /// oldest action in the mailbox, stopping on a failure and throwing away the actions
    /// still buffered; on an empty mailbox it stops if the mailbox was closed, and parks
    /// otherwise.
    pub open spec fn ran(self, next: Self) -> bool {
        if self.queue.len() > 0 {
            let action = self.queue[0];
            let r = next.results.last();
            &&& next.results.len() == self.results.len() + 1
            &&& self.store.steps(action, next.store, r)
            &&& next == TaskView {
                store: next.store,
                queue: if r is Ok {
                    self.queue.drop_first()
                } else {
                    Seq::empty()
                },
                waiting: false,
                outcome: if r is Ok {
                    None
                } else {
                    Some(r)
                },
                processed: self.processed.push(action),
                dropped: if r is Ok {
                    self.dropped
                } else {
                    self.dropped + self.queue.drop_first()
                },
                history: self.history.push(next.store),
                results: self.results.push(r),
                ..self
            }
        } else if self.closed {
            next == TaskView { outcome: Some(Ok(())), waiting: false, ..self }
        } else {
            next == TaskView { waiting: true, ..self }
        }
    }
}

/// A store turned into a unit of work that takes actions from a bounded mailbox, oldest
/// first, and dispatches them to the store until the mailbox is closed and drained, or a
/// reactor fails.
pub struct Task<S, R: Reactor<S>, A> {
    store: Store<S, R>,
    mailbox: VecDeque<A>,
    capacity: usize,
    closed: bool,
    waiting: bool,
    stopped: bool,
    unreported: Option<Result<(), R::Error>>,
    reported: bool,
    accepted: Ghost<Seq<A>>,
    processed: Ghost<Seq<A>>,
    dropped: Ghost<Seq<A>>,
    history: Ghost<Seq<Store<S, R>>>,
    results: Ghost<Seq<Result<(), R::Error>>>,
    outcome: Ghost<Option<Result<(), R::Error>>>,
}

impl<S, R: Reactor<S>, A> View for Task<S, R, A> {
    type V = TaskView<S, R, A>;

    closed spec fn view(&self) -> TaskView<S, R, A> {
        TaskView {
            store: self.store,
            queue: self.mailbox@,
            capacity: self.capacity as nat,
            closed: self.closed,
            waiting: self.waiting,
            outcome: self.outcome@,
            reported: self.reported,
            accepted: self.accepted@,
            processed: self.processed@,
            dropped: self.dropped@,
            history: self.history@,
            results: self.results@,
        }
    }
}

impl<S, R: Reactor<S>, A> Task<S, R, A> {
    /// How the fields that hold the outcome agree with it.
    pub closed spec fn holds_outcome(&self) -> bool {
        &&& self.stopped == self.outcome@ is Some
        &&& if self.stopped && !self.reported {
            self.unreported == self.outcome@
        } else {
            self.unreported is None
        }
    }
}

impl<S, R: Reactor<S>, A> Task<S, R, A> where S: Reducer<A> {
    /// The invariant of every task.
    pub open spec fn wf(&self) -> bool {
        self@.wf() && self.holds_outcome()
    }

    /// The store the task owns.
    pub fn store(&self) -> (r: &Store<S, R>)
        ensures
            *r == self@.store,
    {
        &self.store
    }

    /// Closes the mailbox: it takes no further actions, and the task stops once it has
    /// dispatched those it holds.
    pub fn close(&mut self)
        requires
            old(self).wf(),
        ensures
            final(self).wf(),
            final(self)@ == (TaskView { closed: true, ..old(self)@ }),
    {
        self.closed = true;
    }

    /// One step of the running task.
    fn run_one(&mut self) -> (r: Option<Result<(), R::Error>>)
        requires
            old(self).wf(),
            old(self)@.outcome is None,
        ensures
            final(self)@.wf(),
            old(self)@.ran(final(self)@),
            final(self).stopped == final(self)@.outcome is Some,
            final(self).unreported is None,
            !final(self).reported,
            r == final(self)@.outcome,
    {
        let ghost pre = self@;
        match self.mailbox.pop_front() {
            Some(action) => {
                let ghost a = action;
                let r = self.store.dispatch(action);
                let ghost store1 = self.store;
                proof {
                    self.processed@ = self.processed@.push(a);
                    self.history@ = self.history@.push(store1);
                    self.results@ = self.results@.push(r);
                }
                match r {
                    Ok(u) => {
                        proof {
                            assert(u == ());
                            assert(pre.queue.drop_first() == self.mailbox@);
                            assert(self@.accepted =~= self@.processed + self@.dropped
                                + self@.queue);
                            assert(self@ == TaskView {
                                store: store1,
                                queue: pre.queue.drop_first(),
                                waiting: false,
                                outcome: None,
                                processed: pre.processed.push(a),
                                dropped: pre.dropped,
                                history: pre.history.push(store1),
                                results: pre.results.push(r),
                                ..pre
                            });
                        }
                        None
                    },
                    Err(e) => {
                        let ghost rest = self.mailbox@;
                        self.mailbox.clear();
                        self.stopped = true;
                        let ghost err = Err::<(), R::Error>(e);
                        proof {
                            self.dropped@ = self.dropped@ + rest;
                            self.outcome@ = Some(err);
                            assert(self@.accepted =~= self@.processed + self@.dropped
                                + self@.queue);
                            assert(self@ == TaskView {
                                store: store1,
                                queue: Seq::empty(),
                                waiting: false,
                                outcome: Some(r),
                                processed: pre.processed.push(a),
                                dropped: pre.dropped + pre.queue.drop_first(),
                                history: pre.history.push(store1),
                                results: pre.results.push(r),
                                ..pre
                            });
                        }
                        Some(Err(e))
                    },
                }
            },
            None => {
                if self.closed {
                    self.stopped = true;
                    self.waiting = false;
                    proof {
                        self.outcome@ = Some(Ok(()));
                    }
                    Some(Ok(()))
                } else {
                    self.waiting = true;
                    None
                }
            },
        }
    }

    /// Runs the task until it parks on an empty mailbox or stops.
    fn run(&mut self) -> (r: Option<Result<(), R::Error>>)
        requires
            old(self).wf(),
            old(self)@.outcome is None,
        ensures
            final(self)@.wf(),
            exists|k: int| old(self)@.drains(final(self)@, k),
            final(self).stopped == final(self)@.outcome is Some,
            final(self).unreported is None,
            !final(self).reported,
            r == final(self)@.outcome,
    {
        let ghost start = self@;
        let ghost mut j: int = 0;
        loop
            invariant
                start == old(self)@,
                start.wf(),
                self@.wf(),
                self@.outcome is None,
                !self.stopped,
                self.unreported is None,
                !self.reported,
                0 <= j <= start.queue.len(),
                self@.processed == start.processed + start.queue.take(j),
                self@.queue == start.queue.skip(j),
                self@.history.take(start.history.len() as int) == start.history,
                self@.accepted == start.accepted,
                self@.capacity == start.capacity,
                self@.closed == start.closed,
                self@.dropped == start.dropped,
            decreases self@.queue.len(),
        {
            let ghost pre = self@;
            let done = self.run_one();
            proof {
                assert(pre.history.len() >= start.history.len());
                if pre.queue.len() > 0 {
                    assert(start.queue.take(j + 1) == start.queue.take(j).push(pre.queue[0]));
                    assert(self@.history.take(start.history.len() as int) =~= pre.history.take(
                        start.history.len() as int,
                    ));
                    j = j + 1;
                }
            }
            match done {
                Some(res) => {
                    proof {
                        if res is Err {
                            assert(start.queue.skip(j) == pre.queue.drop_first());
                        } else {
                            assert(start.queue.take(j) == start.queue);
                        }
                        assert(start.drains(self@, j));
                    }
                    return Some(res);
                },
                None => {
                    if self.waiting {
                        proof {
                            assert(start.queue.take(j) == start.queue);
                            assert(start.drains(self@, j));
                        }
                        return None;
                    }
                },
            }
        }
    }

    /// Runs the task until it waits for the next action or stops, and says which. Once it has
    /// stopped, its outcome is handed out exactly once.
    pub fn poll(&mut self) -> (r: Completion<R::Error>)
        requires
            old(self).wf(),
            !old(self)@.reported,
        ensures
            final(self).wf(),
            final(self)@.reported == r is Ready,
            old(self)@.outcome is Some ==> final(self)@ == (TaskView {
                reported: true,
                ..old(self)@
            }),
            old(self)@.outcome is None ==> exists|k: int| old(self)@.drains(final(self)@, k),
            match r {
                Completion::Pending => final(self)@.outcome is None,
                Completion::Ready(res) => final(self)@.outcome == Some(res),
            },
    {
        if self.stopped {
            let mut held: Option<Result<(), R::Error>> = None;
            std::mem::swap(&mut self.unreported, &mut held);
            self.reported = true;
            match held {
                Some(res) => Completion::Ready(res),
                None => {
                    proof {
                        assert(false);
                    }
                    Completion::Pending
                },
            }
        } else {
            let ghost start = self@;
            let done = self.run();
            let ghost k = choose|k: int| start.drains(self@, k);
            match done {
                Some(res) => {
                    self.reported = true;
                    proof {
                        assert(start.drains(self@, k));
                    }
                    Completion::Ready(res)
                },
                None => Completion::Pending,
            }
        }
    }

    /// Hands `action` to the mailbox. Where the mailbox is full the producer waits: the task
    /// runs until it parks, and the action is accepted then, unless the task stopped meanwhile.
    /// Success means that the action will be dispatched unless an earlier one fails, not that
    /// it has been.
    pub fn dispatch(&mut self, action: A) -> (r: Result<(), DispatchError>)
        requires
            old(self).wf(),
        ensures
            final(self).wf(),
            final(self)@.reported == old(self)@.reported,
            old(self)@.outcome is Some || old(self)@.closed ==> r == Err::<(), DispatchError>(
                DispatchError::Terminated,
            ) && final(self)@ == old(self)@,
            old(self)@.outcome is None && !old(self)@.closed && old(self)@.has_room() ==> r == Ok::<
                (),
                DispatchError,
            >(()) && final(self)@ == old(self)@.accept(action),
            old(self)@.outcome is None && !old(self)@.closed && !old(self)@.has_room() ==> exists|
                k: int,
                mid: TaskView<S, R, A>,
            |
                #![trigger old(self)@.drains(mid, k)]
                old(self)@.drains(mid, k) && if mid.outcome is Some {
                    r == Err::<(), DispatchError>(DispatchError::Terminated) && final(self)@ == mid
                } else {
                    r == Ok::<(), DispatchError>(()) && final(self)@ == mid.accept(action)
                },
    {
        if self.stopped || self.closed {
            return Err(DispatchError::Terminated);
        }
        if !(self.mailbox.len() < self.capacity || self.waiting) {
            let ghost start = self@;
            let done = self.run();
            let ghost mid = self@;
            let ghost k = choose|k: int| start.drains(mid, k);
            if let Some(res) = done {
                self.unreported = Some(res);
                proof {
                    assert(start.drains(mid, k));
                }
                return Err(DispatchError::Terminated);
            }
            proof {
                assert(start.drains(mid, k));
            }
        }
        let ghost a = action;
        self.mailbox.push_back(action);
        self.waiting = false;
        proof {
            self.accepted@ = self.accepted@.push(a);
            assert(self@.accepted =~= self@.processed + self@.dropped + self@.queue);
        }
        Ok(())
    }
}

impl<S, R: Reactor<S>> Store<S, R> {
    /// Turns the store into a task whose mailbox buffers up to `capacity` actions ahead of it;
    /// with no room at all, each action is handed straight to the waiting task.
    pub fn into_task<A>(self, capacity: usize) -> (r: Task<S, R, A>) where S: Reducer<A>
        ensures
            r.wf(),
            r@ == (TaskView::<S, R, A> {
                store: self,
                queue: Seq::empty(),
                capacity: capacity as nat,
                closed: false,
                waiting: false,
                outcome: None,
                reported: false,
                accepted: Seq::empty(),
                processed: Seq::empty(),
                dropped: Seq::empty(),
                history: seq![self],
                results: Seq::empty(),
            }),
    {
        let ghost initial: Seq<Store<S, R>> = seq![self];
        Task {
            store: self,
            mailbox: VecDeque::new(),
            capacity,
            closed: false,
            waiting: false,
            stopped: false,
            unreported: None,
            reported: false,
            accepted: Ghost(Seq::empty()),
            processed: Ghost(Seq::empty()),
            dropped: Ghost(Seq::empty()),
            history: Ghost(initial),
            results: Ghost(Seq::empty()),
            outcome: Ghost(None),
        }
    }
}

/// Actions reach the store one at a time in the order the mailbox accepted them, and the
/// states the reactor is told about are those of folding `reduce` over them from the state the
/// task started with: the `i`-th dispatched action is the `i`-th accepted one, the state after
/// it is one that reducing the state before it by that action may leave, and the reactor is
/// told about exactly that state.
pub proof fn lemma_ordering<S: Reducer<A>, R: Reactor<S>, A>(t: TaskView<S, R, A>)
    requires
        t.wf(),
    ensures
        t.processed.len() <= t.accepted.len(),
        forall|i: int| 0 <= i < t.processed.len() ==> #[trigger] t.processed[i] == t.accepted[i],
        forall|i: int|
            0 <= i < t.processed.len() ==> {
                &&& (#[trigger] t.history[i]).state_of().reduces(
                    t.processed[i],
                    t.history[i + 1].state_of(),
                )
                &&& t.history[i].reactor_of().reacts(
                    t.history[i + 1].state_of(),
                    t.history[i + 1].reactor_of(),
                    t.results[i],
                )
            },
        t.history.last() == t.store,
{
    assert forall|i: int| 0 <= i < t.processed.len() implies #[trigger] t.processed[i]
        == t.accepted[i] by {
        assert(t.accepted[i] == (t.processed + t.dropped + t.queue)[i]);
    }
    assert forall|i: int| 0 <= i < t.processed.len() implies {
        &&& (#[trigger] t.history[i]).state_of().reduces(
            t.processed[i],
            t.history[i + 1].state_of(),
        )
        &&& t.history[i].reactor_of().reacts(
            t.history[i + 1].state_of(),
            t.history[i + 1].reactor_of(),
            t.results[i],
        )
    } by {
        assert(t.history[i].steps(t.processed[i], t.history[i + 1], t.results[i]));
    }
}

/// A task that completed with `Ok` dispatched every action its mailbox ever accepted, each
/// successfully, and threw none away.
pub proof fn lemma_graceful_shutdown<S: Reducer<A>, R: Reactor<S>, A>(t: TaskView<S, R, A>)
    requires
        t.wf(),
        t.outcome == Some(Ok::<(), R::Error>(())),
    ensures
        t.closed,
        t.processed == t.accepted,
        t.dropped.len() == 0,
        t.queue.len() == 0,
        forall|i: int| 0 <= i < t.results.len() ==> (#[trigger] t.results[i]) is Ok,
{
    assert(t.accepted =~= t.processed);
    assert forall|i: int| 0 <= i < t.results.len() implies (#[trigger] t.results[i]) is Ok by {
        if t.results[i] is Err {
            assert(i == t.processed.len() - 1);
        }
    }
}

/// A task that failed with `e` stopped right after the action whose reaction failed: the store
/// holds that action's transition, every earlier action succeeded, and the actions accepted
/// after it were thrown away without ever reaching the store.
pub proof fn lemma_failure_drops_queue<S: Reducer<A>, R: Reactor<S>, A>(
    t: TaskView<S, R, A>,
    e: R::Error,
)
    requires
        t.wf(),
        t.outcome == Some(Err::<(), R::Error>(e)),
    ensures
        t.processed.len() >= 1,
        t.results.last() == Err::<(), R::Error>(e),
        t.history[t.processed.len() - 1].steps(t.processed.last(), t.store, Err(e)),
        forall|i: int| 0 <= i < t.processed.len() - 1 ==> (#[trigger] t.results[i]) is Ok,
        t.accepted == t.processed + t.dropped,
        t.queue.len() == 0,
{
    let n = t.processed.len() - 1;
    assert(t.history[n].steps(t.processed[n], t.history[n + 1], t.results[n]));
    assert(t.accepted =~= t.processed + t.dropped);
}

} // verus!
