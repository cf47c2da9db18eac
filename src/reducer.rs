use std::rc::Rc;
use std::sync::Arc;
use vstd::prelude::*;

verus! {

/// The logical state of an application, seen as a state machine whose edges are actions.
///
/// `reduce` must have no side effects and must never fail: an illegal transition is best
/// handled by leaving the state unchanged.
pub trait Reducer<A>: Sized {
    /// Holds when `next` is a state that reducing `self` by `action` may leave.
    spec fn reduces(self, action: A, next: Self) -> bool;

    /// Applies `action` to the state.
    fn reduce(&mut self, action: A)
        ensures
            old(self).reduces(action, *final(self)),
    ;
}

/// A reducer that only remembers, in order, the actions it was given.
#[derive(Debug, PartialEq, Eq)]
pub struct MockReducer<A> {
    actions: Vec<A>,
}

impl<A> View for MockReducer<A> {
    type V = Seq<A>;

    closed spec fn view(&self) -> Seq<A> {
        self.actions@
    }
}

impl<A> MockReducer<A> {
    /// A mock that has already seen `actions`.
    pub fn new(actions: Vec<A>) -> (r: Self)
        ensures
            r@ == actions@,
    {
        MockReducer { actions }
    }

    /// The actions seen so far, oldest first.
    pub fn actions(&self) -> (r: &Vec<A>)
        ensures
            r@ == self@,
    {
        &self.actions
    }
}

impl<A: Clone> Clone for MockReducer<A> {
    /// A mock that has seen a clone of each action this one has seen.
    fn clone(&self) -> (r: Self)
        ensures
            r@.len() == self@.len(),
            forall|i: int| 0 <= i < self@.len() ==> cloned(self@[i], #[trigger] r@[i]),
    {
        MockReducer { actions: self.actions.clone() }
    }
}

impl<A> Default for MockReducer<A> {
    fn default() -> (r: Self)
        ensures
            r@ == Seq::<A>::empty(),
    {
        MockReducer { actions: Vec::new() }
    }
}

impl<A> Reducer<A> for MockReducer<A> {
    open spec fn reduces(self, action: A, next: Self) -> bool {
        next@ == self@.push(action)
    }

    fn reduce(&mut self, action: A) {
        self.actions.push(action);
        proof {
            assert(self.actions@ == old(self).actions@.push(action));
        }
    }
}

/// A boxed state reduces as the state inside it.
impl<A, T: Reducer<A>> Reducer<A> for Box<T> {
    open spec fn reduces(self, action: A, next: Self) -> bool {
        (*self).reduces(action, *next)
    }

    fn reduce(&mut self, action: A) {
        (**self).reduce(action);
    }
}

/// Holds when `next` is a state that reducing `cur` by some clone of `action` may leave.
pub open spec fn reduces_by_clone<A: Clone, T: Reducer<A>>(cur: T, action: A, next: T) -> bool {
    exists|c: A| #[trigger] cur.reduces(c, next) && cloned(action, c)
}

/// Holds when the states `next` are the states `cur`, each reduced by a clone of `action`.
pub open spec fn all_reduce<A: Clone, T: Reducer<A>>(cur: Seq<T>, action: A, next: Seq<T>) -> bool {
    &&& next.len() == cur.len()
    &&& forall|i: int|
        0 <= i < cur.len() ==> #[trigger] reduces_by_clone(cur[i], action, next[i])
}

/// A sequence of independent states; every action is broadcast to each of them, first to last.
impl<A: Clone, T: Reducer<A>> Reducer<A> for Vec<T> {
    open spec fn reduces(self, action: A, next: Self) -> bool {
        all_reduce(self@, action, next@)
    }

    fn reduce(&mut self, action: A) {
        let n = self.len();
        let mut i: usize = 0;
        while i < n
            invariant
                n == old(self)@.len(),
                self@.len() == n,
                i <= n,
                all_reduce(old(self)@.take(i as int), action, self@.take(i as int)),
                forall|j: int| i <= j < n ==> self@[j] == old(self)@[j],
            decreases n - i,
        {
            let c = action.clone();
            let ghost gc = c;
            let ghost pre = self@;
            self[i].reduce(c);
            proof {
                assert(cloned(action, gc));
                assert(pre[i as int].reduces(gc, self@[i as int]));
                assert(reduces_by_clone(old(self)@[i as int], action, self@[i as int]));
                assert forall|j: int| 0 <= j < i + 1 implies #[trigger] reduces_by_clone(
                    old(self)@.take(i + 1)[j],
                    action,
                    self@.take(i + 1)[j],
                ) by {
                    if j < i {
                        assert(old(self)@.take(i as int)[j] == old(self)@.take(i + 1)[j]);
                        assert(pre.take(i as int)[j] == self@.take(i + 1)[j]);
                    }
                }
            }
            i = i + 1;
        }
        proof {
            assert(old(self)@.take(n as int) == old(self)@);
            assert(self@.take(n as int) == self@);
        }
    }
}

/// Holds when `next` is a state that reducing some clone of `cur` by `action` may leave.
pub open spec fn reduces_from_clone<A, T: Reducer<A> + Clone>(cur: T, action: A, next: T) -> bool {
    exists|c: T| #[trigger] c.reduces(action, next) && cloned(cur, c)
}

/// Relies on `Rc::make_mut`: it hands out the value itself when this pointer is its only owner,
/// and otherwise first clones it into an allocation that this pointer alone then owns.
#[verifier::external_body]
fn rc_make_mut<T: Clone>(rc: &mut Rc<T>) -> (r: &mut T)
    ensures
        cloned(**old(rc), *r),
        **final(rc) == *final(r),
{
    Rc::make_mut(rc)
}

/// Relies on `Arc::make_mut`: it hands out the value itself when this pointer is its only
/// owner, and otherwise first clones it into an allocation that this pointer alone then owns.
#[verifier::external_body]
fn arc_make_mut<T: Clone>(arc: &mut Arc<T>) -> (r: &mut T)
    ensures
        cloned(**old(arc), *r),
        **final(arc) == *final(r),
{
    Arc::make_mut(arc)
}

/// Copy-on-write state: reduced in place while this pointer is its sole owner, and reduced
/// on a fresh clone while snapshots of it are shared.
impl<A, T: Reducer<A> + Clone> Reducer<A> for Rc<T> {
    open spec fn reduces(self, action: A, next: Self) -> bool {
        reduces_from_clone(*self, action, *next)
    }

    fn reduce(&mut self, action: A) {
        let state = rc_make_mut(self);
        state.reduce(action);
    }
}

/// Copy-on-write state that may be shared across threads: reduced in place while this
/// pointer is its sole owner, and reduced on a fresh clone while snapshots of it are shared.
impl<A, T: Reducer<A> + Clone> Reducer<A> for Arc<T> {
    open spec fn reduces(self, action: A, next: Self) -> bool {
        reduces_from_clone(*self, action, *next)
    }

    fn reduce(&mut self, action: A) {
        let state = arc_make_mut(self);
        state.reduce(action);
    }
}

} // verus!
