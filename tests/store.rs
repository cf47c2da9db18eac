use reducer::{Arith, Dispatcher, MockReducer, MockSubscriber, Reducer, Store};

#[test]
fn store_default() {
    let store = Store::<MockReducer<()>, MockSubscriber<MockReducer<()>>>::default();

    assert_eq!(store.state(), &MockReducer::default());
    assert_eq!(store.reactor(), &MockSubscriber::default());
}

#[test]
fn store_new() {
    let state = MockReducer::new(vec![42]);
    let reactor = MockSubscriber::<MockReducer<i32>>::default();
    let store = Store::new(state.clone(), reactor.clone());

    assert_eq!(store.state(), &state);
    assert_eq!(store.reactor(), &reactor);
}

#[test]
fn store_clone() {
    let store = Store::new(MockReducer::<()>::default(), MockSubscriber::<MockReducer<()>>::default());
    assert_eq!(store, store.clone());
}

#[test]
fn store_dispatch() {
    let mut store = Store::<MockReducer<_>, MockSubscriber<_>>::default();

    assert_eq!(store.dispatch(5), Ok(()));
    assert_eq!(store.reactor().states().last(), Some(&MockReducer::new(vec![5])));

    assert_eq!(store.dispatch(1), Ok(()));
    assert_eq!(store.reactor().states().last(), Some(&MockReducer::new(vec![5, 1])));

    assert_eq!(store.dispatch(3), Ok(()));
    assert_eq!(store.reactor().states().last(), Some(&MockReducer::new(vec![5, 1, 3])));
}

#[test]
fn store_subscribe() {
    let mut store: Store<_, Option<MockSubscriber<_>>> = Store::new(MockReducer::default(), None);

    assert_eq!(store.dispatch(0), Ok(()));

    store.subscribe(Some(MockSubscriber::default()));

    assert_eq!(store.dispatch(5), Ok(()));
    assert_eq!(
        store.reactor().as_ref().unwrap().states(),
        &vec![MockReducer::new(vec![0, 5])]
    );

    assert_eq!(store.dispatch(1), Ok(()));
    assert_eq!(store.dispatch(3), Ok(()));
    assert_eq!(
        store.reactor().as_ref().unwrap().states(),
        &vec![
            MockReducer::new(vec![0, 5]),
            MockReducer::new(vec![0, 5, 1]),
            MockReducer::new(vec![0, 5, 1, 3])
        ]
    );
}

#[test]
fn subscribe_returns_previous_reactor() {
    let mut store = Store::new(0i32, MockSubscriber::new(vec![7]));
    let old = store.subscribe(MockSubscriber::default());
    assert_eq!(old, MockSubscriber::new(vec![7]));
    assert_eq!(store.reactor(), &MockSubscriber::default());
    assert_eq!(store.state(), &0);
}

#[test]
fn dispatch_reduces_even_when_reactor_fails() {
    let mut reactor = MockSubscriber::default();
    reactor.set_result(Err);
    let mut store = Store::new(MockReducer::default(), reactor);
    assert_eq!(store.dispatch(4), Err(()));
    assert_eq!(store.state(), &MockReducer::new(vec![4]));
    assert!(store.reactor().states().is_empty());
}

#[test]
fn dispatch_through_trait() {
    let mut store = Store::new(1i32, MockSubscriber::default());
    assert_eq!(Dispatcher::dispatch(&mut store, Arith::Mul(6)), Ok(()));
    assert_eq!(store.reactor().states(), &vec![6]);
}

#[test]
fn round_trip_matches_reduce_then_react() {
    let mut store = Store::new(10i32, MockSubscriber::default());
    assert_eq!(store.dispatch(Arith::Sub(4)), Ok(()));

    let mut state = 10i32;
    state.reduce(Arith::Sub(4));
    let mut direct = MockSubscriber::default();
    assert_eq!(reducer::Reactor::react(&mut direct, &state), Ok(()));

    assert_eq!(store.reactor(), &direct);
    assert_eq!(store.state(), &state);
}

#[test]
fn example_arith_sequence() {
    let mut store = Store::new(0i32, MockSubscriber::default());
    for a in [Arith::Add(5), Arith::Mul(3), Arith::Sub(1), Arith::Div(7)] {
        assert_eq!(store.dispatch(a), Ok(()));
    }
    assert_eq!(store.reactor().states(), &vec![5, 15, 14, 2]);
    let (state, reactor) = store.into_parts();
    assert_eq!(state, 2);
    assert_eq!(reactor.states().len(), 4);
}
