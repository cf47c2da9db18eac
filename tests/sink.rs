use futures::channel::mpsc::channel;
use reducer::{TryReactor, Reactor};

#[test]
fn try_reactor_passes_states_on() {
    let (tx, mut rx) = channel(4);
    let mut reactor = TryReactor(tx);
    assert!(reactor.react(&5).is_ok());
    assert!(reactor.react(&1).is_ok());
    assert_eq!(rx.try_next().unwrap(), Some(5));
    assert_eq!(rx.try_next().unwrap(), Some(1));
}

#[test]
fn try_reactor_never_waits_on_a_full_channel() {
    let (tx, mut rx) = channel(0);
    let mut reactor = TryReactor(tx);
    assert!(reactor.react(&5).is_ok());
    let err = reactor.react(&1).unwrap_err();
    assert!(err.is_full());
    assert_eq!(err.into_inner(), 1);
    assert_eq!(rx.try_next().unwrap(), Some(5));
    assert!(reactor.react(&1).is_ok());
    assert_eq!(rx.try_next().unwrap(), Some(1));
}

#[test]
fn try_reactor_fails_without_receiver() {
    let (tx, rx) = channel::<i32>(4);
    drop(rx);
    let mut reactor = TryReactor(tx);
    let err = reactor.react(&5).unwrap_err();
    assert!(err.is_disconnected());
    assert_eq!(err.into_inner(), 5);
}
