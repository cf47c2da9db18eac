use reducer::{Arith, Completion, DispatchError, MockReducer, MockSubscriber, Store, Task};

fn failing<S>() -> MockSubscriber<S> {
    let mut reactor = MockSubscriber::default();
    reactor.set_result(Err);
    reactor
}

#[test]
fn actions_are_observed_in_send_order() {
    let store = Store::new(MockReducer::default(), MockSubscriber::default());
    let mut task: Task<_, _, u8> = store.into_task(4);
    for a in [3u8, 1, 2] {
        assert_eq!(task.dispatch(a), Ok(()));
    }
    task.close();
    assert!(matches!(task.poll(), Completion::Ready(Ok(()))));
    assert_eq!(
        task.store().reactor().states(),
        &vec![
            MockReducer::new(vec![3]),
            MockReducer::new(vec![3, 1]),
            MockReducer::new(vec![3, 1, 2])
        ]
    );
}

#[test]
fn graceful_shutdown_drains_the_mailbox() {
    let store = Store::new(MockReducer::default(), MockSubscriber::default());
    let mut task = store.into_task(3);
    assert_eq!(task.dispatch(1), Ok(()));
    assert_eq!(task.dispatch(2), Ok(()));
    assert_eq!(task.dispatch(3), Ok(()));
    assert_eq!(task.store().state(), &MockReducer::default());
    task.close();
    assert_eq!(task.dispatch(4), Err(DispatchError::Terminated));
    assert!(matches!(task.poll(), Completion::Ready(Ok(()))));
    assert_eq!(task.store().state(), &MockReducer::new(vec![1, 2, 3]));
}

#[test]
fn failure_drops_the_mailbox() {
    let store = Store::new(MockReducer::default(), failing());
    let mut task = store.into_task(2);
    assert_eq!(task.dispatch(1), Ok(()));
    assert_eq!(task.dispatch(2), Ok(()));
    assert!(matches!(task.poll(), Completion::Ready(Err(()))));
    assert_eq!(task.store().state(), &MockReducer::new(vec![1]));
    assert_eq!(task.dispatch(3), Err(DispatchError::Terminated));
    assert_eq!(task.store().state(), &MockReducer::new(vec![1]));
}

#[test]
fn rendezvous_hands_each_action_to_the_waiting_task() {
    let store = Store::new(MockReducer::default(), MockSubscriber::default());
    let mut task = store.into_task(0);
    assert_eq!(task.dispatch(1), Ok(()));
    assert_eq!(task.store().state(), &MockReducer::default());
    assert_eq!(task.dispatch(2), Ok(()));
    assert_eq!(task.store().state(), &MockReducer::new(vec![1]));
    assert!(matches!(task.poll(), Completion::Pending));
    assert_eq!(task.store().state(), &MockReducer::new(vec![1, 2]));
    task.close();
    assert!(matches!(task.poll(), Completion::Ready(Ok(()))));
}

#[test]
fn full_mailbox_makes_the_producer_wait() {
    let store = Store::new(0i32, MockSubscriber::default());
    let mut task = store.into_task(1);
    assert_eq!(task.dispatch(Arith::Add(5)), Ok(()));
    assert_eq!(task.dispatch(Arith::Mul(3)), Ok(()));
    assert_eq!(task.store().state(), &5);
    assert_eq!(task.dispatch(Arith::Sub(1)), Ok(()));
    assert_eq!(task.dispatch(Arith::Div(7)), Ok(()));
    task.close();
    assert!(matches!(task.poll(), Completion::Ready(Ok(()))));
    assert_eq!(task.store().reactor().states(), &vec![5, 15, 14, 2]);
}

#[test]
fn failure_while_producer_waits_is_reported_by_poll() {
    let store = Store::new(MockReducer::default(), failing());
    let mut task = store.into_task(0);
    assert_eq!(task.dispatch(1), Ok(()));
    assert_eq!(task.dispatch(2), Err(DispatchError::Terminated));
    assert!(matches!(task.poll(), Completion::Ready(Err(()))));
    assert_eq!(task.store().state(), &MockReducer::new(vec![1]));
}

#[test]
fn closing_an_idle_task_completes_it() {
    let store = Store::new(MockReducer::<u8>::default(), MockSubscriber::default());
    let mut task = store.into_task(0);
    assert!(matches!(task.poll(), Completion::Pending));
    task.close();
    assert!(matches!(task.poll(), Completion::Ready(Ok(()))));
    assert!(task.store().reactor().states().is_empty());
}
