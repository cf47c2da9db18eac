use reducer::{MockSubscriber, Reactor};

fn react_through<R: Reactor<S>, S>(reactor: &mut R, state: &S) -> Result<(), R::Error> {
    reactor.react(state)
}

#[test]
fn mock_react() {
    let mut reactor = MockSubscriber::default();

    assert_eq!(reactor.react(&5), Ok(()));
    assert_eq!(reactor.react(&1), Ok(()));
    assert_eq!(reactor.react(&3), Ok(()));

    assert_eq!(reactor.states(), &vec![5, 1, 3]);
}

#[test]
fn mock_notify() {
    let mut sbc = MockSubscriber::default();
    assert!(sbc.react(&5).is_ok());

    sbc.set_result(Err);
    assert!(sbc.react(&1).is_err());

    sbc.set_result(Ok);
    assert!(sbc.react(&3).is_ok());

    assert_eq!(sbc, MockSubscriber::new(vec![5, 3]));
}

#[test]
fn mod_notify() {
    let mut mock = MockSubscriber::default();

    {
        let sbc = &mut mock;

        assert!(react_through(sbc, &5).is_ok());
        assert!(react_through(sbc, &1).is_ok());
        assert!(react_through(sbc, &3).is_ok());
    }

    assert_eq!(mock, MockSubscriber::new(vec![5, 1, 3]));
}

#[test]
fn some() {
    let mut sbc = Some(MockSubscriber::default());

    assert!(sbc.react(&5).is_ok());
    assert!(sbc.react(&1).is_ok());
    assert!(sbc.react(&3).is_ok());

    assert_eq!(sbc, Some(MockSubscriber::new(vec![5, 1, 3])));
}

#[test]
fn none() {
    let mut sbc: Option<MockSubscriber<_>> = None;

    assert!(sbc.react(&5).is_ok());
    assert!(sbc.react(&1).is_ok());
    assert!(sbc.react(&3).is_ok());

    assert_eq!(sbc, None);
}

#[test]
fn slice() {
    let mut sbc: Vec<MockSubscriber<_>> = vec![Default::default(), Default::default()];

    assert!(sbc.react(&5).is_ok());
    assert!(sbc.react(&1).is_ok());
    assert!(sbc.react(&3).is_ok());

    assert_eq!(
        sbc,
        [
            MockSubscriber::new(vec![5, 1, 3]),
            MockSubscriber::new(vec![5, 1, 3])
        ]
    );
}

#[test]
fn boxed_react() {
    let mut sbc = Box::new(MockSubscriber::default());
    assert!(sbc.react(&4).is_ok());
    assert_eq!(sbc.states(), &vec![4]);
}

#[test]
fn fan_out_stops_at_first_failure() {
    let mut failing = MockSubscriber::default();
    failing.set_result(Err);
    let mut sbc = vec![
        MockSubscriber::default(),
        MockSubscriber::default(),
        failing,
        MockSubscriber::default(),
        MockSubscriber::default(),
    ];

    assert_eq!(sbc.react(&9), Err(()));

    assert_eq!(sbc[0].states(), &vec![9]);
    assert_eq!(sbc[1].states(), &vec![9]);
    assert!(sbc[2].states().is_empty());
    assert!(sbc[3].states().is_empty());
    assert!(sbc[4].states().is_empty());
}

#[test]
fn empty_fan_out_succeeds() {
    let mut sbc: Vec<MockSubscriber<u8>> = vec![];
    assert_eq!(sbc.react(&1), Ok(()));
}
