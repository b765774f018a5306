use pollfut::Async;
use pollfut::Future;
use pollfut::primitives::AddSat;
use pollfut::primitives::Compose;
use pollfut::primitives::CountdownFuture;
use pollfut::primitives::CountingFuture;
use pollfut::primitives::DelayFactory;

#[test]
fn async_predicates() {
    let nr: Async<u64> = Async::NotReady;
    assert!(nr.is_not_ready());
    assert!(!nr.is_ready());
    let rd: Async<u64> = Async::Ready(3);
    assert!(rd.is_ready());
    assert!(!rd.is_not_ready());
}

#[test]
fn async_map_transforms_ready_only() {
    let rd: Async<u64> = Async::Ready(5);
    assert!(matches!(rd.map(AddSat { k: 2 }), Async::Ready(7)));
    let nr: Async<u64> = Async::NotReady;
    assert!(matches!(nr.map(AddSat { k: 2 }), Async::NotReady));
}

#[test]
fn countdown_resolves_after_exact_polls() {
    let mut f = CountdownFuture::new(3, 7u64);
    for _ in 0..3 {
        assert!(f.poll().is_not_ready());
    }
    assert!(matches!(f.poll(), Async::Ready(7)));
}

#[test]
fn map_applies_transform_on_resolution() {
    let f = CountdownFuture::new(2, 10u64).map(AddSat { k: 5 });
    assert_eq!(f.wait(), 15);
}

#[test]
fn map_functor_composition() {
    let g = AddSat { k: 1 };
    let h = AddSat { k: 2 };
    let left = CountdownFuture::new(2, 10u64).map(g).map(h).wait();
    let g2 = AddSat { k: 1 };
    let h2 = AddSat { k: 2 };
    let right = CountdownFuture::new(2, 10u64)
        .map(Compose { g: g2, h: h2 })
        .wait();
    assert_eq!(left, right);
    assert_eq!(left, 13);
}

#[test]
fn and_then_takes_exactly_k_plus_m_not_ready_polls() {
    // A resolves to 5 after 2 not-ready polls; the factory future takes 3.
    let mut c = CountdownFuture::new(2, 5u64).and_then(DelayFactory { delay: 3 });
    let mut not_ready = 0;
    let got = loop {
        match c.poll() {
            Async::NotReady => not_ready += 1,
            Async::Ready(v) => break v,
        }
    };
    assert_eq!(not_ready, 2 + 3);
    assert_eq!(got, 5);
}

#[test]
fn and_then_immediate_chain_resolves_first_poll() {
    let mut c = CountdownFuture::new(0, 9u64).and_then(DelayFactory { delay: 0 });
    assert!(matches!(c.poll(), Async::Ready(9)));
}

#[test]
fn join_waits_for_both_sides() {
    let mut j = CountdownFuture::new(1, 1u64).join(CountdownFuture::new(3, 2u64));
    let mut not_ready = 0;
    let got = loop {
        match j.poll() {
            Async::NotReady => not_ready += 1,
            Async::Ready(pair) => break pair,
        }
    };
    assert_eq!(not_ready, 3);
    assert_eq!(got, (1, 2));
}

#[test]
fn join_waits_for_both_sides_second_first() {
    let mut j = CountdownFuture::new(4, 1u64).join(CountdownFuture::new(0, 2u64));
    let mut not_ready = 0;
    let got = loop {
        match j.poll() {
            Async::NotReady => not_ready += 1,
            Async::Ready(pair) => break pair,
        }
    };
    assert_eq!(not_ready, 4);
    assert_eq!(got, (1, 2));
}

#[test]
fn join_both_ready_immediately() {
    let mut j = CountdownFuture::new(0, 1u64).join(CountdownFuture::new(0, 2u64));
    assert!(matches!(j.poll(), Async::Ready((1, 2))));
}

#[test]
fn select_tie_goes_to_first() {
    // Both sides ready on the very first poll: A must win and B must come
    // back untouched as the leftover.
    let mut s = CountdownFuture::new(0, 10u64).select(CountdownFuture::new(0, 20u64));
    match s.poll() {
        Async::Ready((winner, next)) => {
            assert_eq!(winner, 10);
            assert_eq!(next.wait(), 20);
        }
        Async::NotReady => panic!("select with both sides ready must resolve"),
    }
}

#[test]
fn select_second_wins_when_first_pending() {
    let mut s = CountdownFuture::new(5, 10u64).select(CountdownFuture::new(0, 20u64));
    match s.poll() {
        Async::Ready((winner, next)) => {
            assert_eq!(winner, 20);
            assert_eq!(next.wait(), 10);
        }
        Async::NotReady => panic!("select with one side ready must resolve"),
    }
}

#[test]
fn select_preserves_state_while_neither_ready() {
    let mut s = CountdownFuture::new(2, 10u64).select(CountdownFuture::new(3, 20u64));
    assert!(s.poll().is_not_ready());
    assert!(s.poll().is_not_ready());
    match s.poll() {
        Async::Ready((winner, next)) => {
            assert_eq!(winner, 10);
            assert_eq!(next.wait(), 20);
        }
        Async::NotReady => panic!("first side was due on the third poll"),
    }
}

#[test]
fn fuse_is_not_ready_forever_after_resolution() {
    let mut f = CountdownFuture::new(1, 9u64).fuse();
    assert!(f.poll().is_not_ready());
    assert!(matches!(f.poll(), Async::Ready(9)));
    for _ in 0..5 {
        assert!(f.poll().is_not_ready());
    }
}

#[test]
fn wait_returns_value_after_spinning() {
    assert_eq!(CountdownFuture::new(6, 11u64).wait(), 11);
}

#[test]
fn wait_performs_exactly_n_plus_one_polls() {
    // The counting future resolves to the number of times it was polled.
    assert_eq!(CountingFuture::new(4).wait(), 5);
    assert_eq!(CountingFuture::new(0).wait(), 1);
}
