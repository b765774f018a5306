use pollfut::Async;
use pollfut::InfiniteIterator;
use pollfut::infinite_stream::InfiniteStream;
use pollfut::infinite_stream::MergedItem;
use pollfut::primitives::AddSat;
use pollfut::primitives::Compose;
use pollfut::primitives::DelayFactory;
use pollfut::primitives::RepeatStream;
use pollfut::primitives::SliceStream;
use pollfut::stream::Stream;

#[test]
fn repeat_stream_is_periodic() {
    let mut s = RepeatStream::new(1, 42);
    assert!(s.poll().is_not_ready());
    assert!(matches!(s.poll(), Async::Ready(42)));
    assert!(s.poll().is_not_ready());
    assert!(matches!(s.poll(), Async::Ready(42)));
}

#[test]
fn stream_map_transforms_every_item() {
    let mut s = RepeatStream::new(0, 5).map(AddSat { k: 3 });
    assert!(matches!(s.poll(), Async::Ready(8)));
    assert!(matches!(s.poll(), Async::Ready(8)));
}

#[test]
fn stream_map_functor_composition() {
    let mut left = RepeatStream::new(0, 5)
        .map(AddSat { k: 1 })
        .map(AddSat { k: 2 });
    let mut right = RepeatStream::new(0, 5).map(Compose {
        g: AddSat { k: 1 },
        h: AddSat { k: 2 },
    });
    for _ in 0..3 {
        match (left.poll(), right.poll()) {
            (Async::Ready(a), Async::Ready(b)) => {
                assert_eq!(a, b);
                assert_eq!(a, 8);
            }
            _ => panic!("both sides are ready on every poll"),
        }
    }
}

#[test]
fn stream_and_then_drives_each_future_to_completion() {
    // Source emits 7 after one not-ready poll; each item's future takes two
    // more polls; the item's future starts on the emitting poll itself.
    let mut s = RepeatStream::new(1, 7).and_then(DelayFactory { delay: 2 });
    let mut not_ready = 0;
    let got = loop {
        match s.poll() {
            Async::NotReady => not_ready += 1,
            Async::Ready(v) => break v,
        }
    };
    assert_eq!(not_ready, 1 + 2);
    assert_eq!(got, 7);
    // The cycle repeats for the next item.
    let mut not_ready2 = 0;
    let got2 = loop {
        match s.poll() {
            Async::NotReady => not_ready2 += 1,
            Async::Ready(v) => break v,
        }
    };
    assert_eq!(not_ready2, 1 + 2);
    assert_eq!(got2, 7);
}

#[test]
fn merge_reports_single_sides() {
    // A is ready on every poll, B only every other one.
    let mut m = RepeatStream::new(0, 1).merge(RepeatStream::new(1, 2));
    assert!(matches!(m.poll(), Async::Ready(MergedItem::First(1))));
    assert!(matches!(m.poll(), Async::Ready(MergedItem::Both(1, 2))));
}

#[test]
fn merge_carries_both_items_on_simultaneous_readiness() {
    let mut m = RepeatStream::new(0, 1).merge(RepeatStream::new(0, 2));
    assert!(matches!(m.poll(), Async::Ready(MergedItem::Both(1, 2))));
}

#[test]
fn merge_not_ready_when_neither_side_is() {
    let mut m = RepeatStream::new(2, 1).merge(RepeatStream::new(3, 2));
    assert!(m.poll().is_not_ready());
    assert!(m.poll().is_not_ready());
    assert!(matches!(m.poll(), Async::Ready(MergedItem::First(1))));
}

#[test]
fn infinite_wait_pulls_items_synchronously() {
    let mut w = RepeatStream::new(2, 9).wait();
    assert_eq!(w.next(), 9);
    assert_eq!(w.next(), 9);
}

#[test]
fn slice_stream_yields_items_then_exhausts() {
    let mut s = SliceStream::new(vec![1, 2, 3]);
    assert!(matches!(s.poll(), Async::Ready(Some(1))));
    assert!(matches!(s.poll(), Async::Ready(Some(2))));
    assert!(matches!(s.poll(), Async::Ready(Some(3))));
    assert!(matches!(s.poll(), Async::Ready(None)));
    // This implementation keeps signalling exhaustion if polled again.
    assert!(matches!(s.poll(), Async::Ready(None)));
}

#[test]
fn stream_wait_iterates_to_exhaustion() {
    let mut w = SliceStream::new(vec![4, 5]).wait();
    assert_eq!(w.next(), Some(4));
    assert_eq!(w.next(), Some(5));
    assert_eq!(w.next(), None);
}

#[test]
fn empty_slice_stream_exhausts_immediately() {
    let mut w = SliceStream::new(vec![]).wait();
    assert_eq!(w.next(), None);
}
