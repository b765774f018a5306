//! Unbounded asynchronous sequences and their combinators.
//!
//! An [`InfiniteStream`] yields items forever: a ready poll result never
//! signals exhaustion.  Its model mirrors the future model: `ready_in` gives
//! the number of not-ready polls before the next item (always finite: the
//! stream is productive by contract), `head` that item, and `step` the
//! successor state of one poll.

use vstd::prelude::*;

use crate::Async;
use crate::Future;
use crate::Transform;

verus! {

/// A value that yields an unbounded sequence of items under repeated
/// polling.  Unlike a [`Future`], producing an item is not terminal: the
/// stream remains pollable forever, so its well-formedness (`inv`) is kept
/// by every step, including the one that emits an item.
pub trait InfiniteStream: Sized {
    type Item;

    /// The implementation's well-formedness condition; every poll keeps it.
    spec fn inv(&self) -> bool;

    /// The number of not-ready polls before the next item is emitted.
    spec fn ready_in(&self) -> nat;

    /// The next item this stream emits.
    spec fn head(&self) -> Self::Item;

    /// The state one poll moves this stream to.
    spec fn step(&self) -> Self;

    /// Coherence of the model: every step keeps the stream well formed, and
    /// a step that emits nothing brings the next item one poll closer
    /// without changing it.
    proof fn step_ok(&self)
        requires
            self.inv(),
        ensures
            self.step().inv(),
            self.ready_in() > 0 ==> self.step().ready_in() == self.ready_in() - 1
                && self.step().head() == self.head(),
    ;

    /// A single non-blocking attempt to produce the next item.
    fn poll(&mut self) -> (r: Async<Self::Item>)
        requires
            old(self).inv(),
        ensures
            *final(self) == old(self).step(),
            old(self).ready_in() == 0 ==> r == Async::Ready(old(self).head()),
            old(self).ready_in() != 0 ==> r is NotReady,
    ;

    /// Wraps this stream so that every item is passed through `f`.
    fn map<F: Transform<Self::Item>>(self, f: F) -> (r: Mapped<Self, F>)
        ensures
            r == (Mapped { stream: self, f }),
    {
        Mapped { stream: self, f }
    }

    /// For each item of this stream, builds a future with `f`, drives it to
    /// completion, and yields its value; the source stream is not polled
    /// while such a future is in flight.
    fn and_then<B, F: Transform<Self::Item, Output = B>>(self, f: F) -> (r: AndThen<Self, F, B>)
        ensures
            r == (AndThen::<Self, F, B> { stream: self, f, future: None }),
    {
        AndThen { stream: self, f, future: None }
    }

    /// Combines this stream with `other`: each poll drives both sides once
    /// and yields whatever arrived, both items at once if both were ready.
    fn merge<S>(self, other: S) -> (r: Merge<Self, S>)
        ensures
            r == (Merge { a: self, b: other }),
    {
        Merge { a: self, b: other }
    }

    /// Adapts this stream into a blocking pull interface.
    fn wait(self) -> (r: InfiniteWait<Self>)
        ensures
            r == (InfiniteWait { stream: self }),
    {
        InfiniteWait { stream: self }
    }
}

/// Maps every item of a stream through a transform.  The transform is
/// reusable, so unlike a future's [`crate::Mapped`] there is no single-use
/// slot and no terminal state.
#[must_use]
pub struct Mapped<S, F> {
    pub stream: S,
    pub f: F,
}

impl<S: InfiniteStream, F: Transform<S::Item>> InfiniteStream for Mapped<S, F> {
    type Item = F::Output;

    open spec fn inv(&self) -> bool {
        self.stream.inv()
    }

    open spec fn ready_in(&self) -> nat {
        self.stream.ready_in()
    }

    open spec fn head(&self) -> F::Output {
        self.f.result(self.stream.head())
    }

    open spec fn step(&self) -> Self {
        Mapped { stream: self.stream.step(), f: self.f }
    }

    proof fn step_ok(&self) {
        self.stream.step_ok();
    }

    fn poll(&mut self) -> (r: Async<F::Output>) {
        match self.stream.poll() {
            Async::NotReady => Async::NotReady,
            Async::Ready(t) => Async::Ready(self.f.apply(t)),
        }
    }
}

/// Bridges a stream with a future factory: each source item is turned into
/// a future that is driven to completion before the source is polled again.
/// The in-flight future, if any, sits in the `future` slot.
#[must_use]
pub struct AndThen<S, F, B> {
    pub stream: S,
    pub f: F,
    pub future: Option<B>,
}

impl<S, F, B> InfiniteStream for AndThen<S, F, B> where
    S: InfiniteStream,
    F: Transform<S::Item, Output = B>,
    B: Future,
{
    type Item = B::Item;

    open spec fn inv(&self) -> bool {
        &&& self.stream.inv()
        &&& (self.future matches Some(b) ==> b.live() && b.ready_in() is Some)
        &&& (forall|t: S::Item|
            (#[trigger] self.f.result(t)).live() && self.f.result(t).ready_in() is Some)
    }

    open spec fn ready_in(&self) -> nat {
        match self.future {
            Some(b) => b.ready_in()->0,
            None => self.stream.ready_in() + self.f.result(self.stream.head()).ready_in()->0,
        }
    }

    open spec fn head(&self) -> B::Item {
        match self.future {
            Some(b) => b.value(),
            None => self.f.result(self.stream.head()).value(),
        }
    }

    open spec fn step(&self) -> Self {
        match self.future {
            Some(b) => if b.ready_in() == Some(0nat) {
                AndThen { stream: self.stream, f: self.f, future: None }
            } else {
                AndThen { stream: self.stream, f: self.f, future: Some(b.step()) }
            },
            None => if self.stream.ready_in() == 0 {
                let b = self.f.result(self.stream.head());
                if b.ready_in() == Some(0nat) {
                    AndThen { stream: self.stream.step(), f: self.f, future: None }
                } else {
                    AndThen { stream: self.stream.step(), f: self.f, future: Some(b.step()) }
                }
            } else {
                AndThen { stream: self.stream.step(), f: self.f, future: None }
            },
        }
    }

    proof fn step_ok(&self) {
        self.stream.step_ok();
        match self.future {
            Some(b) => {
                b.step_ok();
                match b.ready_in() {
                    Some(m) => {
                        if m > 0 {
                            assert(self.step() == (AndThen {
                                stream: self.stream,
                                f: self.f,
                                future: Some(b.step()),
                            }));
                            assert(self.step().ready_in() == m - 1);
                            assert(self.step().head() == self.head());
                        }
                    },
                    None => {},
                }
            },
            None => {
                let b = self.f.result(self.stream.head());
                b.step_ok();
                let k = self.stream.ready_in();
                let m = b.ready_in()->0;
                if k == 0 {
                    if m > 0 {
                        assert(self.step() == (AndThen {
                            stream: self.stream.step(),
                            f: self.f,
                            future: Some(b.step()),
                        }));
                        assert(self.step().ready_in() == m - 1);
                        assert(self.step().head() == self.head());
                    }
                } else {
                    assert(self.step() == (AndThen::<S, F, B> {
                        stream: self.stream.step(),
                        f: self.f,
                        future: None,
                    }));
                    assert(self.stream.step().head() == self.stream.head());
                    assert(self.step().ready_in() == (k - 1) + m);
                    assert(self.step().head() == self.head());
                }
            },
        }
    }

    fn poll(&mut self) -> (r: Async<B::Item>) {
        if self.future.is_none() {
            match self.stream.poll() {
                Async::NotReady => {
                    return Async::NotReady;
                },
                Async::Ready(t) => {
                    self.future = Some(self.f.apply(t));
                },
            }
        }
        let mut b = self.future.take().unwrap();
        match b.poll() {
            Async::NotReady => {
                self.future = Some(b);
                Async::NotReady
            },
            Async::Ready(v) => Async::Ready(v),
        }
    }
}

/// Combines two streams; each poll drives both sides once.  Simultaneous
/// readiness yields a combined item carrying both values: nothing is ever
/// dropped or deferred.
#[must_use]
pub struct Merge<A, B> {
    pub a: A,
    pub b: B,
}

/// One round of a [`Merge`]: an item from the first side, from the second,
/// or from both in the same poll.
pub enum MergedItem<A, B> {
    First(A),
    Second(B),
    Both(A, B),
}

impl<A: InfiniteStream, B: InfiniteStream> InfiniteStream for Merge<A, B> {
    type Item = MergedItem<A::Item, B::Item>;

    open spec fn inv(&self) -> bool {
        self.a.inv() && self.b.inv()
    }

    open spec fn ready_in(&self) -> nat {
        if self.a.ready_in() <= self.b.ready_in() {
            self.a.ready_in()
        } else {
            self.b.ready_in()
        }
    }

    open spec fn head(&self) -> MergedItem<A::Item, B::Item> {
        if self.a.ready_in() < self.b.ready_in() {
            MergedItem::First(self.a.head())
        } else if self.b.ready_in() < self.a.ready_in() {
            MergedItem::Second(self.b.head())
        } else {
            MergedItem::Both(self.a.head(), self.b.head())
        }
    }

    open spec fn step(&self) -> Self {
        Merge { a: self.a.step(), b: self.b.step() }
    }

    proof fn step_ok(&self) {
        self.a.step_ok();
        self.b.step_ok();
    }

    fn poll(&mut self) -> (r: Async<MergedItem<A::Item, B::Item>>) {
        let ra = self.a.poll();
        let rb = self.b.poll();
        match (ra, rb) {
            (Async::NotReady, Async::NotReady) => Async::NotReady,
            (Async::NotReady, Async::Ready(vb)) => Async::Ready(MergedItem::Second(vb)),
            (Async::Ready(va), Async::NotReady) => Async::Ready(MergedItem::First(va)),
            (Async::Ready(va), Async::Ready(vb)) => Async::Ready(MergedItem::Both(va, vb)),
        }
    }
}

/// The state a stream reaches after `n` polls that all return not-ready.
pub open spec fn stream_advance<S: InfiniteStream>(s: S, n: nat) -> S
    decreases n,
{
    if n == 0 {
        s
    } else {
        stream_advance(s.step(), (n - 1) as nat)
    }
}

/// One more not-ready poll on the far end of an advance is the same as one
/// more step after it.
proof fn lemma_stream_advance_step<S: InfiniteStream>(s: S, n: nat)
    ensures
        stream_advance(s, (n + 1) as nat) == stream_advance(s, n).step(),
    decreases n,
{
    if n == 0 {
        assert(stream_advance(s, 1nat) == stream_advance(s.step(), 0nat));
        assert(stream_advance(s.step(), 0nat) == s.step());
    } else {
        lemma_stream_advance_step(s.step(), (n - 1) as nat);
        assert(stream_advance(s, (n + 1) as nat) == stream_advance(s.step(), n));
        assert(stream_advance(s, n) == stream_advance(s.step(), (n - 1) as nat));
    }
}

/// Functor law for streams: mapping with `g` and then with `h` is the same
/// stream as mapping once with any transform `c` that acts as their
/// composition — same well-formedness, same schedule, same items.
pub proof fn lemma_stream_map_fusion<S, G, H, C>(s: S, g: G, h: H, c: C) where
    S: InfiniteStream,
    G: Transform<S::Item>,
    H: Transform<G::Output>,
    C: Transform<S::Item, Output = H::Output>,

    requires
        forall|t: S::Item| #[trigger] c.result(t) == h.result(g.result(t)),
    ensures
        (Mapped { stream: Mapped { stream: s, f: g }, f: h }).inv() == (Mapped {
            stream: s,
            f: c,
        }).inv(),
        (Mapped { stream: Mapped { stream: s, f: g }, f: h }).ready_in() == (Mapped {
            stream: s,
            f: c,
        }).ready_in(),
        (Mapped { stream: Mapped { stream: s, f: g }, f: h }).head() == (Mapped {
            stream: s,
            f: c,
        }).head(),
{
}

/// Merge completeness: when both sides are ready on the same poll, the
/// merged stream is ready on that poll too and its item carries both
/// values — neither side is dropped or deferred.
pub proof fn lemma_merge_both<A: InfiniteStream, B: InfiniteStream>(a: A, b: B)
    requires
        a.ready_in() == b.ready_in(),
    ensures
        (Merge { a, b }).ready_in() == a.ready_in(),
        (Merge { a, b }).head() == MergedItem::Both(a.head(), b.head()),
{
}

/// Adapts an [`InfiniteStream`] into a synchronous pull interface by
/// spin-polling until each item arrives.
pub struct InfiniteWait<S> {
    pub stream: S,
}

impl<S: InfiniteStream> crate::InfiniteIterator for InfiniteWait<S> {
    type Item = S::Item;

    open spec fn inv(&self) -> bool {
        self.stream.inv()
    }

    open spec fn next_ensures(pre: Self, post: Self, r: S::Item) -> bool {
        &&& r == pre.stream.head()
        &&& post.stream == stream_advance(pre.stream, pre.stream.ready_in()).step()
    }

    fn next(&mut self) -> (r: S::Item) {
        let ghost mut skipped: nat = 0;
        loop
            invariant
                self.stream.inv(),
                self.stream.head() == old(self).stream.head(),
                skipped + self.stream.ready_in() == old(self).stream.ready_in(),
                self.stream == stream_advance(old(self).stream, skipped),
            decreases self.stream.ready_in(),
        {
            proof {
                self.stream.step_ok();
                lemma_stream_advance_step(old(self).stream, skipped);
                skipped = skipped + 1;
            }
            match self.stream.poll() {
                Async::Ready(item) => {
                    return item;
                },
                Async::NotReady => {},
            }
        }
    }
}

} // verus!
