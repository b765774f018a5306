//! A cooperative-polling algebra of asynchronous values.
//!
//! A [`Future`] resolves exactly once, an [`infinite_stream::InfiniteStream`]
//! yields items forever, and a [`stream::Stream`] yields items until it
//! signals exhaustion.  Every computation is driven by repeated calls to a
//! single non-blocking `poll` operation; each combinator is a small state
//! machine that owns its inner computations and advances them on each call.
//!
//! The behaviour of every pollable value is captured by four spec functions:
//! whether it may still be polled (`live`), how many not-ready polls remain
//! before it produces a value (`ready_in`), which value that is (`value`),
//! and the state it moves to on one poll (`step`).  `poll`'s contract pins
//! the result and the successor state exactly in these terms.

use vstd::prelude::*;

pub mod infinite_stream;
pub mod primitives;
pub mod stream;

verus! {

/// The result of a single poll attempt: the computation has either not
/// produced a value yet, or it is ready with one.
pub enum Async<T> {
    NotReady,
    Ready(T),
}

impl<T> Async<T> {
    /// True exactly when this poll result carries no value.
    pub fn is_not_ready(&self) -> (r: bool)
        ensures
            r == (self is NotReady),
    {
        match *self {
            Async::NotReady => true,
            _ => false,
        }
    }

    /// True exactly when this poll result carries a value.
    pub fn is_ready(&self) -> (r: bool)
        ensures
            r == (self is Ready),
    {
        !self.is_not_ready()
    }

    /// Transforms the contained value when ready; propagates not-ready
    /// untouched.
    pub fn map<F: Transform<T>>(self, f: F) -> (r: Async<F::Output>)
        ensures
            self is NotReady ==> r is NotReady,
            self matches Async::Ready(t) ==> r == Async::Ready(f.result(t)),
    {
        match self {
            Async::NotReady => Async::NotReady,
            Async::Ready(t) => Async::Ready(f.apply(t)),
        }
    }
}

/// A deterministic transformation of values, the shape this library uses
/// wherever the caller supplies a function: `result` says in spec what the
/// transformation returns, and `apply` computes exactly that.
pub trait Transform<T>: Sized {
    type Output;

    /// The value `apply` returns on input `t`.
    spec fn result(&self, t: T) -> Self::Output;

    fn apply(&self, t: T) -> (r: Self::Output)
        ensures
            r == self.result(t),
    ;
}

/// The base capability of everything this library polls: it names the type
/// of value the computation produces.
pub trait Pollable: Sized {
    type Item;
}

/// A value that resolves exactly once under repeated polling.
///
/// The spec functions form the mathematical model of the state machine:
/// `live` says the protocol still allows a poll, `ready_in` gives the number
/// of not-ready polls left before resolution (`None`: it never resolves),
/// `value` the value it resolves to, and `step` the successor state of one
/// poll.  `poll` is non-blocking and follows the model exactly; `step_ok`
/// is the coherence obligation every implementation proves: a not-ready
/// step keeps the state pollable and preserves the pending value.
pub trait Future: Pollable {
    /// The protocol still allows a poll from this state.
    spec fn live(&self) -> bool;

    /// `Some(n)`: the value arrives on the `n+1`th poll from this state;
    /// `None`: it never arrives.
    spec fn ready_in(&self) -> Option<nat>;

    /// The value this future resolves to (meaningful while `ready_in` is
    /// `Some`).
    spec fn value(&self) -> Self::Item;

    /// The state one poll moves this future to.
    spec fn step(&self) -> Self;

    /// Coherence of the model: stepping a live, still-pending state keeps it
    /// live, brings resolution one poll closer, and preserves the value; a
    /// never-ready state stays live and never-ready.
    proof fn step_ok(&self)
        requires
            self.live(),
        ensures
            (match self.ready_in() {
                Some(n) => n > 0 ==> self.step().live() && self.step().ready_in() == Some(
                    (n - 1) as nat,
                ) && self.step().value() == self.value(),
                None => self.step().live() && self.step().ready_in() is None,
            }),
    ;

    /// A single non-blocking attempt to resolve.  Polling a state the
    /// protocol has closed (`!live()`) is a caller error and is excluded
    /// here rather than detected at run time.
    fn poll(&mut self) -> (r: Async<Self::Item>)
        requires
            old(self).live(),
        ensures
            *final(self) == old(self).step(),
            old(self).ready_in() == Some(0nat) ==> r == Async::Ready(old(self).value()),
            old(self).ready_in() != Some(0nat) ==> r is NotReady,
    ;

    /// Wraps this future so that its resolved value is passed through `f`.
    fn map<F: Transform<Self::Item>>(self, f: F) -> (r: Mapped<Self, F>)
        ensures
            r == (Mapped { future: self, f: Some(f) }),
    {
        Mapped { future: self, f: Some(f) }
    }

    /// Sequences this future with a factory that turns its value into a
    /// second future; the composite resolves to the second future's value,
    /// and polling it never spends a call idling between the two.
    fn and_then<B, F: Transform<Self::Item, Output = B>>(self, f: F) -> (r: AndThen<Self, B, F>)
        ensures
            r matches AndThen::First(a, g) && a == self && g == f,
    {
        AndThen::First(self, f)
    }

    /// Runs this future and `other` to mutual completion, resolving to the
    /// pair of their values.
    fn join<B: Pollable>(self, other: B) -> (r: Join<Self, B>)
        ensures
            r == Join::BothRunning(self, other),
    {
        Join::BothRunning(self, other)
    }

    /// Races this future against `other`; ties go to `self`, and the loser
    /// is handed back still pending.
    fn select<B: Pollable<Item = Self::Item>>(self, other: B) -> (r: Select<Self, B>)
        ensures
            r == (Select { state: Some((self, other)) }),
    {
        Select { state: Some((self, other)) }
    }

    /// Wraps this future so that polling after resolution is safe: it then
    /// returns not-ready forever instead of being a protocol violation.
    fn fuse(self) -> (r: Fuse<Self>)
        ensures
            r == (Fuse { future: Some(self) }),
    {
        Fuse { future: Some(self) }
    }

    /// Blocks by spin-polling until the value arrives, then returns it.
    /// A future that resolves after `n` not-ready polls is polled exactly
    /// `n + 1` times here.
    fn wait(self) -> (r: Self::Item)
        requires
            self.live(),
            self.ready_in() is Some,
        ensures
            r == self.value(),
    {
        let ghost orig = self;
        let mut fut = self;
        loop
            invariant
                orig == self,
                fut.live(),
                fut.ready_in() is Some,
                fut.value() == orig.value(),
            decreases fut.ready_in()->0,
        {
            proof {
                fut.step_ok();
            }
            match fut.poll() {
                Async::Ready(item) => {
                    return item;
                },
                Async::NotReady => {},
            }
        }
    }
}

/// Maps a future's resolved value through a single-use transform.  After it
/// resolves, the transform slot is empty and the state is terminal.
#[must_use]
pub struct Mapped<A, F> {
    pub future: A,
    pub f: Option<F>,
}

impl<A: Future, F: Transform<A::Item>> Pollable for Mapped<A, F> {
    type Item = F::Output;
}

impl<A: Future, F: Transform<A::Item>> Future for Mapped<A, F> {
    open spec fn live(&self) -> bool {
        self.future.live() && self.f is Some
    }

    open spec fn ready_in(&self) -> Option<nat> {
        self.future.ready_in()
    }

    open spec fn value(&self) -> F::Output {
        self.f->0.result(self.future.value())
    }

    open spec fn step(&self) -> Self {
        if self.future.ready_in() == Some(0nat) {
            Mapped { future: self.future.step(), f: None }
        } else {
            Mapped { future: self.future.step(), f: self.f }
        }
    }

    proof fn step_ok(&self) {
        self.future.step_ok();
        match self.ready_in() {
            Some(n) => {
                if n > 0 {
                    assert(self.step() == (Mapped { future: self.future.step(), f: self.f }));
                    assert(self.step().ready_in() == Some((n - 1) as nat));
                    assert(self.step().value() == self.value());
                }
            },
            None => {
                assert(self.step().live());
            },
        }
    }

    fn poll(&mut self) -> (r: Async<F::Output>) {
        match self.future.poll() {
            Async::NotReady => Async::NotReady,
            Async::Ready(t) => {
                let f = self.f.take().unwrap();
                Async::Ready(f.apply(t))
            },
        }
    }
}

/// The state a future reaches after `n` polls that all return not-ready.
pub open spec fn advance<A: Future>(a: A, n: nat) -> A
    decreases n,
{
    if n == 0 {
        a
    } else {
        advance(a.step(), (n - 1) as nat)
    }
}

/// Advancing a live future by at most its remaining not-ready polls keeps it
/// live and preserves its value; a never-ready future stays live and
/// never-ready under any number of polls.
pub proof fn lemma_advance<A: Future>(a: A, n: nat)
    requires
        a.live(),
        match a.ready_in() {
            Some(k) => n <= k,
            None => true,
        },
    ensures
        advance(a, n).live(),
        a.ready_in() matches Some(k) ==> advance(a, n).ready_in() == Some((k - n) as nat)
            && advance(a, n).value() == a.value(),
        a.ready_in() is None ==> advance(a, n).ready_in() is None,
    decreases n,
{
    if n > 0 {
        a.step_ok();
        lemma_advance(a.step(), (n - 1) as nat);
    }
}

/// Functor law: mapping a future with `g` and then with `h` is the same
/// computation as mapping it once with any transform `c` that acts as their
/// composition — same protocol state, same schedule, same resolved value.
pub proof fn lemma_map_fusion<A, G, H, C>(a: A, g: G, h: H, c: C) where
    A: Future,
    G: Transform<A::Item>,
    H: Transform<G::Output>,
    C: Transform<A::Item, Output = H::Output>,

    requires
        forall|t: A::Item| #[trigger] c.result(t) == h.result(g.result(t)),
    ensures
        (Mapped { future: Mapped { future: a, f: Some(g) }, f: Some(h) }).live() == (Mapped {
            future: a,
            f: Some(c),
        }).live(),
        (Mapped { future: Mapped { future: a, f: Some(g) }, f: Some(h) }).ready_in() == (Mapped {
            future: a,
            f: Some(c),
        }).ready_in(),
        (Mapped { future: Mapped { future: a, f: Some(g) }, f: Some(h) }).value() == (Mapped {
            future: a,
            f: Some(c),
        }).value(),
{
}

/// Sequencing law: `a.and_then(f)` resolves after exactly `k + m` not-ready
/// polls — `k` for `a` itself and `m` for the future the factory builds
/// from `a`'s value — to that future's value.  No poll is spent idling
/// between the two stages.
pub proof fn lemma_and_then_schedule<A, B, F>(a: A, f: F) where
    A: Future,
    B: Future,
    F: Transform<A::Item, Output = B>,

    requires
        a.ready_in() is Some,
        f.result(a.value()).ready_in() is Some,
    ensures
        AndThen::<A, B, F>::First(a, f).ready_in() == Some(
            (a.ready_in()->0 + f.result(a.value()).ready_in()->0) as nat,
        ),
        AndThen::<A, B, F>::First(a, f).value() == f.result(a.value()).value(),
{
}

/// Join completeness: from the both-running state the pair resolves after
/// exactly the later of the two sides, to the pair of both values — never
/// before both sides have resolved.
pub proof fn lemma_join_schedule<A: Future, B: Future>(a: A, b: B)
    requires
        a.ready_in() is Some,
        b.ready_in() is Some,
    ensures
        Join::<A, B>::BothRunning(a, b).ready_in() == Some(
            (if a.ready_in()->0 >= b.ready_in()->0 {
                a.ready_in()->0
            } else {
                b.ready_in()->0
            }),
        ),
        Join::<A, B>::BothRunning(a, b).value() == (a.value(), b.value()),
{
}

/// Join keeps a resolved side intact: once one side has resolved, its value
/// is retained as-is and only the still-pending side is driven by further
/// polls — the resolved side is never re-constructed or polled again.
pub proof fn lemma_join_holds_resolved_side<A: Future, B: Future>(
    va: A::Item,
    b: B,
    vb: B::Item,
    a: A,
)
    ensures
        Join::<A, B>::FirstDone(va, b).value() == (va, b.value()),
        b.ready_in() != Some(0nat) ==> Join::<A, B>::FirstDone(va, b).step() == Join::<
            A,
            B,
        >::FirstDone(va, b.step()),
        Join::<A, B>::SecondDone(a, vb).value() == (a.value(), vb),
        a.ready_in() != Some(0nat) ==> Join::<A, B>::SecondDone(a, vb).step() == Join::<
            A,
            B,
        >::SecondDone(a.step(), vb),
{
}

/// Select tie-break determinism: when the first future is ready on the very
/// first poll, the race resolves immediately with its value, and the second
/// future is handed back untouched inside the [`SelectNext`].
pub proof fn lemma_select_tie_break<A, B>(a: A, b: B) where
    A: Future,
    B: Future + Pollable<Item = A::Item>,

    requires
        a.ready_in() == Some(0nat),
    ensures
        (Select { state: Some((a, b)) }).ready_in() == Some(0nat),
        (Select { state: Some((a, b)) }).value() == (a.value(), SelectNext::<A, B>::B(b)),
{
    assert(advance(b, 0nat) == b);
}

/// Terminal-state fatality: a combinator that has yielded its final value is
/// dead — its protocol state is no longer live, so the contract of `poll`
/// refuses every further call.  `Fuse` is the one exception (see
/// [`lemma_fuse_after_resolution`]).
pub proof fn lemma_terminal_dead<A, B, F, G>(
    m: Mapped<A, F>,
    t: AndThen<A, B, G>,
    j: Join<A, B>,
    s: Select<A, B>,
    x: SelectNext<A, B>,
) where
    A: Future,
    B: Future + Pollable<Item = A::Item>,
    F: Transform<A::Item>,
    G: Transform<A::Item, Output = B>,

    requires
        m.f is None,
        t is Done,
        j is Done,
        s.state is None,
        x is Done,
    ensures
        !m.live(),
        !t.live(),
        !j.live(),
        !s.live(),
        !x.live(),
{
}

/// Fuse idempotence: the poll on which the inner future resolves empties the
/// slot, and the emptied fuse stays live forever, never ready again and
/// unchanged by every further poll.
pub proof fn lemma_fuse_after_resolution<A: Future>(g: Fuse<A>)
    requires
        g.live(),
        g.ready_in() == Some(0nat),
    ensures
        g.step() == (Fuse::<A> { future: None }),
        g.step().live(),
        g.step().ready_in() is None,
        g.step().step() == g.step(),
{
}

/// Sequences future `A` with a factory producing future `B`: first drives
/// `A`; on its resolution immediately builds `B` and falls through to
/// polling it in the same call, so no poll is spent idling between the two.
#[must_use]
pub enum AndThen<A, B, F> {
    First(A, F),
    Second(B),
    Done,
}

impl<A, B, F> Pollable for AndThen<A, B, F> where
    A: Future,
    B: Future,
    F: Transform<A::Item, Output = B>,
{
    type Item = B::Item;
}

impl<A, B, F> Future for AndThen<A, B, F> where
    A: Future,
    B: Future,
    F: Transform<A::Item, Output = B>,
{
    open spec fn live(&self) -> bool {
        match self {
            AndThen::First(a, f) => a.live() && (a.ready_in() is Some ==> f.result(
                a.value(),
            ).live()),
            AndThen::Second(b) => b.live(),
            AndThen::Done => false,
        }
    }

    open spec fn ready_in(&self) -> Option<nat> {
        match self {
            AndThen::First(a, f) => match (a.ready_in(), f.result(a.value()).ready_in()) {
                (Some(k), Some(m)) => Some((k + m) as nat),
                _ => None,
            },
            AndThen::Second(b) => b.ready_in(),
            AndThen::Done => None,
        }
    }

    open spec fn value(&self) -> B::Item {
        match self {
            AndThen::First(a, f) => f.result(a.value()).value(),
            AndThen::Second(b) => b.value(),
            AndThen::Done => vstd::pervasive::arbitrary(),
        }
    }

    open spec fn step(&self) -> Self {
        match self {
            AndThen::First(a, f) => if a.ready_in() == Some(0nat) {
                let b = f.result(a.value());
                if b.ready_in() == Some(0nat) {
                    AndThen::Done
                } else {
                    AndThen::Second(b.step())
                }
            } else {
                AndThen::First(a.step(), *f)
            },
            AndThen::Second(b) => if b.ready_in() == Some(0nat) {
                AndThen::Done
            } else {
                AndThen::Second(b.step())
            },
            AndThen::Done => AndThen::Done,
        }
    }

    proof fn step_ok(&self) {
        match self {
            AndThen::First(a, f) => {
                a.step_ok();
                let b = f.result(a.value());
                if a.ready_in() == Some(0nat) {
                    b.step_ok();
                    match b.ready_in() {
                        Some(m) => {
                            if m > 0 {
                                assert(self.step() == AndThen::<A, B, F>::Second(b.step()));
                                assert(self.step().ready_in() == Some((m - 1) as nat));
                                assert(self.step().value() == self.value());
                                assert(self.step().live());
                            }
                        },
                        None => {
                            assert(self.step() == AndThen::<A, B, F>::Second(b.step()));
                            assert(self.step().ready_in() is None);
                            assert(self.step().live());
                        },
                    }
                } else {
                    assert(self.step() == AndThen::<A, B, F>::First(a.step(), *f));
                    match a.ready_in() {
                        Some(k) => {
                            assert(k > 0);
                            assert(a.step().ready_in() == Some((k - 1) as nat));
                            assert(a.step().value() == a.value());
                            assert(self.step().live());
                            match b.ready_in() {
                                Some(m) => {
                                    assert(self.ready_in() == Some((k + m) as nat));
                                    assert(self.step().ready_in() == Some((k + m - 1) as nat));
                                    assert(self.step().value() == self.value());
                                },
                                None => {
                                    assert(self.ready_in() is None);
                                    assert(self.step().ready_in() is None);
                                },
                            }
                        },
                        None => {
                            assert(a.step().ready_in() is None);
                            assert(self.step().ready_in() is None);
                            assert(self.step().live());
                        },
                    }
                }
            },
            AndThen::Second(b) => {
                b.step_ok();
                match b.ready_in() {
                    Some(m) => {
                        if m > 0 {
                            assert(self.step() == AndThen::<A, B, F>::Second(b.step()));
                            assert(self.step().ready_in() == Some((m - 1) as nat));
                            assert(self.step().value() == self.value());
                        }
                    },
                    None => {
                        assert(self.step() == AndThen::<A, B, F>::Second(b.step()));
                        assert(self.step().ready_in() is None);
                    },
                }
            },
            AndThen::Done => {},
        }
    }

    fn poll(&mut self) -> (r: Async<B::Item>) {
        let mut state = AndThen::Done;
        core::mem::swap(self, &mut state);
        let mut b = match state {
            AndThen::First(mut a, f) => {
                match a.poll() {
                    Async::NotReady => {
                        *self = AndThen::First(a, f);
                        return Async::NotReady;
                    },
                    Async::Ready(t) => f.apply(t),
                }
            },
            AndThen::Second(b) => b,
            AndThen::Done => {
                proof {
                    assert(false);
                }
                vstd::pervasive::unreached()
            },
        };
        match b.poll() {
            Async::NotReady => {
                *self = AndThen::Second(b);
                Async::NotReady
            },
            Async::Ready(c) => Async::Ready(c),
        }
    }
}

/// Runs two futures to mutual completion, resolving to the pair of their
/// values.  While both run, each poll drives both sides; once one side has
/// resolved, its value is retained and only the pending side is polled.
#[must_use]
pub enum Join<A, B> where A: Pollable, B: Pollable {
    BothRunning(A, B),
    Done,
    FirstDone(A::Item, B),
    SecondDone(A, B::Item),
}

impl<A, B> Pollable for Join<A, B> where A: Future, B: Future {
    type Item = (A::Item, B::Item);
}

impl<A, B> Future for Join<A, B> where A: Future, B: Future {
    open spec fn live(&self) -> bool {
        match self {
            Join::BothRunning(a, b) => a.live() && b.live(),
            Join::Done => false,
            Join::FirstDone(_, b) => b.live(),
            Join::SecondDone(a, _) => a.live(),
        }
    }

    open spec fn ready_in(&self) -> Option<nat> {
        match self {
            Join::BothRunning(a, b) => match (a.ready_in(), b.ready_in()) {
                (Some(k), Some(m)) => if k >= m {
                    Some(k)
                } else {
                    Some(m)
                },
                _ => None,
            },
            Join::Done => None,
            Join::FirstDone(_, b) => b.ready_in(),
            Join::SecondDone(a, _) => a.ready_in(),
        }
    }

    open spec fn value(&self) -> (A::Item, B::Item) {
        match self {
            Join::BothRunning(a, b) => (a.value(), b.value()),
            Join::Done => vstd::pervasive::arbitrary(),
            Join::FirstDone(va, b) => (*va, b.value()),
            Join::SecondDone(a, vb) => (a.value(), *vb),
        }
    }

    open spec fn step(&self) -> Self {
        match self {
            Join::BothRunning(a, b) => {
                if a.ready_in() == Some(0nat) && b.ready_in() == Some(0nat) {
                    Join::Done
                } else if a.ready_in() == Some(0nat) {
                    Join::FirstDone(a.value(), b.step())
                } else if b.ready_in() == Some(0nat) {
                    Join::SecondDone(a.step(), b.value())
                } else {
                    Join::BothRunning(a.step(), b.step())
                }
            },
            Join::Done => Join::Done,
            Join::FirstDone(va, b) => if b.ready_in() == Some(0nat) {
                Join::Done
            } else {
                Join::FirstDone(*va, b.step())
            },
            Join::SecondDone(a, vb) => if a.ready_in() == Some(0nat) {
                Join::Done
            } else {
                Join::SecondDone(a.step(), *vb)
            },
        }
    }

    proof fn step_ok(&self) {
        match self {
            Join::BothRunning(a, b) => {
                a.step_ok();
                b.step_ok();
                match (a.ready_in(), b.ready_in()) {
                    (Some(k), Some(m)) => {
                        if k == 0 && m > 0 {
                            assert(self.step() == Join::<A, B>::FirstDone(a.value(), b.step()));
                            assert(self.step().ready_in() == Some((m - 1) as nat));
                            assert(self.step().value() == self.value());
                        } else if k > 0 && m == 0 {
                            assert(self.step() == Join::<A, B>::SecondDone(a.step(), b.value()));
                            assert(self.step().ready_in() == Some((k - 1) as nat));
                            assert(self.step().value() == self.value());
                        } else if k > 0 && m > 0 {
                            assert(self.step() == Join::<A, B>::BothRunning(a.step(), b.step()));
                            assert(self.step().value() == self.value());
                        }
                    },
                    (Some(k), None) => {
                        if k == 0 {
                            assert(self.step() == Join::<A, B>::FirstDone(a.value(), b.step()));
                        } else {
                            assert(self.step() == Join::<A, B>::BothRunning(a.step(), b.step()));
                        }
                        assert(self.step().ready_in() is None);
                        assert(self.step().live());
                    },
                    (None, Some(m)) => {
                        if m == 0 {
                            assert(self.step() == Join::<A, B>::SecondDone(a.step(), b.value()));
                        } else {
                            assert(self.step() == Join::<A, B>::BothRunning(a.step(), b.step()));
                        }
                        assert(self.step().ready_in() is None);
                        assert(self.step().live());
                    },
                    (None, None) => {
                        assert(self.step() == Join::<A, B>::BothRunning(a.step(), b.step()));
                        assert(self.step().ready_in() is None);
                        assert(self.step().live());
                    },
                }
            },
            Join::Done => {},
            Join::FirstDone(va, b) => {
                b.step_ok();
                match b.ready_in() {
                    Some(m) => {
                        if m > 0 {
                            assert(self.step() == Join::<A, B>::FirstDone(*va, b.step()));
                            assert(self.step().ready_in() == Some((m - 1) as nat));
                            assert(self.step().value() == self.value());
                        }
                    },
                    None => {
                        assert(self.step() == Join::<A, B>::FirstDone(*va, b.step()));
                        assert(self.step().ready_in() is None);
                    },
                }
            },
            Join::SecondDone(a, vb) => {
                a.step_ok();
                match a.ready_in() {
                    Some(k) => {
                        if k > 0 {
                            assert(self.step() == Join::<A, B>::SecondDone(a.step(), *vb));
                            assert(self.step().ready_in() == Some((k - 1) as nat));
                            assert(self.step().value() == self.value());
                        }
                    },
                    None => {
                        assert(self.step() == Join::<A, B>::SecondDone(a.step(), *vb));
                        assert(self.step().ready_in() is None);
                    },
                }
            },
        }
    }

    fn poll(&mut self) -> (r: Async<(A::Item, B::Item)>) {
        let mut state = Join::Done;
        core::mem::swap(self, &mut state);
        match state {
            Join::BothRunning(mut a, mut b) => {
                match (a.poll(), b.poll()) {
                    (Async::NotReady, Async::NotReady) => {
                        *self = Join::BothRunning(a, b);
                        Async::NotReady
                    },
                    (Async::NotReady, Async::Ready(vb)) => {
                        *self = Join::SecondDone(a, vb);
                        Async::NotReady
                    },
                    (Async::Ready(va), Async::NotReady) => {
                        *self = Join::FirstDone(va, b);
                        Async::NotReady
                    },
                    (Async::Ready(va), Async::Ready(vb)) => Async::Ready((va, vb)),
                }
            },
            Join::Done => {
                proof {
                    assert(false);
                }
                vstd::pervasive::unreached()
            },
            Join::FirstDone(va, mut b) => {
                match b.poll() {
                    Async::NotReady => {
                        *self = Join::FirstDone(va, b);
                        Async::NotReady
                    },
                    Async::Ready(vb) => Async::Ready((va, vb)),
                }
            },
            Join::SecondDone(mut a, vb) => {
                match a.poll() {
                    Async::NotReady => {
                        *self = Join::SecondDone(a, vb);
                        Async::NotReady
                    },
                    Async::Ready(va) => Async::Ready((va, vb)),
                }
            },
        }
    }
}

/// Races two same-typed futures.  Each poll tries `A` first; if `A` is ready
/// it wins outright and `B` is not polled that call.  The result pairs the
/// winner's value with a [`SelectNext`] owning the loser, still pending.
#[must_use]
pub struct Select<A, B> {
    pub state: Option<(A, B)>,
}

impl<A, B> Select<A, B> where A: Future, B: Future + Pollable<Item = A::Item> {
    /// The tie-break rule: `A` wins whenever it is ready no later than `B`.
    pub open spec fn a_wins(&self) -> bool {
        match self.state {
            Some((a, b)) => match (a.ready_in(), b.ready_in()) {
                (Some(k), Some(m)) => k <= m,
                (Some(_), None) => true,
                _ => false,
            },
            None => false,
        }
    }
}

impl<A, B> Pollable for Select<A, B> where A: Future, B: Future + Pollable<Item = A::Item> {
    type Item = (A::Item, SelectNext<A, B>);
}

impl<A, B> Future for Select<A, B> where A: Future, B: Future + Pollable<Item = A::Item> {
    open spec fn live(&self) -> bool {
        self.state matches Some((a, b)) && a.live() && b.live()
    }

    open spec fn ready_in(&self) -> Option<nat> {
        match self.state {
            Some((a, b)) => match (a.ready_in(), b.ready_in()) {
                (Some(k), Some(m)) => if k <= m {
                    Some(k)
                } else {
                    Some(m)
                },
                (Some(k), None) => Some(k),
                (None, Some(m)) => Some(m),
                (None, None) => None,
            },
            None => None,
        }
    }

    open spec fn value(&self) -> (A::Item, SelectNext<A, B>) {
        match self.state {
            Some((a, b)) => if self.a_wins() {
                (a.value(), SelectNext::B(advance(b, a.ready_in()->0)))
            } else {
                (b.value(), SelectNext::A(advance(a, (b.ready_in()->0 + 1) as nat)))
            },
            None => vstd::pervasive::arbitrary(),
        }
    }

    open spec fn step(&self) -> Self {
        match self.state {
            Some((a, b)) => if a.ready_in() == Some(0nat) || b.ready_in() == Some(0nat) {
                Select { state: None }
            } else {
                Select { state: Some((a.step(), b.step())) }
            },
            None => Select { state: None },
        }
    }

    proof fn step_ok(&self) {
        match self.state {
            Some((a, b)) => {
                a.step_ok();
                b.step_ok();
                match (a.ready_in(), b.ready_in()) {
                    (Some(k), Some(m)) => {
                        if k > 0 && m > 0 {
                            assert(self.step() == (Select { state: Some((a.step(), b.step())) }));
                            if k <= m {
                                assert(advance(b, k) == advance(b.step(), (k - 1) as nat));
                                assert(self.step().value() == self.value());
                            } else {
                                assert(advance(a, (m + 1) as nat) == advance(
                                    a.step(),
                                    m as nat,
                                ));
                                assert(self.step().value() == self.value());
                            }
                            assert(self.step().ready_in() == Some(
                                ((if k <= m { k } else { m }) - 1) as nat,
                            ));
                        }
                    },
                    (Some(k), None) => {
                        if k > 0 {
                            assert(self.step() == (Select { state: Some((a.step(), b.step())) }));
                            assert(advance(b, k) == advance(b.step(), (k - 1) as nat));
                            assert(self.step().ready_in() == Some((k - 1) as nat));
                            assert(self.step().value() == self.value());
                        }
                    },
                    (None, Some(m)) => {
                        if m > 0 {
                            assert(self.step() == (Select { state: Some((a.step(), b.step())) }));
                            assert(advance(a, (m + 1) as nat) == advance(a.step(), m as nat));
                            assert(self.step().ready_in() == Some((m - 1) as nat));
                            assert(self.step().value() == self.value());
                        }
                    },
                    (None, None) => {
                        assert(self.step() == (Select { state: Some((a.step(), b.step())) }));
                        assert(self.step().ready_in() is None);
                        assert(self.step().live());
                    },
                }
            },
            None => {},
        }
    }

    fn poll(&mut self) -> (r: Async<(A::Item, SelectNext<A, B>)>) {
        match self.state.take() {
            Some((mut a, mut b)) => {
                match a.poll() {
                    Async::Ready(va) => {
                        proof {
                            let (a0, b0) = old(self).state->0;
                            assert(advance(b0, 0nat) == b0);
                        }
                        Async::Ready((va, SelectNext::B(b)))
                    },
                    Async::NotReady => {
                        match b.poll() {
                            Async::Ready(vb) => {
                                proof {
                                    let (a0, b0) = old(self).state->0;
                                    assert(advance(a0, 1nat) == advance(a0.step(), 0nat));
                                    assert(advance(a0.step(), 0nat) == a0.step());
                                }
                                Async::Ready((vb, SelectNext::A(a)))
                            },
                            Async::NotReady => {
                                self.state = Some((a, b));
                                Async::NotReady
                            },
                        }
                    },
                }
            },
            None => {
                proof {
                    assert(false);
                }
                vstd::pervasive::unreached()
            },
        }
    }
}

/// The leftover half of a race: owns whichever future lost a [`Select`] and
/// drives it to its own completion.
pub enum SelectNext<A, B> {
    A(A),
    B(B),
    Done,
}

impl<A, B> Pollable for SelectNext<A, B> where A: Future, B: Future + Pollable<Item = A::Item> {
    type Item = A::Item;
}

impl<A, B> Future for SelectNext<A, B> where A: Future, B: Future + Pollable<Item = A::Item> {
    open spec fn live(&self) -> bool {
        match self {
            SelectNext::A(a) => a.live(),
            SelectNext::B(b) => b.live(),
            SelectNext::Done => false,
        }
    }

    open spec fn ready_in(&self) -> Option<nat> {
        match self {
            SelectNext::A(a) => a.ready_in(),
            SelectNext::B(b) => b.ready_in(),
            SelectNext::Done => None,
        }
    }

    open spec fn value(&self) -> A::Item {
        match self {
            SelectNext::A(a) => a.value(),
            SelectNext::B(b) => b.value(),
            SelectNext::Done => vstd::pervasive::arbitrary(),
        }
    }

    open spec fn step(&self) -> Self {
        match self {
            SelectNext::A(a) => if a.ready_in() == Some(0nat) {
                SelectNext::Done
            } else {
                SelectNext::A(a.step())
            },
            SelectNext::B(b) => if b.ready_in() == Some(0nat) {
                SelectNext::Done
            } else {
                SelectNext::B(b.step())
            },
            SelectNext::Done => SelectNext::Done,
        }
    }

    proof fn step_ok(&self) {
        match self {
            SelectNext::A(a) => {
                a.step_ok();
                match a.ready_in() {
                    Some(k) => {
                        if k > 0 {
                            assert(self.step() == SelectNext::<A, B>::A(a.step()));
                            assert(self.step().ready_in() == Some((k - 1) as nat));
                            assert(self.step().value() == self.value());
                        }
                    },
                    None => {
                        assert(self.step() == SelectNext::<A, B>::A(a.step()));
                        assert(self.step().ready_in() is None);
                    },
                }
            },
            SelectNext::B(b) => {
                b.step_ok();
                match b.ready_in() {
                    Some(m) => {
                        if m > 0 {
                            assert(self.step() == SelectNext::<A, B>::B(b.step()));
                            assert(self.step().ready_in() == Some((m - 1) as nat));
                            assert(self.step().value() == self.value());
                        }
                    },
                    None => {
                        assert(self.step() == SelectNext::<A, B>::B(b.step()));
                        assert(self.step().ready_in() is None);
                    },
                }
            },
            SelectNext::Done => {},
        }
    }

    fn poll(&mut self) -> (r: Async<A::Item>) {
        let mut state = SelectNext::Done;
        core::mem::swap(self, &mut state);
        match state {
            SelectNext::A(mut a) => {
                match a.poll() {
                    Async::NotReady => {
                        *self = SelectNext::A(a);
                        Async::NotReady
                    },
                    Async::Ready(v) => Async::Ready(v),
                }
            },
            SelectNext::B(mut b) => {
                match b.poll() {
                    Async::NotReady => {
                        *self = SelectNext::B(b);
                        Async::NotReady
                    },
                    Async::Ready(v) => Async::Ready(v),
                }
            },
            SelectNext::Done => {
                proof {
                    assert(false);
                }
                vstd::pervasive::unreached()
            },
        }
    }
}

/// Makes polling after resolution safe: the inner future sits in a slot that
/// is cleared on resolution, and every later poll returns not-ready forever.
#[must_use]
pub struct Fuse<A> {
    pub future: Option<A>,
}

impl<A: Future> Pollable for Fuse<A> {
    type Item = A::Item;
}

impl<A: Future> Future for Fuse<A> {
    open spec fn live(&self) -> bool {
        match self.future {
            Some(a) => a.live(),
            None => true,
        }
    }

    open spec fn ready_in(&self) -> Option<nat> {
        match self.future {
            Some(a) => a.ready_in(),
            None => None,
        }
    }

    open spec fn value(&self) -> A::Item {
        match self.future {
            Some(a) => a.value(),
            None => vstd::pervasive::arbitrary(),
        }
    }

    open spec fn step(&self) -> Self {
        match self.future {
            Some(a) => if a.ready_in() == Some(0nat) {
                Fuse { future: None }
            } else {
                Fuse { future: Some(a.step()) }
            },
            None => Fuse { future: None },
        }
    }

    proof fn step_ok(&self) {
        match self.future {
            Some(a) => {
                a.step_ok();
                match a.ready_in() {
                    Some(k) => {
                        if k > 0 {
                            assert(self.step() == (Fuse { future: Some(a.step()) }));
                            assert(self.step().ready_in() == Some((k - 1) as nat));
                            assert(self.step().value() == self.value());
                        }
                    },
                    None => {
                        assert(self.step() == (Fuse { future: Some(a.step()) }));
                        assert(self.step().ready_in() is None);
                    },
                }
            },
            None => {
                assert(self.step() == (Fuse::<A> { future: None }));
            },
        }
    }

    fn poll(&mut self) -> (r: Async<A::Item>) {
        match self.future.take() {
            Some(mut a) => {
                match a.poll() {
                    Async::Ready(v) => Async::Ready(v),
                    Async::NotReady => {
                        self.future = Some(a);
                        Async::NotReady
                    },
                }
            },
            None => Async::NotReady,
        }
    }
}

/// A synchronous source that always has a next item; the pull-side analogue
/// of an [`infinite_stream::InfiniteStream`].  `next_ensures` is each
/// implementation's own statement of what `next` returns and how the state
/// moves.
pub trait InfiniteIterator: Sized {
    type Item;

    /// The implementation's well-formedness condition.
    spec fn inv(&self) -> bool;

    /// The relation `next` establishes between the state before the call,
    /// the state after it, and the item returned.
    spec fn next_ensures(pre: Self, post: Self, r: Self::Item) -> bool;

    fn next(&mut self) -> (r: Self::Item)
        requires
            old(self).inv(),
        ensures
            final (self).inv(),
            Self::next_ensures(*old(self), *final (self), r),
    ;
}

} // verus!
