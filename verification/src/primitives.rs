//! Ready-made pollable values and transforms.
//!
//! The combinators compose anything implementing the polling traits; these
//! small concrete implementations give drivers something to compose: a
//! future that resolves after a chosen number of polls, a future that
//! counts how often it was polled, a periodic stream, a stream over a fixed
//! sequence, and a few transforms.

use vstd::prelude::*;

use crate::Async;
use crate::Future;
use crate::Pollable;
use crate::Transform;
use crate::infinite_stream::InfiniteStream;
use crate::stream::Stream;

verus! {

/// A future that returns not-ready exactly `remaining` times and then
/// resolves to the held payload.
pub struct CountdownFuture<T> {
    pub remaining: u64,
    pub payload: Option<T>,
}

impl<T> CountdownFuture<T> {
    /// A fresh countdown: ready with `payload` after `remaining` not-ready
    /// polls.
    pub fn new(remaining: u64, payload: T) -> (r: CountdownFuture<T>)
        ensures
            r == (CountdownFuture { remaining, payload: Some(payload) }),
    {
        CountdownFuture { remaining, payload: Some(payload) }
    }
}

impl<T> Pollable for CountdownFuture<T> {
    type Item = T;
}

impl<T> Future for CountdownFuture<T> {
    open spec fn live(&self) -> bool {
        self.payload is Some
    }

    open spec fn ready_in(&self) -> Option<nat> {
        Some(self.remaining as nat)
    }

    open spec fn value(&self) -> T {
        self.payload->0
    }

    open spec fn step(&self) -> Self {
        if self.remaining > 0 {
            CountdownFuture { remaining: (self.remaining - 1) as u64, payload: self.payload }
        } else {
            CountdownFuture { remaining: 0, payload: None }
        }
    }

    proof fn step_ok(&self) {
        if self.remaining > 0 {
            assert(self.step() == (CountdownFuture {
                remaining: (self.remaining - 1) as u64,
                payload: self.payload,
            }));
            assert(self.step().ready_in() == Some((self.remaining - 1) as nat));
        }
    }

    fn poll(&mut self) -> (r: Async<T>) {
        proof {
            if self.remaining > 0 {
                assert(self.step() == (CountdownFuture {
                    remaining: (self.remaining - 1) as u64,
                    payload: self.payload,
                }));
            } else {
                assert(self.step() == (CountdownFuture::<T> { remaining: 0, payload: None }));
            }
        }
        if self.remaining > 0 {
            self.remaining = self.remaining - 1;
            Async::NotReady
        } else {
            let v = self.payload.take().unwrap();
            Async::Ready(v)
        }
    }
}

/// A future that resolves, after `remaining` not-ready polls, to the total
/// number of times it was polled; driving a fresh one to completion through
/// [`Future::wait`] therefore returns exactly `remaining + 1`.
pub struct CountingFuture {
    pub remaining: u64,
    pub polled: u64,
    pub done: bool,
}

impl CountingFuture {
    /// A fresh counter: ready after `remaining` not-ready polls.
    pub fn new(remaining: u64) -> (r: CountingFuture)
        requires
            remaining < u64::MAX,
        ensures
            r == (CountingFuture { remaining, polled: 0, done: false }),
    {
        CountingFuture { remaining, polled: 0, done: false }
    }
}

impl Pollable for CountingFuture {
    type Item = u64;
}

impl Future for CountingFuture {
    open spec fn live(&self) -> bool {
        !self.done && self.polled + self.remaining + 1 <= u64::MAX
    }

    open spec fn ready_in(&self) -> Option<nat> {
        Some(self.remaining as nat)
    }

    open spec fn value(&self) -> u64 {
        (self.polled + self.remaining + 1) as u64
    }

    open spec fn step(&self) -> Self {
        if self.remaining > 0 {
            CountingFuture {
                remaining: (self.remaining - 1) as u64,
                polled: (self.polled + 1) as u64,
                done: false,
            }
        } else {
            CountingFuture { remaining: 0, polled: (self.polled + 1) as u64, done: true }
        }
    }

    proof fn step_ok(&self) {
        if self.remaining > 0 {
            assert(self.step() == (CountingFuture {
                remaining: (self.remaining - 1) as u64,
                polled: (self.polled + 1) as u64,
                done: false,
            }));
            assert(self.step().ready_in() == Some((self.remaining - 1) as nat));
            assert(self.step().value() == self.value());
        }
    }

    fn poll(&mut self) -> (r: Async<u64>) {
        proof {
            if self.remaining > 0 {
                assert(self.step() == (CountingFuture {
                    remaining: (self.remaining - 1) as u64,
                    polled: (self.polled + 1) as u64,
                    done: false,
                }));
            } else {
                assert(self.step() == (CountingFuture {
                    remaining: 0,
                    polled: (self.polled + 1) as u64,
                    done: true,
                }));
            }
        }
        self.polled = self.polled + 1;
        if self.remaining > 0 {
            self.remaining = self.remaining - 1;
            Async::NotReady
        } else {
            self.done = true;
            Async::Ready(self.polled)
        }
    }
}

/// An infinite stream that emits the same item over and over, spending
/// `gap` not-ready polls before each emission; `left` counts down to the
/// next one.
pub struct RepeatStream {
    pub gap: u64,
    pub left: u64,
    pub item: u64,
}

impl RepeatStream {
    /// A periodic stream of `item`, first ready after `gap` not-ready polls.
    pub fn new(gap: u64, item: u64) -> (r: RepeatStream)
        ensures
            r == (RepeatStream { gap, left: gap, item }),
    {
        RepeatStream { gap, left: gap, item }
    }
}

impl InfiniteStream for RepeatStream {
    type Item = u64;

    open spec fn inv(&self) -> bool {
        true
    }

    open spec fn ready_in(&self) -> nat {
        self.left as nat
    }

    open spec fn head(&self) -> u64 {
        self.item
    }

    open spec fn step(&self) -> Self {
        if self.left > 0 {
            RepeatStream { gap: self.gap, left: (self.left - 1) as u64, item: self.item }
        } else {
            RepeatStream { gap: self.gap, left: self.gap, item: self.item }
        }
    }

    proof fn step_ok(&self) {
    }

    fn poll(&mut self) -> (r: Async<u64>) {
        if self.left > 0 {
            self.left = self.left - 1;
            Async::NotReady
        } else {
            self.left = self.gap;
            Async::Ready(self.item)
        }
    }
}

/// A terminating stream over a fixed sequence: ready on every poll, it
/// yields the items in order and then signals exhaustion; polling it after
/// that keeps signalling exhaustion (for this implementation, repolling
/// past the end is safe).
pub struct SliceStream {
    pub items: Vec<u64>,
    pub pos: usize,
}

impl SliceStream {
    /// A stream over `items`, starting at the first.
    pub fn new(items: Vec<u64>) -> (r: SliceStream)
        ensures
            r == (SliceStream { items, pos: 0 }),
    {
        SliceStream { items, pos: 0 }
    }
}

impl Stream for SliceStream {
    type Item = u64;

    open spec fn inv(&self) -> bool {
        self.pos <= self.items.len()
    }

    open spec fn ready_in(&self) -> Option<nat> {
        Some(0nat)
    }

    open spec fn head(&self) -> Option<u64> {
        if self.pos < self.items.len() {
            Some(self.items[self.pos as int])
        } else {
            None
        }
    }

    open spec fn step(&self) -> Self {
        if self.pos < self.items.len() {
            SliceStream { items: self.items, pos: (self.pos + 1) as usize }
        } else {
            SliceStream { items: self.items, pos: self.pos }
        }
    }

    proof fn step_ok(&self) {
    }

    fn poll(&mut self) -> (r: Async<Option<u64>>) {
        if self.pos < self.items.len() {
            let v = self.items[self.pos];
            self.pos = self.pos + 1;
            Async::Ready(Some(v))
        } else {
            Async::Ready(None)
        }
    }
}

/// Blocking-bridge law: a fresh counting future that resolves after `n`
/// not-ready polls resolves to `n + 1` — so [`Future::wait`], whose contract
/// returns the future's value, performs exactly `n + 1` poll calls on it.
pub proof fn lemma_wait_poll_count(n: u64)
    requires
        n < u64::MAX,
    ensures
        (CountingFuture { remaining: n, polled: 0, done: false }).live(),
        (CountingFuture { remaining: n, polled: 0, done: false }).ready_in() == Some(n as nat),
        (CountingFuture { remaining: n, polled: 0, done: false }).value() == n + 1,
{
}

/// Adds a constant, saturating at the largest value.
pub struct AddSat {
    pub k: u64,
}

impl Transform<u64> for AddSat {
    type Output = u64;

    open spec fn result(&self, t: u64) -> u64 {
        if t + self.k <= u64::MAX {
            (t + self.k) as u64
        } else {
            u64::MAX
        }
    }

    fn apply(&self, t: u64) -> (r: u64) {
        if t <= u64::MAX - self.k {
            t + self.k
        } else {
            u64::MAX
        }
    }
}

/// The composition of two transforms: first `g`, then `h`.
pub struct Compose<G, H> {
    pub g: G,
    pub h: H,
}

impl<T, G: Transform<T>, H: Transform<G::Output>> Transform<T> for Compose<G, H> {
    type Output = H::Output;

    open spec fn result(&self, t: T) -> H::Output {
        self.h.result(self.g.result(t))
    }

    fn apply(&self, t: T) -> (r: H::Output) {
        self.h.apply(self.g.apply(t))
    }
}

/// A future factory: turns an item into a [`CountdownFuture`] that resolves
/// to that item after `delay` not-ready polls.
pub struct DelayFactory {
    pub delay: u64,
}

impl Transform<u64> for DelayFactory {
    type Output = CountdownFuture<u64>;

    open spec fn result(&self, t: u64) -> CountdownFuture<u64> {
        CountdownFuture { remaining: self.delay, payload: Some(t) }
    }

    fn apply(&self, t: u64) -> (r: CountdownFuture<u64>) {
        CountdownFuture { remaining: self.delay, payload: Some(t) }
    }
}

} // verus!
