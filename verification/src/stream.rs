//! Terminating asynchronous sequences.
//!
//! A [`Stream`] yields present items while the sequence continues and an
//! absent item exactly once to signal exhaustion.  What happens if it is
//! polled after that signal is each implementation's own contract; the
//! trait promises nothing about it either way.

use vstd::prelude::*;

use crate::Async;

verus! {

/// A value that yields items until exhaustion under repeated polling.
/// `head` being `None` means the next ready poll signals the end of the
/// sequence; the model stays silent about anything after that signal.
pub trait Stream: Sized {
    type Item;

    /// The implementation's well-formedness condition.
    spec fn inv(&self) -> bool;

    /// `Some(n)`: the next item (or the exhaustion signal) arrives on the
    /// `n+1`th poll; `None`: it never arrives.
    spec fn ready_in(&self) -> Option<nat>;

    /// The next thing this stream emits: an item, or `None` for exhaustion.
    spec fn head(&self) -> Option<Self::Item>;

    /// The state one poll moves this stream to.
    spec fn step(&self) -> Self;

    /// Coherence of the model: a step that emits nothing keeps the stream
    /// well formed and brings the next emission one poll closer without
    /// changing it; the step that emits a present item keeps the stream
    /// well formed too.  After the exhaustion signal nothing is promised.
    proof fn step_ok(&self)
        requires
            self.inv(),
        ensures
            (match self.ready_in() {
                Some(n) => n > 0 ==> self.step().inv() && self.step().ready_in() == Some(
                    (n - 1) as nat,
                ) && self.step().head() == self.head(),
                None => self.step().inv() && self.step().ready_in() is None,
            }),
            self.ready_in() == Some(0nat) && self.head() is Some ==> self.step().inv(),
    ;

    /// A single non-blocking attempt to produce the next item or the
    /// exhaustion signal.
    fn poll(&mut self) -> (r: Async<Option<Self::Item>>)
        requires
            old(self).inv(),
        ensures
            *final(self) == old(self).step(),
            old(self).ready_in() == Some(0nat) ==> r == Async::Ready(old(self).head()),
            old(self).ready_in() != Some(0nat) ==> r is NotReady,
    ;

    /// Adapts this stream into a blocking pull interface.
    fn wait(self) -> (r: Wait<Self>)
        ensures
            r == (Wait { stream: self }),
    {
        Wait { stream: self }
    }
}

/// The state a stream reaches after `n` polls that all return not-ready.
pub open spec fn stream_advance<S: Stream>(s: S, n: nat) -> S
    decreases n,
{
    if n == 0 {
        s
    } else {
        stream_advance(s.step(), (n - 1) as nat)
    }
}

/// One more not-ready poll on the far end of an advance is the same as one
/// more step after it.
proof fn lemma_stream_advance_step<S: Stream>(s: S, n: nat)
    ensures
        stream_advance(s, (n + 1) as nat) == stream_advance(s, n).step(),
    decreases n,
{
    if n == 0 {
        assert(stream_advance(s, 1nat) == stream_advance(s.step(), 0nat));
        assert(stream_advance(s.step(), 0nat) == s.step());
    } else {
        lemma_stream_advance_step(s.step(), (n - 1) as nat);
        assert(stream_advance(s, (n + 1) as nat) == stream_advance(s.step(), n));
        assert(stream_advance(s, n) == stream_advance(s.step(), (n - 1) as nat));
    }
}

/// Adapts a [`Stream`] into a synchronous pull interface by spin-polling
/// until each item (or the exhaustion signal, returned as `None`) arrives.
pub struct Wait<S> {
    pub stream: S,
}

impl<S: Stream> Wait<S> {
    /// Spin-polls the underlying stream until it produces its next item or
    /// signals exhaustion; `None` is the end of the sequence.
    pub fn next(&mut self) -> (r: Option<S::Item>)
        requires
            old(self).stream.inv(),
            old(self).stream.ready_in() is Some,
        ensures
            r == old(self).stream.head(),
            final (self).stream == stream_advance(
                old(self).stream,
                old(self).stream.ready_in()->0,
            ).step(),
            r is Some ==> final (self).stream.inv(),
    {
        let ghost mut skipped: nat = 0;
        loop
            invariant
                self.stream.inv(),
                self.stream.ready_in() is Some,
                self.stream.head() == old(self).stream.head(),
                skipped + self.stream.ready_in()->0 == old(self).stream.ready_in()->0,
                self.stream == stream_advance(old(self).stream, skipped),
            decreases self.stream.ready_in()->0,
        {
            proof {
                self.stream.step_ok();
                lemma_stream_advance_step(old(self).stream, skipped);
                skipped = skipped + 1;
            }
            match self.stream.poll() {
                Async::Ready(item) => {
                    return item;
                },
                Async::NotReady => {},
            }
        }
    }
}

} // verus!
