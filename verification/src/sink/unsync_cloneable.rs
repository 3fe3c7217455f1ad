use crate::poll::{Async, AsyncSink};
use crate::sink::cloneable::{release_of, Shared};
use vstd::prelude::*;

verus! {

/// One write handle of a shared sink, for use within one thread.
pub struct UnsyncCloneable {
    closed: bool,
}

/// The count for a freshly wrapped sink, and its first write handle.
pub fn unsync_cloneable() -> (wrapped: (Shared, UnsyncCloneable))
    ensures
        wrapped.0@ == 1,
        !wrapped.1.is_closed(),
{
    (Shared::new(), UnsyncCloneable { closed: false })
}

impl UnsyncCloneable {
    /// Whether this handle has been closed.
    pub closed spec fn is_closed(&self) -> bool {
        self.closed
    }

    /// Whether this handle has been closed.
    pub fn closed(&self) -> (closed: bool)
        ensures
            closed == self.is_closed(),
    {
        self.closed
    }

    /// Offers `msg` to the underlying sink, through `sink`, and hands back
    /// what it answered, unchanged.
    pub fn start_send<T, E, S: FnOnce(T) -> Result<AsyncSink<T>, E>>(&mut self, msg: T, sink: S) -> (out:
        Result<AsyncSink<T>, E>)
        requires
            !old(self).is_closed(),
            call_requires(sink, (msg,)),
        ensures
            call_ensures(sink, (msg,), out),
            !final(self).is_closed(),
    {
        sink(msg)
    }

    /// Flushes the underlying sink, through `sink`, and hands back what it
    /// answered, unchanged.
    pub fn poll_complete<E, S: FnOnce() -> Result<Async<()>, E>>(&mut self, sink: S) -> (out: Result<
        Async<()>,
        E,
    >)
        requires
            !old(self).is_closed(),
            call_requires(sink, ()),
        ensures
            call_ensures(sink, (), out),
            !final(self).is_closed(),
    {
        sink()
    }

    /// Closes this handle and says whether it was the last open one, which
    /// is when the underlying sink is to be closed.
    pub fn release(&mut self, shared: &mut Shared) -> (last: bool)
        requires
            !old(self).is_closed(),
            old(shared)@ > 0,
        ensures
            final(self).is_closed(),
            (final(shared)@, last) == release_of(old(shared)@),
    {
        self.closed = true;
        shared.release()
    }

    /// Closes this handle. The last open handle closes the underlying sink,
    /// through `sink`, and hands back what it answered; before that, closing
    /// succeeds at once and the underlying sink is left alone.
    pub fn close<E, S: FnOnce() -> Result<Async<()>, E>>(
        &mut self,
        shared: &mut Shared,
        sink: S,
    ) -> (out: Result<Async<()>, E>)
        requires
            !old(self).is_closed(),
            old(shared)@ > 0,
            call_requires(sink, ()),
        ensures
            final(self).is_closed(),
            final(shared)@ == release_of(old(shared)@).0,
            if release_of(old(shared)@).1 {
                call_ensures(sink, (), out)
            } else {
                out == Ok::<Async<()>, E>(Async::Ready(()))
            },
    {
        if self.release(shared) {
            sink()
        } else {
            Ok(Async::Ready(()))
        }
    }

    /// A further open handle of the same sink.
    pub fn clone(&self, shared: &mut Shared) -> (cloned: UnsyncCloneable)
        requires
            old(shared)@ < usize::MAX,
        ensures
            final(shared)@ == old(shared)@ + 1,
            !cloned.is_closed(),
    {
        shared.acquire();
        UnsyncCloneable { closed: false }
    }

    /// Ends this handle. One that was not closed is counted out, without
    /// closing the underlying sink.
    pub fn drop(self, shared: &mut Shared)
        requires
            !self.is_closed() ==> old(shared)@ > 0,
        ensures
            final(shared)@ == if self.is_closed() {
                old(shared)@
            } else {
                (old(shared)@ - 1) as nat
            },
    {
        if !self.closed {
            shared.release();
        }
    }
}

} // verus!
