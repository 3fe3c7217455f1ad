use crate::poll::{Async, AsyncSink};
use vstd::prelude::*;

verus! {

/// What the write handles of one sink share: how many of them are open.
pub struct Shared {
    sender_count: usize,
}

/// One write handle of a shared sink.
pub struct Cloneable {
    closed: bool,
}

/// Releasing one of `count` open handles: how many stay open, and whether
/// the underlying sink is to be closed now, which is when none stays.
pub open spec fn release_of(count: nat) -> (nat, bool) {
    ((count - 1) as nat, count == 1)
}

impl Shared {
    /// The number of open handles.
    pub closed spec fn view(&self) -> nat {
        self.sender_count as nat
    }

    /// A count of one open handle.
    pub fn new() -> (shared: Shared)
        ensures
            shared@ == 1,
    {
        Shared { sender_count: 1 }
    }

    /// The number of open handles.
    pub fn sender_count(&self) -> (count: usize)
        ensures
            count == self@,
    {
        self.sender_count
    }

    /// Counts one handle more.
    pub fn acquire(&mut self)
        requires
            old(self)@ < usize::MAX,
        ensures
            final(self)@ == old(self)@ + 1,
    {
        self.sender_count = self.sender_count + 1;
    }

    /// Counts one handle less, and says whether it was the last one.
    pub fn release(&mut self) -> (last: bool)
        requires
            old(self)@ > 0,
        ensures
            (final(self)@, last) == release_of(old(self)@),
    {
        self.sender_count = self.sender_count - 1;
        self.sender_count == 0
    }
}

/// The count for a freshly wrapped sink, and its first write handle.
pub fn cloneable() -> (wrapped: (Shared, Cloneable))
    ensures
        wrapped.0@ == 1,
        !wrapped.1.is_closed(),
{
    (Shared::new(), Cloneable { closed: false })
}

impl Cloneable {
    /// Whether this handle has been closed.
    pub closed spec fn is_closed(&self) -> bool {
        self.closed
    }

    /// Whether this handle has been closed.
    pub fn closed(&self) -> (closed: bool)
        ensures
            closed == self.is_closed(),
    {
        self.closed
    }

    /// Offers `msg` to the underlying sink, through `sink`, and hands back
    /// what it answered, unchanged.
    pub fn start_send<T, E, S: FnOnce(T) -> Result<AsyncSink<T>, E>>(&mut self, msg: T, sink: S) -> (out:
        Result<AsyncSink<T>, E>)
        requires
            !old(self).is_closed(),
            call_requires(sink, (msg,)),
        ensures
            call_ensures(sink, (msg,), out),
            !final(self).is_closed(),
    {
        sink(msg)
    }

    /// Flushes the underlying sink, through `sink`, and hands back what it
    /// answered, unchanged.
    pub fn poll_complete<E, S: FnOnce() -> Result<Async<()>, E>>(&mut self, sink: S) -> (out: Result<
        Async<()>,
        E,
    >)
        requires
            !old(self).is_closed(),
            call_requires(sink, ()),
        ensures
            call_ensures(sink, (), out),
            !final(self).is_closed(),
    {
        sink()
    }

    /// Closes this handle and says whether it was the last open one, which
    /// is when the underlying sink is to be closed.
    pub fn release(&mut self, shared: &mut Shared) -> (last: bool)
        requires
            !old(self).is_closed(),
            old(shared)@ > 0,
        ensures
            final(self).is_closed(),
            (final(shared)@, last) == release_of(old(shared)@),
    {
        self.closed = true;
        shared.release()
    }

    /// Closes this handle. The last open handle closes the underlying sink,
    /// through `sink`, and hands back what it answered; before that, closing
    /// succeeds at once and the underlying sink is left alone.
    pub fn close<E, S: FnOnce() -> Result<Async<()>, E>>(
        &mut self,
        shared: &mut Shared,
        sink: S,
    ) -> (out: Result<Async<()>, E>)
        requires
            !old(self).is_closed(),
            old(shared)@ > 0,
            call_requires(sink, ()),
        ensures
            final(self).is_closed(),
            final(shared)@ == release_of(old(shared)@).0,
            if release_of(old(shared)@).1 {
                call_ensures(sink, (), out)
            } else {
                out == Ok::<Async<()>, E>(Async::Ready(()))
            },
    {
        if self.release(shared) {
            sink()
        } else {
            Ok(Async::Ready(()))
        }
    }

    /// A further open handle of the same sink.
    pub fn clone(&self, shared: &mut Shared) -> (cloned: Cloneable)
        requires
            old(shared)@ < usize::MAX,
        ensures
            final(shared)@ == old(shared)@ + 1,
            !cloned.is_closed(),
    {
        shared.acquire();
        Cloneable { closed: false }
    }

    /// Ends this handle. One that was not closed is counted out, without
    /// closing the underlying sink.
    pub fn drop(self, shared: &mut Shared)
        requires
            !self.is_closed() ==> old(shared)@ > 0,
        ensures
            final(shared)@ == if self.is_closed() {
                old(shared)@
            } else {
                (old(shared)@ - 1) as nat
            },
    {
        if !self.closed {
            shared.release();
        }
    }
}

/// The handles of one sink: the shared count, and which handles are open.
pub ghost struct Senders {
    pub count: nat,
    pub open: Set<int>,
}

impl Senders {
    /// The handles of a freshly wrapped sink: the one handle `first`.
    pub open spec fn wrapped(first: int) -> Senders {
        Senders { count: 1, open: Set::empty().insert(first) }
    }

    /// An open handle has been cloned into the new handle `handle`.
    pub open spec fn cloned(self, handle: int) -> Senders {
        Senders { count: self.count + 1, open: self.open.insert(handle) }
    }

    /// The count equals the number of open handles.
    pub open spec fn inv(self) -> bool {
        self.open.finite() && self.count == self.open.len()
    }

    /// The open handle `handle` closes: the handles after it, and whether
    /// the underlying sink is closed by it. Closing a handle that is not
    /// open is not a step.
    pub open spec fn closed(self, handle: int) -> (Senders, bool) {
        if self.open.contains(handle) {
            (
                Senders { count: release_of(self.count).0, open: self.open.remove(handle) },
                release_of(self.count).1,
            )
        } else {
            (self, false)
        }
    }

    /// The handles close in the order `order`: the handles after that, and
    /// for each close whether it closed the underlying sink.
    pub open spec fn closed_all(self, order: Seq<int>) -> (Senders, Seq<bool>)
        decreases order.len(),
    {
        if order.len() == 0 {
            (self, Seq::empty())
        } else {
            let (mid, flags) = self.closed_all(order.drop_last());
            let (end, last) = mid.closed(order.last());
            (end, flags.push(last))
        }
    }
}

/// Wrapping and cloning keep the count equal to the number of open handles.
pub proof fn lemma_count_is_open_handles(senders: Senders, first: int, handle: int)
    requires
        senders.inv(),
        !senders.open.contains(handle),
    ensures
        Senders::wrapped(first).inv(),
        senders.cloned(handle).inv(),
{
}

proof fn lemma_closed_prefix(senders: Senders, order: Seq<int>)
    requires
        senders.inv(),
        order.no_duplicates(),
        forall|i: int| 0 <= i < order.len() ==> senders.open.contains(#[trigger] order[i]),
    ensures
        senders.closed_all(order).0.inv(),
        senders.closed_all(order).0.count == senders.count - order.len(),
        forall|h: int|
            #[trigger] senders.closed_all(order).0.open.contains(h) <==> senders.open.contains(h)
                && !order.contains(h),
        senders.closed_all(order).1.len() == order.len(),
        forall|i: int|
            0 <= i < order.len() ==> #[trigger] senders.closed_all(order).1[i] == (senders.count
                == i + 1),
    decreases order.len(),
{
    if order.len() > 0 {
        let front = order.drop_last();
        lemma_closed_prefix(senders, front);
        let (mid, flags) = senders.closed_all(front);
        let h = order.last();
        assert(senders.open.contains(order[order.len() - 1]));
        assert(!front.contains(h)) by {
            if front.contains(h) {
                let j = choose|j: int| 0 <= j < front.len() && front[j] == h;
                assert(order[j] == order[order.len() - 1]);
            }
        }
        assert(mid.open.contains(h));
        let (end, last) = mid.closed(h);
        assert(senders.closed_all(order).0 == end);
        assert forall|x: int| #[trigger] end.open.contains(x) <==> senders.open.contains(x)
            && !order.contains(x) by {
            assert(mid.open.contains(x) <==> senders.open.contains(x) && !front.contains(x));
            assert(end.open.contains(x) <==> mid.open.contains(x) && x != h);
            if order.contains(x) {
                let j = choose|j: int| 0 <= j < order.len() && order[j] == x;
                if j < front.len() {
                    assert(front[j] == x);
                }
            }
            if front.contains(x) {
                let j = choose|j: int| 0 <= j < front.len() && front[j] == x;
                assert(order[j] == x);
            }
            if x == h {
                assert(order[order.len() - 1] == x);
            }
        }
    }
}

/// Reference-counted close: when all the handles of a sink close, one after
/// another and in whatever order, the underlying sink is closed exactly
/// once, by the last of them.
pub proof fn lemma_last_close_forwards(senders: Senders, order: Seq<int>)
    requires
        senders.inv(),
        order.no_duplicates(),
        order.to_set() == senders.open,
        order.len() > 0,
    ensures
        senders.closed_all(order).1.len() == order.len(),
        forall|i: int|
            0 <= i < order.len() ==> #[trigger] senders.closed_all(order).1[i] == (i == order.len()
                - 1),
        senders.closed_all(order).0.count == 0,
{
    order.unique_seq_to_set();
    assert forall|i: int| 0 <= i < order.len() implies senders.open.contains(
        #[trigger] order[i],
    ) by {
        assert(order.to_set().contains(order[i]));
    }
    lemma_closed_prefix(senders, order);
}

} // verus!
