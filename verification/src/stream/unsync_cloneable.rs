use crate::poll::{event_of, into_event, lemma_cloned_msg, Async, Msg, Poll};
use crate::registry::{advance, appended, broadcast, exact_clone, Registry};
use crate::unsync::clone::{find_id, next_id};
use vstd::prelude::*;

verus! {

/// What the consumers of a wrapped producer share: the queue of each live
/// consumer. Its view maps each consumer's identity to its queue, oldest
/// event first.
pub struct Shared<T, E> {
    receivers: Registry<Msg<T, E>>,
}

/// One consumer of a wrapped producer, for use within one thread.
pub struct UnsyncCloneable {
    id: usize,
}

/// `out` delivers a clone of the event `msg`.
pub open spec fn delivers_clone<T: Clone, E: Clone>(out: Poll<T, E>, msg: Msg<T, E>) -> bool {
    match msg {
        Msg::Item(item) => out matches Ok(Async::Ready(Some(copy))) && cloned(item, copy),
        Msg::End => out == Ok::<Async<Option<T>>, E>(Async::Ready(None)),
        Msg::Failed(error) => out matches Err(copy) && cloned(error, copy),
    }
}

/// Every consumer of `before` but `id` has one clone of `msg` more in `after`.
pub open spec fn reaches_others<T: Clone, E: Clone>(
    before: Map<usize, Seq<Msg<T, E>>>,
    msg: Msg<T, E>,
    id: usize,
    after: Map<usize, Seq<Msg<T, E>>>,
) -> bool {
    &&& after.dom() == before.dom()
    &&& after[id] == before[id]
    &&& forall|other: usize|
        before.contains_key(other) && other != id ==> appended(
            before[other],
            msg,
            #[trigger] after[other],
        )
}

/// What a consumer `id` with an empty queue makes of the producer's answer
/// `event`. With no event yet nothing changes. An event is cloned to every
/// other consumer and a clone of it is delivered at once; where cloning is
/// exact, that is the broadcast of the event followed by this consumer's
/// taking it.
pub open spec fn accepted<T: Clone, E: Clone>(
    before: Map<usize, Seq<Msg<T, E>>>,
    id: usize,
    event: Poll<T, E>,
    out: Poll<T, E>,
    after: Map<usize, Seq<Msg<T, E>>>,
) -> bool {
    match event_of(event) {
        Some(msg) => {
            &&& reaches_others(before, msg, id, after)
            &&& delivers_clone(out, msg)
            &&& exact_clone(msg) ==> out == msg.as_poll() && after == advance(
                broadcast(before, msg),
                id,
            )
        },
        None => out == Ok::<Async<Option<T>>, E>(Async::NotReady) && after == before,
    }
}

/// The shared state of a freshly wrapped producer, and its first consumer.
pub fn unsync_cloneable<T, E>() -> (wrapped: (Shared<T, E>, UnsyncCloneable))
    ensures
        wrapped.0.wf(),
        wrapped.1.id() == 0,
        wrapped.0@ == Map::<usize, Seq<Msg<T, E>>>::empty().insert(0, Seq::empty()),
{
    let mut receivers = Registry::new();
    receivers.insert(0);
    (Shared { receivers }, UnsyncCloneable { id: 0 })
}

impl<T, E> Shared<T, E> {
    pub closed spec fn wf(&self) -> bool {
        self.receivers.wf()
    }

    pub closed spec fn view(&self) -> Map<usize, Seq<Msg<T, E>>> {
        self.receivers@
    }

    /// Whether a consumer is registered under `id`.
    pub fn has_receiver(&self, id: usize) -> (found: bool)
        requires
            self.wf(),
        ensures
            found == self@.contains_key(id),
    {
        self.receivers.contains(id)
    }
}

/// Clones `msg` into the queue of every consumer of `receivers` and takes
/// the clone that went to `id` out again.
pub fn broadcast_and_take<T: Clone, E: Clone>(
    receivers: &mut Registry<Msg<T, E>>,
    id: usize,
    msg: Msg<T, E>,
) -> (out: Poll<T, E>)
    requires
        old(receivers).wf(),
        old(receivers)@.contains_key(id),
        old(receivers)@[id].len() == 0,
    ensures
        final(receivers).wf(),
        reaches_others(old(receivers)@, msg, id, final(receivers)@),
        delivers_clone(out, msg),
        exact_clone(msg) ==> out == msg.as_poll() && final(receivers)@ == advance(
            broadcast(old(receivers)@, msg),
            id,
        ),
{
    receivers.push_all(msg);
    let ghost pushed = receivers@;
    assert(appended(old(receivers)@[id], msg, pushed[id]));
    match receivers.pop_front(id) {
        Some(mine) => {
            proof {
                lemma_cloned_msg(msg, mine);
                assert(receivers@[id] =~= old(receivers)@[id]);
                assert(receivers@.dom() =~= old(receivers)@.dom());
            }
            mine.into_poll()
        },
        None => unreached(),
    }
}

impl UnsyncCloneable {
    /// The identity under which this consumer is registered.
    pub closed spec fn id(&self) -> usize {
        self.id
    }

    /// The identity under which this handle is registered.
    pub fn receiver_id(&self) -> (id: usize)
        ensures
            id == self.id(),
    {
        self.id
    }

    /// Takes the oldest event out of this consumer's own queue, if it holds one.
    pub fn next<T, E>(&self, shared: &mut Shared<T, E>) -> (msg: Option<Msg<T, E>>)
        requires
            old(shared).wf(),
            old(shared)@.contains_key(self.id()),
        ensures
            final(shared).wf(),
            match msg {
                Some(m) => {
                    &&& old(shared)@[self.id()].len() > 0
                    &&& m == old(shared)@[self.id()].first()
                    &&& final(shared)@ == advance(old(shared)@, self.id())
                },
                None => {
                    &&& old(shared)@[self.id()].len() == 0
                    &&& final(shared)@ == old(shared)@
                },
            },
    {
        shared.receivers.pop_front(self.id)
    }

    /// Handles what the producer answered to a poll made because this
    /// consumer's queue was empty.
    pub fn accept<T: Clone, E: Clone>(&self, shared: &mut Shared<T, E>, event: Poll<T, E>) -> (out:
        Poll<T, E>)
        requires
            old(shared).wf(),
            old(shared)@.contains_key(self.id()),
            old(shared)@[self.id()].len() == 0,
        ensures
            final(shared).wf(),
            accepted(old(shared)@, self.id(), event, out, final(shared)@),
    {
        match into_event(event) {
            Some(msg) => broadcast_and_take(&mut shared.receivers, self.id, msg),
            None => Ok(Async::NotReady),
        }
    }

    /// One poll of this consumer. An event waiting in its own queue is
    /// delivered without asking the producer. With an empty queue the
    /// producer is polled once, through `poll_stream`, and its answer is
    /// handled as `accept` does.
    pub fn poll<T: Clone, E: Clone, P: FnOnce() -> Poll<T, E>>(
        &mut self,
        shared: &mut Shared<T, E>,
        poll_stream: P,
    ) -> (out: Poll<T, E>)
        requires
            old(shared).wf(),
            old(shared)@.contains_key(old(self).id()),
            call_requires(poll_stream, ()),
        ensures
            final(shared).wf(),
            final(self).id() == old(self).id(),
            old(shared)@[old(self).id()].len() > 0 ==> {
                &&& out == old(shared)@[old(self).id()].first().as_poll()
                &&& final(shared)@ == advance(old(shared)@, old(self).id())
            },
            old(shared)@[old(self).id()].len() == 0 ==> exists|event: Poll<T, E>|
                call_ensures(poll_stream, (), event) && accepted(
                    old(shared)@,
                    old(self).id(),
                    event,
                    out,
                    final(shared)@,
                ),
    {
        match self.next(shared) {
            Some(msg) => msg.into_poll(),
            None => {
                let event = poll_stream();
                self.accept(shared, event)
            },
        }
    }

    /// Registers a further consumer, under the first unused identity after
    /// this one's. Its queue starts empty: it sees what is emitted from now on.
    pub fn clone<T, E>(&self, shared: &mut Shared<T, E>) -> (cloned: UnsyncCloneable)
        requires
            old(shared).wf(),
        ensures
            final(shared).wf(),
            !old(shared)@.contains_key(cloned.id()),
            final(shared)@ == old(shared)@.insert(cloned.id(), Seq::empty()),
    {
        let id = find_id(next_id(self.id), &shared.receivers);
        shared.receivers.insert(id);
        UnsyncCloneable { id }
    }

    /// Ends this consumer: its queue leaves the registry, and later events
    /// are not kept for it.
    pub fn drop<T, E>(self, shared: &mut Shared<T, E>)
        requires
            old(shared).wf(),
        ensures
            final(shared).wf(),
            final(shared)@ == old(shared)@.remove(self.id()),
    {
        shared.receivers.remove(self.id);
    }
}

} // verus!
