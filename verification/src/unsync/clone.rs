use crate::poll::{event_of, Async, Msg, Poll};
use crate::registry::{
    advance, broadcast, lemma_relabel_broadcast, lemma_relabel_consumer, relabel, Registry,
};
use std::rc::Rc;
use vstd::prelude::*;

verus! {

/// The identity of a consumer.
pub type ReceiverId = usize;

/// The identity `k` places after `start`, counting past the largest
/// identity back to the smallest.
pub open spec fn probe(start: ReceiverId, k: nat) -> ReceiverId {
    if start + k <= usize::MAX {
        (start + k) as usize
    } else {
        (start + k - usize::MAX - 1) as usize
    }
}

/// The identity after `id`; the one after the largest is the smallest.
pub fn next_id(id: ReceiverId) -> (next: ReceiverId)
    ensures
        next == probe(id, 1),
        next == if id == usize::MAX {
            0
        } else {
            id + 1
        },
{
    if id == usize::MAX {
        0
    } else {
        id + 1
    }
}

proof fn lemma_probes_fit(start: ReceiverId, k: nat, ids: Set<ReceiverId>)
    requires
        ids.finite(),
        k <= usize::MAX + 1,
        forall|j: nat| j < k ==> ids.contains(#[trigger] probe(start, j)),
    ensures
        k <= ids.len(),
    decreases k,
{
    if k > 0 {
        let last = probe(start, (k - 1) as nat);
        let rest = ids.remove(last);
        assert forall|j: nat| j < k - 1 implies rest.contains(#[trigger] probe(start, j)) by {
            assert(ids.contains(probe(start, j)));
            assert(probe(start, j) != last);
        }
        lemma_probes_fit(start, (k - 1) as nat, rest);
    }
}

/// The first identity at or after `start` that no consumer of `receivers`
/// is registered under.
pub fn find_id<M>(start: ReceiverId, receivers: &Registry<M>) -> (id: ReceiverId)
    requires
        receivers.wf(),
    ensures
        !receivers@.contains_key(id),
        exists|k: nat|
            k <= usize::MAX && id == probe(start, k) && forall|j: nat|
                j < k ==> receivers@.contains_key(#[trigger] probe(start, j)),
{
    let n = receivers.len();
    let mut id = start;
    let ghost mut k: nat = 0;
    loop
        invariant
            receivers.wf(),
            receivers@.dom().finite(),
            n == receivers@.dom().len(),
            k <= n,
            id == probe(start, k),
            forall|j: nat| j < k ==> receivers@.contains_key(#[trigger] probe(start, j)),
        decreases n - k,
    {
        if !receivers.contains(id) {
            return id;
        }
        proof {
            lemma_probes_fit(start, k + 1, receivers@.dom());
        }
        id = next_id(id);
        proof {
            k = k + 1;
        }
    }
}

/// What the consumers of a wrapped producer share: each consumer's queue and
/// the resumption tokens of those that wait for the producer.
pub struct Shared<T, E, W> {
    receive_queues: Registry<Msg<Rc<T>, Rc<E>>>,
    blocking_receivers: Vec<W>,
}

/// The model of `Shared`: the queue of each consumer, oldest event first,
/// and the tokens of the waiting consumers in the order in which they came.
pub ghost struct Queues<T, E, W> {
    pub queues: Map<ReceiverId, Seq<Msg<T, E>>>,
    pub blocked: Seq<W>,
}

/// The event behind the shared pointers of a queued event.
pub open spec fn plain<T, E>(msg: Msg<Rc<T>, Rc<E>>) -> Msg<T, E> {
    match msg {
        Msg::Item(item) => Msg::Item(*item),
        Msg::End => Msg::End,
        Msg::Failed(error) => Msg::Failed(*error),
    }
}

/// `poll` delivers the event `msg`, the payload behind a shared pointer.
pub open spec fn delivers<T, E>(poll: Poll<Rc<T>, Rc<E>>, msg: Msg<T, E>) -> bool {
    match poll {
        Ok(Async::Ready(Some(item))) => msg == Msg::<T, E>::Item(*item),
        Ok(Async::Ready(None)) => msg is End,
        Ok(Async::NotReady) => false,
        Err(error) => msg == Msg::<T, E>::Failed(*error),
    }
}

impl<T, E, W> Queues<T, E, W> {
    /// The producer has emitted `msg`: every consumer gets it, and every
    /// waiting consumer is resumed.
    pub open spec fn emitted(self, msg: Msg<T, E>) -> Self {
        Queues { queues: broadcast(self.queues, msg), blocked: Seq::empty() }
    }

    /// Consumer `id` has taken the oldest event of its queue.
    pub open spec fn received(self, id: ReceiverId) -> Self {
        Queues { queues: advance(self.queues, id), blocked: self.blocked }
    }

    /// A consumer waits with `token`.
    pub open spec fn parked(self, token: W) -> Self {
        Queues { queues: self.queues, blocked: self.blocked.push(token) }
    }

    /// A consumer has joined under `id`, with nothing pending.
    pub open spec fn joined(self, id: ReceiverId) -> Self {
        Queues { queues: self.queues.insert(id, Seq::empty()), blocked: self.blocked }
    }

    /// Consumer `id` has left.
    pub open spec fn left(self, id: ReceiverId) -> Self {
        Queues { queues: self.queues.remove(id), blocked: self.blocked }
    }
}

impl<T, E, W> Shared<T, E, W> {
    pub closed spec fn wf(&self) -> bool {
        self.receive_queues.wf()
    }

    pub closed spec fn view(&self) -> Queues<T, E, W> {
        Queues {
            queues: relabel(self.receive_queues@, |msg: Msg<Rc<T>, Rc<E>>| plain(msg)),
            blocked: self.blocking_receivers@,
        }
    }

    /// Whether a consumer is registered under `id`.
    pub fn has_receiver(&self, id: ReceiverId) -> (found: bool)
        requires
            self.wf(),
        ensures
            found == self@.queues.contains_key(id),
    {
        self.receive_queues.contains(id)
    }
}

/// One consumer of a wrapped producer. Every consumer sees the whole
/// sequence from the moment it came into being.
pub struct Cloneable {
    id: ReceiverId,
}

/// The shared state of a freshly wrapped producer, and its first consumer.
pub fn into_cloneable<T, E, W>() -> (wrapped: (Shared<T, E, W>, Cloneable))
    ensures
        wrapped.0.wf(),
        wrapped.1.id() == 0,
        wrapped.0@ == (Queues::<T, E, W> {
            queues: Map::<ReceiverId, Seq<Msg<T, E>>>::empty().insert(0, Seq::empty()),
            blocked: Seq::empty(),
        }),
{
    let mut receive_queues = Registry::new();
    receive_queues.insert(0);
    let shared = Shared { receive_queues, blocking_receivers: Vec::new() };
    proof {
        let f = |msg: Msg<Rc<T>, Rc<E>>| plain(msg);
        lemma_relabel_consumer(Map::<ReceiverId, Seq<Msg<Rc<T>, Rc<E>>>>::empty(), f, 0);
    }
    (shared, Cloneable { id: 0 })
}

fn shared_copy<T, E>(msg: &Msg<Rc<T>, Rc<E>>) -> (copy: Msg<Rc<T>, Rc<E>>)
    ensures
        copy == *msg,
{
    match msg {
        Msg::Item(item) => Msg::Item(item.clone()),
        Msg::End => Msg::End,
        Msg::Failed(error) => Msg::Failed(error.clone()),
    }
}

fn shared_copies<T, E>(msg: &Msg<Rc<T>, Rc<E>>, n: usize) -> (copies: Vec<Msg<Rc<T>, Rc<E>>>)
    ensures
        copies@.len() == n,
        forall|i: int| 0 <= i < n ==> copies@[i] == *msg,
{
    let mut copies = Vec::new();
    let mut i: usize = 0;
    while i < n
        invariant
            i <= n,
            copies@.len() == i,
            forall|j: int| 0 <= j < i ==> copies@[j] == *msg,
        decreases n - i,
    {
        copies.push(shared_copy(msg));
        i += 1;
    }
    copies
}

impl Cloneable {
    /// The identity under which this consumer is registered.
    pub closed spec fn id(&self) -> ReceiverId {
        self.id
    }

    /// The identity under which this handle is registered.
    pub fn receiver_id(&self) -> (id: usize)
        ensures
            id == self.id(),
    {
        self.id
    }

    /// Takes the oldest event out of this consumer's own queue, if it holds one.
    pub fn next<T, E, W>(&self, shared: &mut Shared<T, E, W>) -> (msg: Option<Msg<Rc<T>, Rc<E>>>)
        requires
            old(shared).wf(),
            old(shared)@.queues.contains_key(self.id()),
        ensures
            final(shared).wf(),
            match msg {
                Some(m) => {
                    &&& old(shared)@.queues[self.id()].len() > 0
                    &&& plain(m) == old(shared)@.queues[self.id()].first()
                    &&& final(shared)@ == old(shared)@.received(self.id())
                },
                None => {
                    &&& old(shared)@.queues[self.id()].len() == 0
                    &&& final(shared)@ == old(shared)@
                },
            },
    {
        proof {
            let f = |msg: Msg<Rc<T>, Rc<E>>| plain(msg);
            lemma_relabel_consumer(old(shared).receive_queues@, f, self.id);
        }
        shared.receive_queues.pop_front(self.id)
    }

    /// What `accept` does with the producer's answer `event`: from `before`
    /// to `after`, with the outcome `poll` for this consumer and the tokens
    /// `woken` of the consumers to resume.
    pub open spec fn accepted<T, E, W, C: FnOnce() -> W>(
        &self,
        before: Queues<T, E, W>,
        event: Poll<T, E>,
        current: C,
        poll: Poll<Rc<T>, Rc<E>>,
        woken: Seq<W>,
        after: Queues<T, E, W>,
    ) -> bool {
        match event_of(event) {
            Some(msg) => {
                &&& after == before.emitted(msg).received(self.id())
                &&& woken == before.blocked
                &&& delivers(poll, msg)
            },
            None => {
                &&& poll == Ok::<Async<Option<Rc<T>>>, Rc<E>>(Async::NotReady)
                &&& woken.len() == 0
                &&& after.blocked.len() == before.blocked.len() + 1
                &&& call_ensures(current, (), after.blocked.last())
                &&& after == before.parked(after.blocked.last())
            },
        }
    }

    /// One poll of this consumer. An event waiting in its own queue is
    /// delivered without asking the producer. With an empty queue the
    /// producer is polled once, through `poll_stream`, and its answer is
    /// handled as `accept` does.
    pub fn poll<T, E, W, P: FnOnce() -> Poll<T, E>, C: FnOnce() -> W>(
        &self,
        shared: &mut Shared<T, E, W>,
        poll_stream: P,
        current: C,
    ) -> (out: (Poll<Rc<T>, Rc<E>>, Vec<W>))
        requires
            old(shared).wf(),
            old(shared)@.queues.contains_key(self.id()),
            call_requires(poll_stream, ()),
            call_requires(current, ()),
        ensures
            final(shared).wf(),
            old(shared)@.queues[self.id()].len() > 0 ==> {
                &&& final(shared)@ == old(shared)@.received(self.id())
                &&& out.1@.len() == 0
                &&& delivers(out.0, old(shared)@.queues[self.id()].first())
            },
            old(shared)@.queues[self.id()].len() == 0 ==> exists|event: Poll<T, E>|
                call_ensures(poll_stream, (), event) && self.accepted(
                    old(shared)@,
                    event,
                    current,
                    out.0,
                    out.1@,
                    final(shared)@,
                ),
    {
        match self.next(shared) {
            Some(msg) => (msg.into_poll(), Vec::new()),
            None => {
                let event = poll_stream();
                self.accept(shared, event, current)
            },
        }
    }

    /// Handles what the producer answered to a poll made because this
    /// consumer's queue was empty. With no event yet the consumer waits under
    /// the token that `current` gives. An event goes to every consumer; this
    /// one takes it at once, and the tokens of those that waited are handed
    /// back for the caller to resume them.
    pub fn accept<T, E, W, C: FnOnce() -> W>(
        &self,
        shared: &mut Shared<T, E, W>,
        event: Poll<T, E>,
        current: C,
    ) -> (out: (Poll<Rc<T>, Rc<E>>, Vec<W>))
        requires
            old(shared).wf(),
            old(shared)@.queues.contains_key(self.id()),
            old(shared)@.queues[self.id()].len() == 0,
            call_requires(current, ()),
        ensures
            final(shared).wf(),
            self.accepted(old(shared)@, event, current, out.0, out.1@, final(shared)@),
    {
        let msg: Msg<Rc<T>, Rc<E>> = match event {
            Err(error) => Msg::Failed(Rc::new(error)),
            Ok(Async::Ready(Some(item))) => Msg::Item(Rc::new(item)),
            Ok(Async::Ready(None)) => Msg::End,
            Ok(Async::NotReady) => {
                let token = current();
                shared.blocking_receivers.push(token);
                return (Ok(Async::NotReady), Vec::new());
            },
        };
        let ghost f = |msg: Msg<Rc<T>, Rc<E>>| plain(msg);
        let n = shared.receive_queues.len();
        let copies = shared_copies(&msg, n);
        shared.receive_queues.push_each(copies);
        let mut woken: Vec<W> = Vec::new();
        std::mem::swap(&mut shared.blocking_receivers, &mut woken);
        proof {
            lemma_relabel_broadcast(old(shared).receive_queues@, f, msg);
            lemma_relabel_consumer(shared.receive_queues@, f, self.id);
            assert(shared.receive_queues@ == broadcast(old(shared).receive_queues@, msg));
            assert(shared.receive_queues@[self.id].len() > 0);
        }
        match shared.receive_queues.pop_front(self.id) {
            Some(mine) => {
                proof {
                    assert(mine == msg);
                    assert(plain(msg) == event_of(event).unwrap());
                }
                (mine.into_poll(), woken)
            },
            None => unreached(),
        }
    }

    /// Registers a further consumer, under the first unused identity after
    /// this one's. Its queue starts empty: it sees what is emitted from now on.
    pub fn clone<T, E, W>(&self, shared: &mut Shared<T, E, W>) -> (cloned: Cloneable)
        requires
            old(shared).wf(),
        ensures
            final(shared).wf(),
            !old(shared)@.queues.contains_key(cloned.id()),
            final(shared)@ == old(shared)@.joined(cloned.id()),
    {
        let id = find_id(next_id(self.id), &shared.receive_queues);
        proof {
            let f = |msg: Msg<Rc<T>, Rc<E>>| plain(msg);
            lemma_relabel_consumer(old(shared).receive_queues@, f, id);
        }
        shared.receive_queues.insert(id);
        Cloneable { id }
    }

    /// Ends this consumer: its queue leaves the registry.
    pub fn drop<T, E, W>(self, shared: &mut Shared<T, E, W>)
        requires
            old(shared).wf(),
        ensures
            final(shared).wf(),
            final(shared)@ == old(shared)@.left(self.id()),
    {
        proof {
            let f = |msg: Msg<Rc<T>, Rc<E>>| plain(msg);
            lemma_relabel_consumer(old(shared).receive_queues@, f, self.id);
        }
        shared.receive_queues.remove(self.id);
    }
}

} // verus!
