use crate::poll::{event_of, into_event, Async, Msg, Poll};
use crate::registry::{advance, appended, broadcast, exact_clone, Registry};
use crate::stream::unsync_cloneable::{accepted, broadcast_and_take};
use crate::unsync::clone::{find_id, next_id};
use vstd::prelude::*;

verus! {

/// What the consumers of a wrapped producer share when they may run on
/// several threads: the queue of each live consumer, and the resumption
/// tokens of the consumers that found another one advancing the producer.
pub struct Shared<T, E, W> {
    receivers: Registry<Msg<T, E>>,
    block_receiver: Vec<W>,
}

/// The model of `Shared`.
pub ghost struct State<T, E, W> {
    /// The queue of each live consumer, oldest event first.
    pub queues: Map<usize, Seq<Msg<T, E>>>,
    /// The tokens of the waiting consumers, in the order in which they came.
    pub waiting: Seq<W>,
}

/// One consumer of a wrapped producer.
pub struct Cloneable {
    id: usize,
}

/// The shared state of a freshly wrapped producer, and its first consumer.
pub fn cloneable<T, E, W>() -> (wrapped: (Shared<T, E, W>, Cloneable))
    ensures
        wrapped.0.wf(),
        wrapped.1.id() == 0,
        wrapped.0@ == (State::<T, E, W> {
            queues: Map::<usize, Seq<Msg<T, E>>>::empty().insert(0, Seq::empty()),
            waiting: Seq::empty(),
        }),
{
    let mut receivers = Registry::new();
    receivers.insert(0);
    (Shared { receivers, block_receiver: Vec::new() }, Cloneable { id: 0 })
}

impl<T, E, W> Shared<T, E, W> {
    pub closed spec fn wf(&self) -> bool {
        self.receivers.wf()
    }

    pub closed spec fn view(&self) -> State<T, E, W> {
        State { queues: self.receivers@, waiting: self.block_receiver@ }
    }

    /// Whether a consumer is registered under `id`.
    pub fn has_receiver(&self, id: usize) -> (found: bool)
        requires
            self.wf(),
        ensures
            found == self@.queues.contains_key(id),
    {
        self.receivers.contains(id)
    }

    fn take_waiting(&mut self) -> (woken: Vec<W>)
        ensures
            woken@ == old(self).block_receiver@,
            final(self).block_receiver@ == Seq::<W>::empty(),
            final(self).receivers == old(self).receivers,
    {
        let mut woken: Vec<W> = Vec::new();
        std::mem::swap(&mut self.block_receiver, &mut woken);
        woken
    }
}

/// What one poll of consumer `id` does when its own queue is empty and the
/// attempt to advance the producer ended in `attempt`: `None` where another
/// consumer was advancing it, else the producer's answer.
pub open spec fn advanced<T: Clone, E: Clone, W, C: FnOnce() -> W>(
    before: State<T, E, W>,
    id: usize,
    attempt: Option<Poll<T, E>>,
    current: C,
    out: Poll<T, E>,
    woken: Seq<W>,
    after: State<T, E, W>,
) -> bool {
    match attempt {
        None => {
            &&& out == Ok::<Async<Option<T>>, E>(Async::NotReady)
            &&& woken.len() == 0
            &&& after.queues == before.queues
            &&& after.waiting.len() == before.waiting.len() + 1
            &&& after.waiting.drop_last() == before.waiting
            &&& call_ensures(current, (), after.waiting.last())
        },
        Some(event) => {
            &&& accepted(before.queues, id, event, out, after.queues)
            &&& if event_of(event) is Some {
                woken == before.waiting && after.waiting.len() == 0
            } else {
                woken.len() == 0 && after.waiting == before.waiting
            }
        },
    }
}

impl Cloneable {
    /// The identity under which this consumer is registered.
    pub closed spec fn id(&self) -> usize {
        self.id
    }

    /// The identity under which this handle is registered.
    pub fn receiver_id(&self) -> (id: usize)
        ensures
            id == self.id(),
    {
        self.id
    }

    /// Takes the oldest event out of this consumer's own queue, if it holds one.
    pub fn next<T, E, W>(&self, shared: &mut Shared<T, E, W>) -> (msg: Option<Msg<T, E>>)
        requires
            old(shared).wf(),
            old(shared)@.queues.contains_key(self.id()),
        ensures
            final(shared).wf(),
            final(shared)@.waiting == old(shared)@.waiting,
            match msg {
                Some(m) => {
                    &&& old(shared)@.queues[self.id()].len() > 0
                    &&& m == old(shared)@.queues[self.id()].first()
                    &&& final(shared)@.queues == advance(old(shared)@.queues, self.id())
                },
                None => {
                    &&& old(shared)@.queues[self.id()].len() == 0
                    &&& final(shared)@.queues == old(shared)@.queues
                },
            },
    {
        shared.receivers.pop_front(self.id)
    }

    /// Registers `token` for a wakeup: another consumer is advancing the
    /// producer, and resumes the waiting ones when an event has come.
    pub fn wait<T, E, W>(&self, shared: &mut Shared<T, E, W>, token: W)
        requires
            old(shared).wf(),
        ensures
            final(shared).wf(),
            final(shared)@ == (State {
                queues: old(shared)@.queues,
                waiting: old(shared)@.waiting.push(token),
            }),
    {
        shared.block_receiver.push(token);
    }

    /// Hands an answer of the producer to the consumers. With no event yet
    /// nothing changes. A clone of an event goes to the queue of every live
    /// consumer, this one too, and the tokens of the waiting consumers are
    /// handed back for the caller to resume them. The flag says whether an
    /// event came.
    pub fn deliver<T: Clone, E: Clone, W>(
        &self,
        shared: &mut Shared<T, E, W>,
        event: Poll<T, E>,
    ) -> (out: (bool, Vec<W>))
        requires
            old(shared).wf(),
        ensures
            final(shared).wf(),
            out.0 == (event_of(event) is Some),
            match event_of(event) {
                Some(msg) => {
                    &&& final(shared)@.queues.dom() == old(shared)@.queues.dom()
                    &&& forall|id: usize|
                        old(shared)@.queues.contains_key(id) ==> appended(
                            old(shared)@.queues[id],
                            msg,
                            #[trigger] final(shared)@.queues[id],
                        )
                    &&& exact_clone(msg) ==> final(shared)@.queues == broadcast(
                        old(shared)@.queues,
                        msg,
                    )
                    &&& out.1@ == old(shared)@.waiting
                    &&& final(shared)@.waiting.len() == 0
                },
                None => out.1@.len() == 0 && final(shared)@ == old(shared)@,
            },
    {
        match into_event(event) {
            Some(msg) => {
                shared.receivers.push_all(msg);
                let woken = shared.take_waiting();
                (true, woken)
            },
            None => (false, Vec::new()),
        }
    }

    /// One poll of this consumer. An event waiting in its own queue is
    /// delivered at once. With an empty queue, `try_poll` tries to advance
    /// the producer without blocking. Where another consumer holds that
    /// right, this one registers the token that `current` gives and is not
    /// ready. Else the producer's answer is handled: no event, not ready; an
    /// event is cloned to every consumer, this consumer's clone is delivered
    /// and the tokens of the waiting consumers are handed back.
    pub fn poll<T: Clone, E: Clone, W, A: FnOnce() -> Option<Poll<T, E>>, C: FnOnce() -> W>(
        &mut self,
        shared: &mut Shared<T, E, W>,
        try_poll: A,
        current: C,
    ) -> (out: (Poll<T, E>, Vec<W>))
        requires
            old(shared).wf(),
            old(shared)@.queues.contains_key(old(self).id()),
            call_requires(try_poll, ()),
            call_requires(current, ()),
        ensures
            final(shared).wf(),
            final(self).id() == old(self).id(),
            old(shared)@.queues[old(self).id()].len() > 0 ==> {
                &&& out.0 == old(shared)@.queues[old(self).id()].first().as_poll()
                &&& out.1@.len() == 0
                &&& final(shared)@ == (State {
                    queues: advance(old(shared)@.queues, old(self).id()),
                    waiting: old(shared)@.waiting,
                })
            },
            old(shared)@.queues[old(self).id()].len() == 0 ==> exists|
                attempt: Option<Poll<T, E>>,
            |
                call_ensures(try_poll, (), attempt) && advanced(
                    old(shared)@,
                    old(self).id(),
                    attempt,
                    current,
                    out.0,
                    out.1@,
                    final(shared)@,
                ),
    {
        match self.next(shared) {
            Some(msg) => (msg.into_poll(), Vec::new()),
            None => {
                let attempt = try_poll();
                let out = match attempt {
                    None => {
                        let token = current();
                        shared.block_receiver.push(token);
                        proof {
                            assert(shared@.waiting.drop_last() =~= old(shared)@.waiting);
                        }
                        (Ok(Async::NotReady), Vec::new())
                    },
                    Some(event) => {
                        match into_event(event) {
                            Some(msg) => {
                                let mine = broadcast_and_take(
                                    &mut shared.receivers,
                                    self.id,
                                    msg,
                                );
                                let woken = shared.take_waiting();
                                (mine, woken)
                            },
                            None => (Ok(Async::NotReady), Vec::new()),
                        }
                    },
                };
                proof {
                    assert(advanced(
                        old(shared)@,
                        old(self).id(),
                        attempt,
                        current,
                        out.0,
                        out.1@,
                        shared@,
                    ));
                }
                out
            },
        }
    }

    /// Registers a further consumer, under the first unused identity after
    /// this one's. Its queue starts empty: it sees what is emitted from now on.
    pub fn clone<T, E, W>(&self, shared: &mut Shared<T, E, W>) -> (cloned: Cloneable)
        requires
            old(shared).wf(),
        ensures
            final(shared).wf(),
            !old(shared)@.queues.contains_key(cloned.id()),
            final(shared)@ == (State {
                queues: old(shared)@.queues.insert(cloned.id(), Seq::empty()),
                waiting: old(shared)@.waiting,
            }),
    {
        let id = find_id(next_id(self.id), &shared.receivers);
        shared.receivers.insert(id);
        Cloneable { id }
    }

    /// Ends this consumer: its queue leaves the registry, and later events
    /// are not kept for it.
    pub fn drop<T, E, W>(self, shared: &mut Shared<T, E, W>)
        requires
            old(shared).wf(),
        ensures
            final(shared).wf(),
            final(shared)@ == (State {
                queues: old(shared)@.queues.remove(self.id()),
                waiting: old(shared)@.waiting,
            }),
    {
        shared.receivers.remove(self.id);
    }
}

} // verus!
