//! Single-threaded primitives: an unbounded broadcast channel and, in
//! `clone`, a broadcast wrapper whose consumers are told apart by identity.

use crate::poll::Async;
use crate::registry::{
    advance, broadcast, lemma_relabel_broadcast, lemma_relabel_consumer, relabel, Registry,
};
use crate::unsync::clone::{find_id, next_id, ReceiverId};
use rand::{OsRng, Rng};
use std::rc::Rc;
use vstd::prelude::*;

pub mod clone;

verus! {

/// What the two ends of a channel share: the queue of each receiver, the
/// resumption tokens of the receivers that wait, and whether the sender is
/// still there.
pub struct Shared<T, W> {
    receive_queues: Registry<Rc<T>>,
    blocked_receivers: Vec<W>,
    sender_alive: bool,
}

/// The model of a channel.
pub ghost struct Channel<T, W> {
    /// The messages that each live receiver has not taken yet, oldest first.
    pub queues: Map<ReceiverId, Seq<T>>,
    /// The tokens of the waiting receivers, in the order in which they came.
    pub blocked: Seq<W>,
    pub sender_alive: bool,
}

impl<T, W> Channel<T, W> {
    /// Some receiver is left. Without one the shared state is gone and a
    /// send has nowhere to go.
    pub open spec fn connected(self) -> bool {
        exists|id: ReceiverId| self.queues.contains_key(id)
    }

    /// `msg` has been sent: every live receiver gets it and every waiting
    /// receiver is resumed.
    pub open spec fn sent(self, msg: T) -> Self {
        Channel {
            queues: broadcast(self.queues, msg),
            blocked: Seq::empty(),
            sender_alive: self.sender_alive,
        }
    }

    /// What a poll of receiver `id` answers: its oldest message; with an
    /// empty queue the end once the sender is gone, and else nothing yet.
    pub open spec fn next(self, id: ReceiverId) -> Async<Option<T>> {
        if self.queues[id].len() > 0 {
            Async::Ready(Some(self.queues[id].first()))
        } else if !self.sender_alive {
            Async::Ready(None)
        } else {
            Async::NotReady
        }
    }

    /// Receiver `id` has taken its oldest message.
    pub open spec fn received(self, id: ReceiverId) -> Self {
        Channel {
            queues: advance(self.queues, id),
            blocked: self.blocked,
            sender_alive: self.sender_alive,
        }
    }

    /// A receiver waits with `token`.
    pub open spec fn parked(self, token: W) -> Self {
        Channel {
            queues: self.queues,
            blocked: self.blocked.push(token),
            sender_alive: self.sender_alive,
        }
    }

    /// A receiver has joined under `id`, with nothing pending.
    pub open spec fn joined(self, id: ReceiverId) -> Self {
        Channel {
            queues: self.queues.insert(id, Seq::empty()),
            blocked: self.blocked,
            sender_alive: self.sender_alive,
        }
    }

    /// Receiver `id` has left.
    pub open spec fn left(self, id: ReceiverId) -> Self {
        Channel {
            queues: self.queues.remove(id),
            blocked: self.blocked,
            sender_alive: self.sender_alive,
        }
    }

    /// The sender has closed: the receivers are not resumed by this.
    pub open spec fn closed(self) -> Self {
        Channel { queues: self.queues, blocked: self.blocked, sender_alive: false }
    }

    /// The sender is gone, and every waiting receiver is resumed.
    pub open spec fn sender_gone(self) -> Self {
        Channel { queues: self.queues, blocked: Seq::empty(), sender_alive: false }
    }

    /// The channel after receiver `id` has taken `n` messages.
    pub open spec fn drained(self, id: ReceiverId, n: nat) -> Self
        decreases n,
    {
        if n == 0 {
            self
        } else {
            self.drained(id, (n - 1) as nat).received(id)
        }
    }
}

impl<T, W> Shared<T, W> {
    pub closed spec fn wf(&self) -> bool {
        self.receive_queues.wf()
    }

    pub closed spec fn view(&self) -> Channel<T, W> {
        Channel {
            queues: relabel(self.receive_queues@, |msg: Rc<T>| *msg),
            blocked: self.blocked_receivers@,
            sender_alive: self.sender_alive,
        }
    }

    /// Whether a receiver is registered under `id`.
    pub fn has_receiver(&self, id: ReceiverId) -> (found: bool)
        requires
            self.wf(),
        ensures
            found == self@.queues.contains_key(id),
    {
        self.receive_queues.contains(id)
    }

    /// Whether any receiver is left.
    pub fn is_connected(&self) -> (connected: bool)
        requires
            self.wf(),
        ensures
            connected == self@.connected(),
    {
        proof {
            if self@.connected() {
                let id = choose|id: ReceiverId| self@.queues.contains_key(id);
                assert(self.receive_queues@.contains_key(id));
            }
            if exists|id: ReceiverId| self.receive_queues@.contains_key(id) {
                let id = choose|id: ReceiverId| self.receive_queues@.contains_key(id);
                assert(self@.queues.contains_key(id));
            }
        }
        !self.receive_queues.is_empty()
    }

    fn take_blocked(&mut self) -> (woken: Vec<W>)
        ensures
            woken@ == old(self).blocked_receivers@,
            final(self).blocked_receivers@ == Seq::<W>::empty(),
            final(self).receive_queues == old(self).receive_queues,
            final(self).sender_alive == old(self).sender_alive,
    {
        let mut woken: Vec<W> = Vec::new();
        std::mem::swap(&mut self.blocked_receivers, &mut woken);
        woken
    }
}

/// The sending end of an unbounded channel.
pub struct UnboundedSender {}

/// One receiving end of an unbounded channel. It yields shared pointers to
/// the messages, since each message goes to every receiver.
pub struct UnboundedReceiver {
    id: ReceiverId,
}

/// The message that could not be sent because no receiver is left.
#[derive(Debug)]
pub struct SendError<T>(T);

impl<T> SendError<T> {
    /// The rejected message.
    pub closed spec fn view(&self) -> T {
        self.0
    }

    /// Returns the message that was attempted to be sent but failed.
    pub fn into_inner(self) -> (msg: T)
        ensures
            msg == self@,
    {
        self.0
    }

    /// The words that describe this error.
    pub fn description(&self) -> (text: &'static str)
        ensures
            text@ == "send failed because receiver is gone"@,
    {
        "send failed because receiver is gone"
    }
}

/// A new channel: its shared state, its sender, and its first receiver,
/// registered under the smallest identity.
pub fn unbounded<T, W>() -> (channel: (Shared<T, W>, UnboundedSender, UnboundedReceiver))
    ensures
        channel.0.wf(),
        channel.2.id() == 0,
        channel.0@ == (Channel::<T, W> {
            queues: Map::<ReceiverId, Seq<T>>::empty().insert(0, Seq::empty()),
            blocked: Seq::empty(),
            sender_alive: true,
        }),
{
    let mut receive_queues = Registry::new();
    receive_queues.insert(0);
    let shared = Shared { receive_queues, blocked_receivers: Vec::new(), sender_alive: true };
    proof {
        lemma_relabel_consumer(Map::<ReceiverId, Seq<Rc<T>>>::empty(), |msg: Rc<T>| *msg, 0);
    }
    (shared, UnboundedSender {  }, UnboundedReceiver { id: 0 })
}

fn shared_copies<T>(msg: &Rc<T>, n: usize) -> (copies: Vec<Rc<T>>)
    ensures
        copies@.len() == n,
        forall|i: int| 0 <= i < n ==> copies@[i] == *msg,
{
    let mut copies = Vec::new();
    let mut i: usize = 0;
    while i < n
        invariant
            i <= n,
            copies@.len() == i,
            forall|j: int| 0 <= j < i ==> copies@[j] == *msg,
        decreases n - i,
    {
        copies.push(msg.clone());
        i += 1;
    }
    copies
}

/// The random number generator of the operating system, from the crate `rand`.
#[verifier::external_type_specification]
#[verifier::external_body]
pub struct ExOsRng(OsRng);

/// Opens the random source of the operating system with `rand::OsRng::new`.
/// `None` stands for the error that it reports where the source cannot be
/// opened; of a generator that was opened nothing is claimed.
#[verifier::external_body]
fn open_rng() -> (rng: Option<OsRng>) {
    match OsRng::new() {
        Ok(rng) => Some(rng),
        Err(_) => None,
    }
}

/// Draws an identity from the generator with `rand::Rng::gen`. Nothing is
/// claimed of the number drawn. The generator stops the thread where the
/// operating system refuses to give random bytes.
#[verifier::external_body]
fn draw_id(rng: &mut OsRng) -> (id: ReceiverId) {
    rng.gen()
}

impl UnboundedSender {
    /// Sends `msg` to every live receiver and hands back the tokens of the
    /// receivers that waited, for the caller to resume them. With no receiver
    /// left the message comes back in the error and nothing changes.
    pub fn unbounded_send<T, W>(&self, shared: &mut Shared<T, W>, msg: T) -> (sent: Result<
        Vec<W>,
        SendError<T>,
    >)
        requires
            old(shared).wf(),
        ensures
            final(shared).wf(),
            match sent {
                Ok(woken) => {
                    &&& old(shared)@.connected()
                    &&& final(shared)@ == old(shared)@.sent(msg)
                    &&& woken@ == old(shared)@.blocked
                },
                Err(error) => {
                    &&& !old(shared)@.connected()
                    &&& error@ == msg
                    &&& final(shared)@ == old(shared)@
                },
            },
    {
        if !shared.is_connected() {
            return Err(SendError(msg));
        }
        let rc = Rc::new(msg);
        let n = shared.receive_queues.len();
        let copies = shared_copies(&rc, n);
        shared.receive_queues.push_each(copies);
        proof {
            lemma_relabel_broadcast(old(shared).receive_queues@, |msg: Rc<T>| *msg, rc);
            assert(shared.receive_queues@ == broadcast(old(shared).receive_queues@, rc));
        }
        let woken = shared.take_blocked();
        Ok(woken)
    }

    /// Closes the sending side: receivers see the end once their queues are
    /// drained. Waiting receivers are not resumed by this. With no receiver
    /// left nothing changes.
    pub fn close<T, W>(&mut self, shared: &mut Shared<T, W>)
        requires
            old(shared).wf(),
        ensures
            final(shared).wf(),
            final(shared)@ == if old(shared)@.connected() {
                old(shared)@.closed()
            } else {
                old(shared)@
            },
    {
        if shared.is_connected() {
            shared.sender_alive = false;
        }
    }

    /// Ends the sender: receivers see the end once their queues are drained,
    /// and the tokens of the receivers that waited are handed back for the
    /// caller to resume them. With no receiver left nothing changes.
    pub fn drop<T, W>(self, shared: &mut Shared<T, W>) -> (woken: Vec<W>)
        requires
            old(shared).wf(),
        ensures
            final(shared).wf(),
            final(shared)@ == if old(shared)@.connected() {
                old(shared)@.sender_gone()
            } else {
                old(shared)@
            },
            woken@ == if old(shared)@.connected() {
                old(shared)@.blocked
            } else {
                Seq::empty()
            },
    {
        if !shared.is_connected() {
            return Vec::new();
        }
        shared.sender_alive = false;
        shared.take_blocked()
    }
}

impl UnboundedReceiver {
    /// The identity under which this receiver is registered.
    pub closed spec fn id(&self) -> ReceiverId {
        self.id
    }

    /// The identity under which this handle is registered.
    pub fn receiver_id(&self) -> (id: usize)
        ensures
            id == self.id(),
    {
        self.id
    }

    /// One poll of this receiver: its oldest message if it holds one; else
    /// the end if the sender is gone; else nothing yet, and the receiver
    /// waits under the token that `current` gives.
    pub fn poll<T, W, C: FnOnce() -> W>(&mut self, shared: &mut Shared<T, W>, current: C) -> (out:
        Async<Option<Rc<T>>>)
        requires
            old(shared).wf(),
            old(shared)@.queues.contains_key(old(self).id()),
            call_requires(current, ()),
        ensures
            final(shared).wf(),
            final(self).id() == old(self).id(),
            match out {
                Async::Ready(Some(msg)) => {
                    &&& old(shared)@.next(old(self).id()) == Async::Ready(Some(*msg))
                    &&& final(shared)@ == old(shared)@.received(old(self).id())
                },
                Async::Ready(None) => {
                    &&& old(shared)@.next(old(self).id()) == Async::<Option<T>>::Ready(None)
                    &&& final(shared)@ == old(shared)@
                },
                Async::NotReady => {
                    &&& old(shared)@.next(old(self).id()) is NotReady
                    &&& final(shared)@.blocked.len() == old(shared)@.blocked.len() + 1
                    &&& call_ensures(current, (), final(shared)@.blocked.last())
                    &&& final(shared)@ == old(shared)@.parked(final(shared)@.blocked.last())
                },
            },
    {
        proof {
            lemma_relabel_consumer(old(shared).receive_queues@, |msg: Rc<T>| *msg, self.id);
        }
        match shared.receive_queues.pop_front(self.id) {
            Some(msg) => Async::Ready(Some(msg)),
            None => {
                if !shared.sender_alive {
                    Async::Ready(None)
                } else {
                    let token = current();
                    shared.blocked_receivers.push(token);
                    Async::NotReady
                }
            },
        }
    }

    /// Registers a further receiver under an identity that no live receiver
    /// has: the first free one at or after a number drawn at random, or after
    /// this receiver's own identity where no random source is to be had. Its
    /// queue starts empty: it gets what is sent from now on.
    pub fn clone<T, W>(&self, shared: &mut Shared<T, W>) -> (cloned: UnboundedReceiver)
        requires
            old(shared).wf(),
        ensures
            final(shared).wf(),
            !old(shared)@.queues.contains_key(cloned.id()),
            final(shared)@ == old(shared)@.joined(cloned.id()),
    {
        let start = match open_rng() {
            Some(mut rng) => draw_id(&mut rng),
            None => next_id(self.id),
        };
        let id = find_id(start, &shared.receive_queues);
        proof {
            lemma_relabel_consumer(old(shared).receive_queues@, |msg: Rc<T>| *msg, id);
        }
        shared.receive_queues.insert(id);
        UnboundedReceiver { id }
    }

    /// Ends this receiver: its queue leaves the channel.
    pub fn drop<T, W>(self, shared: &mut Shared<T, W>)
        requires
            old(shared).wf(),
        ensures
            final(shared).wf(),
            final(shared)@ == old(shared)@.left(self.id()),
    {
        proof {
            lemma_relabel_consumer(old(shared).receive_queues@, |msg: Rc<T>| *msg, self.id);
        }
        shared.receive_queues.remove(self.id);
    }
}

/// Broadcast to all receivers: a message that is sent is the newest message
/// of every receiver that is registered when it is sent, and a receiver that
/// joins after the send starts with nothing.
pub proof fn lemma_send_reaches_live_receivers<T, W>(
    channel: Channel<T, W>,
    msg: T,
    live: ReceiverId,
    late: ReceiverId,
)
    requires
        channel.queues.contains_key(live),
        !channel.queues.contains_key(late),
    ensures
        channel.sent(msg).queues[live] == channel.queues[live].push(msg),
        channel.sent(msg).queues.dom() == channel.queues.dom(),
        channel.sent(msg).joined(late).queues[late] == Seq::<T>::empty(),
        channel.sent(msg).joined(late).queues[live] == channel.queues[live].push(msg),
{
    assert(channel.sent(msg).queues.dom() =~= channel.queues.dom());
}

/// Termination propagation: once the sender is gone, a receiver with a
/// backlog of `n` messages is given those `n` messages, in order, by its
/// next `n` polls, and the end by the poll after them: not before.
pub proof fn lemma_end_after_backlog<T, W>(channel: Channel<T, W>, id: ReceiverId)
    requires
        channel.queues.contains_key(id),
        !channel.sender_alive,
    ensures
        forall|k: nat|
            k < channel.queues[id].len() ==> (#[trigger] channel.drained(id, k)).next(id)
                == Async::Ready(Some(channel.queues[id][k as int])),
        channel.drained(id, channel.queues[id].len()).next(id) == Async::<Option<T>>::Ready(None),
{
    assert forall|k: nat| k <= channel.queues[id].len() implies {
        &&& !(#[trigger] channel.drained(id, k)).sender_alive
        &&& channel.drained(id, k).queues[id] == channel.queues[id].skip(k as int)
    } by {
        lemma_drained(channel, id, k);
    }
}

proof fn lemma_drained<T, W>(channel: Channel<T, W>, id: ReceiverId, k: nat)
    requires
        channel.queues.contains_key(id),
        k <= channel.queues[id].len(),
    ensures
        channel.drained(id, k).sender_alive == channel.sender_alive,
        channel.drained(id, k).queues.contains_key(id),
        channel.drained(id, k).queues[id] == channel.queues[id].skip(k as int),
    decreases k,
{
    if k == 0 {
        assert(channel.queues[id].skip(0) =~= channel.queues[id]);
    } else {
        lemma_drained(channel, id, (k - 1) as nat);
        assert(channel.queues[id].skip(k - 1).drop_first() =~= channel.queues[id].skip(k as int));
    }
}

} // verus!
