use crate::poll::{Async, Msg, Poll};
use crate::stream::fork::{route_event, routed, Queues, Routed, Side, Sides};
use vstd::prelude::*;

verus! {

/// One side of a fork, for use within one thread.
pub struct UnsyncFork {
    route: Side,
}

/// The left side of a fork.
pub type LeftUnsyncFork = UnsyncFork;

/// The right side of a fork.
pub type RightUnsyncFork = UnsyncFork;

/// The queues of a fork of a producer, its left side and its right side.
pub fn unsync_fork<T, E>() -> (forked: (Queues<T, E>, LeftUnsyncFork, RightUnsyncFork))
    ensures
        forked.0@ == (Sides::<T, E> { left: Seq::empty(), right: Seq::empty() }),
        forked.1.route() == Side::Left,
        forked.2.route() == Side::Right,
{
    (Queues::new(), UnsyncFork { route: Side::Left }, UnsyncFork { route: Side::Right })
}

/// What one turn of a side does with the producer's answer `event` when its
/// own queue is empty: not ready where the producer is not; else the event
/// is routed and the turn has no outcome yet, since the event may have gone
/// to the other side.
pub open spec fn turned<T, E: Clone, R: FnOnce(&T) -> Side>(
    before: Sides<T, E>,
    event: Poll<T, E>,
    router: R,
    out: Option<Poll<T, E>>,
    after: Sides<T, E>,
) -> bool {
    if event == Ok::<Async<Option<T>>, E>(Async::NotReady) {
        out == Some(Ok::<Async<Option<T>>, E>(Async::NotReady)) && after == before
    } else {
        out is None && exists|to: Routed| routed(before, event, router, to, after)
    }
}

impl UnsyncFork {
    /// The side that this handle reads.
    pub closed spec fn route(&self) -> Side {
        self.route
    }

    /// The side that this handle reads.
    pub fn side(&self) -> (side: Side)
        ensures
            side == self.route(),
    {
        self.route
    }

    /// Takes the oldest event of this side, if its queue holds one.
    pub fn next<T, E>(&self, queues: &mut Queues<T, E>) -> (msg: Option<Msg<T, E>>)
        ensures
            match msg {
                Some(m) => {
                    &&& old(queues)@.of(self.route()).len() > 0
                    &&& m == old(queues)@.of(self.route()).first()
                    &&& final(queues)@ == old(queues)@.taken(self.route())
                },
                None => {
                    &&& old(queues)@.of(self.route()).len() == 0
                    &&& final(queues)@ == old(queues)@
                },
            },
    {
        queues.pop(self.route)
    }

    /// Routes an answer of the producer: see `routed`.
    pub fn accept<T, E: Clone, R: FnOnce(&T) -> Side>(
        &self,
        queues: &mut Queues<T, E>,
        event: Poll<T, E>,
        router: R,
    ) -> (out: Routed)
        requires
            event matches Ok(Async::Ready(Some(item))) ==> call_requires(router, (&item,)),
        ensures
            routed(old(queues)@, event, router, out, final(queues)@),
    {
        route_event(queues, event, router)
    }

    /// One turn of a poll of this side. An event waiting in its own queue is
    /// the outcome. With an empty queue the producer is polled once, through
    /// `poll_stream`, and `turned` says what follows. A poll is a sequence of
    /// turns up to the first that has an outcome.
    pub fn turn<T, E: Clone, P: FnOnce() -> Poll<T, E>, R: FnOnce(&T) -> Side>(
        &self,
        queues: &mut Queues<T, E>,
        poll_stream: P,
        router: R,
    ) -> (out: Option<Poll<T, E>>)
        requires
            call_requires(poll_stream, ()),
            forall|item: T| call_requires(router, (&item,)),
        ensures
            old(queues)@.of(self.route()).len() > 0 ==> {
                &&& out == Some(old(queues)@.of(self.route()).first().as_poll())
                &&& final(queues)@ == old(queues)@.taken(self.route())
            },
            old(queues)@.of(self.route()).len() == 0 ==> exists|event: Poll<T, E>|
                call_ensures(poll_stream, (), event) && turned(
                    old(queues)@,
                    event,
                    router,
                    out,
                    final(queues)@,
                ),
    {
        match self.next(queues) {
            Some(msg) => Some(msg.into_poll()),
            None => {
                let event = poll_stream();
                let to = route_event(queues, event, router);
                let out = match to {
                    Routed::Nothing => Some(Ok(Async::NotReady)),
                    _ => None,
                };
                proof {
                    assert(turned(old(queues)@, event, router, out, queues@));
                }
                out
            },
        }
    }
}

} // verus!
