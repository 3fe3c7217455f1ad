use crate::poll::{Async, Msg, Poll};
use std::collections::VecDeque;
use vstd::prelude::*;
use vstd::std_specs::convert::FromSpecImpl;

verus! {

/// The side of a fork that an item is routed to.
#[derive(Clone, Copy, Debug, PartialEq, Eq, Structural)]
pub enum Side {
    Left,
    Right,
}

impl From<bool> for Side {
    /// `true` is the left side, `false` the right one.
    fn from(b: bool) -> (side: Side) {
        if b {
            Side::Left
        } else {
            Side::Right
        }
    }
}

impl FromSpecImpl<bool> for Side {
    open spec fn obeys_from_spec() -> bool {
        true
    }

    open spec fn from_spec(b: bool) -> Side {
        if b {
            Side::Left
        } else {
            Side::Right
        }
    }
}

/// The two queues of a fork, oldest event first.
pub struct Queues<T, E> {
    pub left: VecDeque<Msg<T, E>>,
    pub right: VecDeque<Msg<T, E>>,
}

/// The model of `Queues`.
pub ghost struct Sides<T, E> {
    pub left: Seq<Msg<T, E>>,
    pub right: Seq<Msg<T, E>>,
}

impl<T, E> Sides<T, E> {
    /// The queue of one side.
    pub open spec fn of(self, route: Side) -> Seq<Msg<T, E>> {
        match route {
            Side::Left => self.left,
            Side::Right => self.right,
        }
    }

    /// `msg` has been appended to the queue of `route`, and to no other.
    pub open spec fn pushed(self, route: Side, msg: Msg<T, E>) -> Self {
        match route {
            Side::Left => Sides { left: self.left.push(msg), right: self.right },
            Side::Right => Sides { left: self.left, right: self.right.push(msg) },
        }
    }

    /// The oldest event of `route` has been taken.
    pub open spec fn taken(self, route: Side) -> Self {
        match route {
            Side::Left => Sides { left: self.left.drop_first(), right: self.right },
            Side::Right => Sides { left: self.left, right: self.right.drop_first() },
        }
    }

    /// The end of the sequence has been appended to both queues.
    pub open spec fn ended(self) -> Self {
        Sides { left: self.left.push(Msg::End), right: self.right.push(Msg::End) }
    }
}

impl<T, E> Queues<T, E> {
    pub open spec fn view(&self) -> Sides<T, E> {
        Sides { left: self.left@, right: self.right@ }
    }

    /// Two empty queues.
    pub fn new() -> (queues: Queues<T, E>)
        ensures
            queues@ == (Sides::<T, E> { left: Seq::empty(), right: Seq::empty() }),
    {
        Queues { left: VecDeque::new(), right: VecDeque::new() }
    }

    /// The queue of one side, to be changed in place: the other is kept.
    pub fn get_queue_mut(&mut self, route: Side) -> (queue: &mut VecDeque<Msg<T, E>>)
        ensures
            queue@ == old(self)@.of(route),
            final(self)@ == match route {
                Side::Left => Sides { left: final(queue)@, right: old(self)@.right },
                Side::Right => Sides { left: old(self)@.left, right: final(queue)@ },
            },
    {
        match route {
            Side::Left => &mut self.left,
            Side::Right => &mut self.right,
        }
    }

    /// Appends the end of the sequence to both queues.
    pub fn push_none(&mut self)
        ensures
            final(self)@ == old(self)@.ended(),
    {
        self.left.push_back(Msg::End);
        self.right.push_back(Msg::End);
    }

    /// Appends `msg` to the queue of `route` only.
    pub fn push_to(&mut self, route: Side, msg: Msg<T, E>)
        ensures
            final(self)@ == old(self)@.pushed(route, msg),
    {
        match route {
            Side::Left => self.left.push_back(msg),
            Side::Right => self.right.push_back(msg),
        }
    }

    /// Takes the oldest event of `route`, if its queue holds one.
    pub fn pop(&mut self, route: Side) -> (msg: Option<Msg<T, E>>)
        ensures
            match msg {
                Some(m) => {
                    &&& old(self)@.of(route).len() > 0
                    &&& m == old(self)@.of(route).first()
                    &&& final(self)@ == old(self)@.taken(route)
                },
                None => old(self)@.of(route).len() == 0 && final(self)@ == old(self)@,
            },
    {
        match route {
            Side::Left => self.left.pop_front(),
            Side::Right => self.right.pop_front(),
        }
    }
}

/// `after` is `before` with the error `err` appended to both queues: the
/// error itself on the right, a clone of it on the left.
pub open spec fn failed<T, E: Clone>(before: Sides<T, E>, err: E, after: Sides<T, E>) -> bool {
    &&& after.right == before.right.push(Msg::Failed(err))
    &&& after.left.len() == before.left.len() + 1
    &&& after.left.drop_last() == before.left
    &&& after.left.last() matches Msg::Failed(copy) && cloned(err, copy)
}

impl<T, E: Clone> Queues<T, E> {
    /// Appends the error to both queues: both sides see how the sequence ended.
    pub fn push_err(&mut self, err: E)
        ensures
            failed(old(self)@, err, final(self)@),
            (forall|copy: E| #[trigger] cloned(err, copy) ==> copy == err) ==> final(self)@ == old(self)@.pushed(Side::Left, Msg::Failed(err)).pushed(Side::Right, Msg::Failed(err)),
    {
        let copy = err.clone();
        self.left.push_back(Msg::Failed(copy));
        self.right.push_back(Msg::Failed(err));
        proof {
            assert(self.left@.drop_last() =~= old(self).left@);
        }
    }
}

/// Where an answer of the producer went.
#[derive(Clone, Copy, Debug, PartialEq, Eq, Structural)]
pub enum Routed {
    /// The producer had no event yet.
    Nothing,
    /// An item was queued on one side.
    To(Side),
    /// The end or an error was queued on both sides.
    Both,
}

/// What routing the producer's answer `event` does to the queues: an item
/// goes to the side that `router` names for it and to that side only, the
/// end and an error go to both sides, and without an event nothing changes.
pub open spec fn routed<T, E: Clone, R: FnOnce(&T) -> Side>(
    before: Sides<T, E>,
    event: Poll<T, E>,
    router: R,
    out: Routed,
    after: Sides<T, E>,
) -> bool {
    match event {
        Ok(Async::Ready(Some(item))) => {
            &&& out matches Routed::To(side)
            &&& call_ensures(router, (&item,), side)
            &&& after == before.pushed(side, Msg::Item(item))
        },
        Ok(Async::Ready(None)) => out == Routed::Both && after == before.ended(),
        Ok(Async::NotReady) => out == Routed::Nothing && after == before,
        Err(err) => out == Routed::Both && failed(before, err, after),
    }
}

/// Queues what the producer answered: see `routed`.
pub fn route_event<T, E: Clone, R: FnOnce(&T) -> Side>(
    queues: &mut Queues<T, E>,
    event: Poll<T, E>,
    router: R,
) -> (out: Routed)
    requires
        event matches Ok(Async::Ready(Some(item))) ==> call_requires(router, (&item,)),
    ensures
        routed(old(queues)@, event, router, out, final(queues)@),
{
    match event {
        Err(err) => {
            queues.push_err(err);
            Routed::Both
        },
        Ok(Async::Ready(Some(item))) => {
            let route = router(&item);
            queues.push_to(route, Msg::Item(item));
            Routed::To(route)
        },
        Ok(Async::Ready(None)) => {
            queues.push_none();
            Routed::Both
        },
        Ok(Async::NotReady) => Routed::Nothing,
    }
}

/// What the two sides of a fork share when they may run on several threads:
/// the two queues, and the resumption tokens of the sides that found the
/// other one advancing the producer.
pub struct Shared<T, E, W> {
    pub queues: Queues<T, E>,
    pub waiting: Vec<W>,
}

/// One side of a fork.
pub struct Fork {
    route: Side,
}

/// The left side of a fork.
pub type LeftFork = Fork;

/// The right side of a fork.
pub type RightFork = Fork;

/// The shared state of a fork of a producer, its left side and its right side.
pub fn fork<T, E, W>() -> (forked: (Shared<T, E, W>, LeftFork, RightFork))
    ensures
        forked.0.queues@ == (Sides::<T, E> { left: Seq::empty(), right: Seq::empty() }),
        forked.0.waiting@ == Seq::<W>::empty(),
        forked.1.route() == Side::Left,
        forked.2.route() == Side::Right,
{
    (
        Shared { queues: Queues::new(), waiting: Vec::new() },
        Fork { route: Side::Left },
        Fork { route: Side::Right },
    )
}

/// What one turn of a side does when its own queue is empty and the attempt
/// to advance the producer ended in `attempt`: `None` where the other side
/// was advancing it, else the producer's answer. The side is not ready where
/// it lost the race, and registers its token, or where the producer is not
/// ready. Else the event is routed, the waiting side is resumed, and the
/// turn has no outcome yet: the event may have gone to the other side.
pub open spec fn turned<T, E: Clone, W, R: FnOnce(&T) -> Side, C: FnOnce() -> W>(
    before: Sides<T, E>,
    waiting: Seq<W>,
    attempt: Option<Poll<T, E>>,
    router: R,
    current: C,
    out: Option<Poll<T, E>>,
    woken: Seq<W>,
    after: Sides<T, E>,
    waiting_after: Seq<W>,
) -> bool {
    match attempt {
        None => {
            &&& out == Some(Ok::<Async<Option<T>>, E>(Async::NotReady))
            &&& woken.len() == 0
            &&& after == before
            &&& waiting_after.len() == waiting.len() + 1
            &&& waiting_after.drop_last() == waiting
            &&& call_ensures(current, (), waiting_after.last())
        },
        Some(event) => if event == Ok::<Async<Option<T>>, E>(Async::NotReady) {
            &&& out == Some(Ok::<Async<Option<T>>, E>(Async::NotReady))
            &&& woken.len() == 0
            &&& after == before
            &&& waiting_after == waiting
        } else {
            &&& out is None
            &&& woken == waiting
            &&& waiting_after.len() == 0
            &&& exists|to: Routed| routed(before, event, router, to, after)
        },
    }
}

impl Fork {
    /// The side that this handle reads.
    pub closed spec fn route(&self) -> Side {
        self.route
    }

    /// The side that this handle reads.
    pub fn side(&self) -> (side: Side)
        ensures
            side == self.route(),
    {
        self.route
    }

    /// Takes the oldest event of this side, if its queue holds one.
    pub fn next<T, E, W>(&self, shared: &mut Shared<T, E, W>) -> (msg: Option<Msg<T, E>>)
        ensures
            final(shared).waiting@ == old(shared).waiting@,
            match msg {
                Some(m) => {
                    &&& old(shared).queues@.of(self.route()).len() > 0
                    &&& m == old(shared).queues@.of(self.route()).first()
                    &&& final(shared).queues@ == old(shared).queues@.taken(self.route())
                },
                None => {
                    &&& old(shared).queues@.of(self.route()).len() == 0
                    &&& final(shared).queues@ == old(shared).queues@
                },
            },
    {
        shared.queues.pop(self.route)
    }

    /// Registers `token` for a wakeup: the other side is advancing the
    /// producer, and resumes the waiting one when an event has come.
    pub fn wait<T, E, W>(&self, shared: &mut Shared<T, E, W>, token: W)
        ensures
            final(shared).queues@ == old(shared).queues@,
            final(shared).waiting@ == old(shared).waiting@.push(token),
    {
        shared.waiting.push(token);
    }

    /// Routes an answer of the producer, see `routed`, and, where it was an
    /// event, hands back the tokens of the waiting sides for the caller to
    /// resume them.
    pub fn accept<T, E: Clone, W, R: FnOnce(&T) -> Side>(
        &self,
        shared: &mut Shared<T, E, W>,
        event: Poll<T, E>,
        router: R,
    ) -> (out: (Routed, Vec<W>))
        requires
            event matches Ok(Async::Ready(Some(item))) ==> call_requires(router, (&item,)),
        ensures
            routed(old(shared).queues@, event, router, out.0, final(shared).queues@),
            out.0 == Routed::Nothing ==> out.1@.len() == 0 && final(shared).waiting@ == old(shared).waiting@,
            out.0 != Routed::Nothing ==> out.1@ == old(shared).waiting@ && final(shared).waiting@.len() == 0,
    {
        let to = route_event(&mut shared.queues, event, router);
        match to {
            Routed::Nothing => (to, Vec::new()),
            _ => {
                let mut woken: Vec<W> = Vec::new();
                std::mem::swap(&mut shared.waiting, &mut woken);
                (to, woken)
            },
        }
    }

    /// One turn of a poll of this side. An event waiting in its own queue is
    /// the outcome. With an empty queue, `advance` tries to advance the
    /// producer without blocking, and `turned` says what follows. A poll is
    /// a sequence of turns up to the first that has an outcome.
    pub fn turn<
        T,
        E: Clone,
        W,
        A: FnOnce() -> Option<Poll<T, E>>,
        R: FnOnce(&T) -> Side,
        C: FnOnce() -> W,
    >(&self, shared: &mut Shared<T, E, W>, advance: A, router: R, current: C) -> (out: (
        Option<Poll<T, E>>,
        Vec<W>,
    ))
        requires
            call_requires(advance, ()),
            forall|item: T| call_requires(router, (&item,)),
            call_requires(current, ()),
        ensures
            old(shared).queues@.of(self.route()).len() > 0 ==> {
                &&& out.0 == Some(old(shared).queues@.of(self.route()).first().as_poll())
                &&& out.1@.len() == 0
                &&& final(shared).queues@ == old(shared).queues@.taken(self.route())
                &&& final(shared).waiting@ == old(shared).waiting@
            },
            old(shared).queues@.of(self.route()).len() == 0 ==> exists|
                attempt: Option<Poll<T, E>>,
            |
                call_ensures(advance, (), attempt) && turned(
                    old(shared).queues@,
                    old(shared).waiting@,
                    attempt,
                    router,
                    current,
                    out.0,
                    out.1@,
                    final(shared).queues@,
                    final(shared).waiting@,
                ),
    {
        match self.next(shared) {
            Some(msg) => (Some(msg.into_poll()), Vec::new()),
            None => {
                let attempt = advance();
                let out = match attempt {
                    None => {
                        let token = current();
                        shared.waiting.push(token);
                        proof {
                            assert(shared.waiting@.drop_last() =~= old(shared).waiting@);
                        }
                        (Some(Ok(Async::NotReady)), Vec::new())
                    },
                    Some(event) => {
                        let accepted = self.accept(shared, event, router);
                        proof {
                            assert(routed(
                                old(shared).queues@,
                                event,
                                router,
                                accepted.0,
                                shared.queues@,
                            ));
                        }
                        match accepted.0 {
                            Routed::Nothing => (Some(Ok(Async::NotReady)), accepted.1),
                            _ => (None, accepted.1),
                        }
                    },
                };
                proof {
                    assert(turned(
                        old(shared).queues@,
                        old(shared).waiting@,
                        attempt,
                        router,
                        current,
                        out.0,
                        out.1@,
                        shared.queues@,
                        shared.waiting@,
                    ));
                }
                out
            },
        }
    }
}

/// One step in the life of a fork: the producer emits an item, or a side
/// takes the oldest event of its queue.
pub enum ForkOp<T> {
    Emit(T),
    Take(Side),
}

/// The queues of a fork together with what each side has taken so far.
pub ghost struct ForkTrace<T, E> {
    pub queues: Sides<T, E>,
    pub taken: Sides<T, E>,
}

/// The effect of one step under the classifier `f`. Taking from an empty
/// queue changes nothing.
pub open spec fn fork_step<T, E>(s: ForkTrace<T, E>, op: ForkOp<T>, f: spec_fn(T) -> Side)
    -> ForkTrace<T, E> {
    match op {
        ForkOp::Emit(item) => ForkTrace {
            queues: s.queues.pushed(f(item), Msg::Item(item)),
            taken: s.taken,
        },
        ForkOp::Take(side) => if s.queues.of(side).len() > 0 {
            ForkTrace {
                queues: s.queues.taken(side),
                taken: s.taken.pushed(side, s.queues.of(side).first()),
            }
        } else {
            s
        },
    }
}

/// The effect of a sequence of steps, first to last.
pub open spec fn fork_run<T, E>(s: ForkTrace<T, E>, ops: Seq<ForkOp<T>>, f: spec_fn(T) -> Side)
    -> ForkTrace<T, E>
    decreases ops.len(),
{
    if ops.len() == 0 {
        s
    } else {
        fork_step(fork_run(s, ops.drop_last(), f), ops.last(), f)
    }
}

/// The items that the producer emits in the course of `ops`, in order.
pub open spec fn fork_emitted<T>(ops: Seq<ForkOp<T>>) -> Seq<T>
    decreases ops.len(),
{
    if ops.len() == 0 {
        Seq::empty()
    } else {
        match ops.last() {
            ForkOp::Emit(item) => fork_emitted(ops.drop_last()).push(item),
            _ => fork_emitted(ops.drop_last()),
        }
    }
}

/// The part of `items` that the classifier `f` sends to `side`, in order,
/// as the events that the side sees.
pub open spec fn share<T, E>(items: Seq<T>, f: spec_fn(T) -> Side, side: Side) -> Seq<Msg<T, E>> {
    items.filter(|item: T| f(item) == side).map_values(|item: T| Msg::<T, E>::Item(item))
}

/// Partition completeness: however emitting and taking interleave, what a
/// side has taken followed by what waits in its queue is, in order, what it
/// had at the start followed by exactly the emitted items that the
/// classifier sends to it; and every emitted item is on one side only, so
/// that the two sides together hold as many as were emitted.
pub proof fn lemma_partition_complete<T, E>(
    s: ForkTrace<T, E>,
    ops: Seq<ForkOp<T>>,
    f: spec_fn(T) -> Side,
)
    ensures
        fork_run(s, ops, f).taken.left + fork_run(s, ops, f).queues.left == s.taken.left
            + s.queues.left + share::<T, E>(fork_emitted(ops), f, Side::Left),
        fork_run(s, ops, f).taken.right + fork_run(s, ops, f).queues.right == s.taken.right
            + s.queues.right + share::<T, E>(fork_emitted(ops), f, Side::Right),
        share::<T, E>(fork_emitted(ops), f, Side::Left).len() + share::<T, E>(
            fork_emitted(ops),
            f,
            Side::Right,
        ).len() == fork_emitted(ops).len(),
    decreases ops.len(),
{
    reveal(Seq::filter);
    let is_left = |item: T| f(item) == Side::Left;
    let is_right = |item: T| f(item) == Side::Right;
    let wrap = |item: T| Msg::<T, E>::Item(item);
    if ops.len() == 0 {
        assert(share::<T, E>(fork_emitted(ops), f, Side::Left) =~= Seq::empty());
        assert(share::<T, E>(fork_emitted(ops), f, Side::Right) =~= Seq::empty());
        assert(s.taken.left + s.queues.left + Seq::<Msg<T, E>>::empty() =~= s.taken.left
            + s.queues.left);
        assert(s.taken.right + s.queues.right + Seq::<Msg<T, E>>::empty() =~= s.taken.right
            + s.queues.right);
    } else {
        let front = ops.drop_last();
        lemma_partition_complete::<T, E>(s, front, f);
        let mid = fork_run(s, front, f);
        let end = fork_run(s, ops, f);
        let before = fork_emitted(front);
        assert(end == fork_step(mid, ops.last(), f));
        match ops.last() {
            ForkOp::Emit(item) => {
                let all = before.push(item);
                assert(all.drop_last() =~= before);
                assert(all.last() == item);
                let base_left = s.taken.left + s.queues.left;
                let base_right = s.taken.right + s.queues.right;
                match f(item) {
                    Side::Left => {
                        assert(all.filter(is_left) == before.filter(is_left).push(item));
                        assert(all.filter(is_right) == before.filter(is_right));
                        assert(all.filter(is_left).map_values(wrap) =~= before.filter(
                            is_left,
                        ).map_values(wrap).push(Msg::Item(item)));
                        assert(end.taken.left + end.queues.left =~= (mid.taken.left
                            + mid.queues.left).push(Msg::Item(item)));
                        assert(base_left + share::<T, E>(all, f, Side::Left) =~= (base_left
                            + share::<T, E>(before, f, Side::Left)).push(Msg::Item(item)));
                    },
                    Side::Right => {
                        assert(all.filter(is_right) == before.filter(is_right).push(item));
                        assert(all.filter(is_left) == before.filter(is_left));
                        assert(all.filter(is_right).map_values(wrap) =~= before.filter(
                            is_right,
                        ).map_values(wrap).push(Msg::Item(item)));
                        assert(end.taken.right + end.queues.right =~= (mid.taken.right
                            + mid.queues.right).push(Msg::Item(item)));
                        assert(base_right + share::<T, E>(all, f, Side::Right) =~= (base_right
                            + share::<T, E>(before, f, Side::Right)).push(Msg::Item(item)));
                    },
                }
            },
            ForkOp::Take(side) => {
                if mid.queues.of(side).len() > 0 {
                    match side {
                        Side::Left => {
                            assert(end.taken.left + end.queues.left =~= mid.taken.left
                                + mid.queues.left);
                        },
                        Side::Right => {
                            assert(end.taken.right + end.queues.right =~= mid.taken.right
                                + mid.queues.right);
                        },
                    }
                }
            },
        }
    }
}

} // verus!
