use std::collections::VecDeque;
use vstd::prelude::*;

verus! {

/// The pending-item queues of the live consumers, one per consumer identity.
///
/// Its view is the map from each registered identity to that consumer's
/// queue, oldest event first.
pub struct Registry<M> {
    ids: Vec<usize>,
    queues: Vec<VecDeque<M>>,
}

/// Every queue of `queues` with `msg` appended.
pub open spec fn broadcast<M>(queues: Map<usize, Seq<M>>, msg: M) -> Map<usize, Seq<M>> {
    Map::new(|id: usize| queues.contains_key(id), |id: usize| queues[id].push(msg))
}

/// `queues` after the consumer `id` has taken the oldest event of its queue.
pub open spec fn advance<M>(queues: Map<usize, Seq<M>>, id: usize) -> Map<usize, Seq<M>> {
    queues.insert(id, queues[id].drop_first())
}

/// `after` is `before` with one clone of `msg` appended.
pub open spec fn appended<M: Clone>(before: Seq<M>, msg: M, after: Seq<M>) -> bool {
    &&& after.len() == before.len() + 1
    &&& after.drop_last() == before
    &&& cloned(msg, after.last())
}

/// Cloning `msg` can only give `msg` itself.
pub open spec fn exact_clone<M: Clone>(msg: M) -> bool {
    forall|copy: M| #[trigger] cloned(msg, copy) ==> copy == msg
}

impl<M> Registry<M> {
    /// The identities are pairwise distinct and each has its queue.
    pub closed spec fn wf(&self) -> bool {
        &&& self.ids@.len() == self.queues@.len()
        &&& self.ids@.no_duplicates()
    }

    pub closed spec fn view(&self) -> Map<usize, Seq<M>> {
        Map::new(
            |id: usize| self.ids@.contains(id),
            |id: usize| self.queues@[self.ids@.index_of(id)]@,
        )
    }

    proof fn lemma_slot(&self, i: int)
        requires
            self.wf(),
            0 <= i < self.ids@.len(),
        ensures
            self@.contains_key(self.ids@[i]),
            self@[self.ids@[i]] == self.queues@[i]@,
    {
        let id = self.ids@[i];
        assert(self.ids@.contains(id));
        let j = self.ids@.index_of(id);
        assert(0 <= j < self.ids@.len() && self.ids@[j] == id);
    }

    proof fn lemma_key(&self, id: usize) -> (i: int)
        requires
            self.wf(),
            self@.contains_key(id),
        ensures
            0 <= i < self.ids@.len(),
            self.ids@[i] == id,
            self@[id] == self.queues@[i]@,
    {
        assert(self.ids@.contains(id));
        let i = self.ids@.index_of(id);
        self.lemma_slot(i);
        i
    }

    /// A registry without any consumer.
    pub fn new() -> (registry: Self)
        ensures
            registry.wf(),
            registry@ == Map::<usize, Seq<M>>::empty(),
    {
        let registry = Registry { ids: Vec::new(), queues: Vec::new() };
        assert(registry@ =~= Map::<usize, Seq<M>>::empty());
        registry
    }

    /// The number of registered consumers.
    pub fn len(&self) -> (n: usize)
        requires
            self.wf(),
        ensures
            n == self@.dom().len(),
            self@.dom().finite(),
    {
        proof {
            self.lemma_count();
        }
        self.ids.len()
    }

    proof fn lemma_count(&self)
        requires
            self.wf(),
        ensures
            self@.dom().finite(),
            self@.dom().len() == self.ids@.len(),
    {
        self.ids@.unique_seq_to_set();
        assert(self@.dom() =~= self.ids@.to_set());
    }

    fn position(&self, id: usize) -> (slot: Option<usize>)
        requires
            self.wf(),
        ensures
            match slot {
                Some(i) => i < self.ids@.len() && self.ids@[i as int] == id,
                None => !self.ids@.contains(id),
            },
    {
        let n = self.ids.len();
        let mut i: usize = 0;
        while i < n
            invariant
                i <= n,
                n == self.ids@.len(),
                forall|j: int| 0 <= j < i ==> self.ids@[j] != id,
            decreases n - i,
        {
            if self.ids[i] == id {
                return Some(i);
            }
            i += 1;
        }
        None
    }

    /// Whether no consumer is registered.
    pub fn is_empty(&self) -> (empty: bool)
        requires
            self.wf(),
        ensures
            empty == (forall|id: usize| !self@.contains_key(id)),
    {
        proof {
            if self.ids@.len() > 0 {
                assert(self.ids@.contains(self.ids@[0]));
                assert(self@.contains_key(self.ids@[0]));
            }
        }
        self.ids.len() == 0
    }

    /// Whether a consumer is registered under `id`.
    pub fn contains(&self, id: usize) -> (found: bool)
        requires
            self.wf(),
        ensures
            found == self@.contains_key(id),
    {
        self.position(id).is_some()
    }

    /// Registers a consumer under the unused identity `id`, with an empty queue.
    pub fn insert(&mut self, id: usize)
        requires
            old(self).wf(),
            !old(self)@.contains_key(id),
        ensures
            final(self).wf(),
            final(self)@ == old(self)@.insert(id, Seq::<M>::empty()),
    {
        self.ids.push(id);
        self.queues.push(VecDeque::new());
        proof {
            let n = old(self).ids@.len() as int;
            assert(self.ids@.no_duplicates());
            assert forall|k: usize| self@.contains_key(k) <==> old(self)@.insert(
                id,
                Seq::<M>::empty(),
            ).contains_key(k) by {
                if old(self).ids@.contains(k) {
                    let j = old(self).ids@.index_of(k);
                    assert(self.ids@[j] == k);
                }
                if k == id {
                    assert(self.ids@[n] == k);
                }
            }
            assert forall|k: usize| self@.contains_key(k) implies self@[k] == old(self)@.insert(
                id,
                Seq::<M>::empty(),
            )[k] by {
                let i = self.lemma_key(k);
                if i < n {
                    assert(old(self).ids@[i] == k);
                    old(self).lemma_slot(i);
                }
            }
            assert(self@ =~= old(self)@.insert(id, Seq::<M>::empty()));
        }
    }

    /// Removes the consumer `id` and whatever is left in its queue.
    /// An identity that is not registered leaves the registry as it is.
    pub fn remove(&mut self, id: usize)
        requires
            old(self).wf(),
        ensures
            final(self).wf(),
            final(self)@ == old(self)@.remove(id),
    {
        match self.position(id) {
            Some(i) => {
                self.ids.remove(i);
                self.queues.remove(i);
                proof {
                    let before = *old(self);
                    assert(self.ids@.no_duplicates());
                    assert forall|k: usize| self@.contains_key(k) <==> before@.remove(
                        id,
                    ).contains_key(k) by {
                        if self.ids@.contains(k) {
                            let j = self.ids@.index_of(k);
                            if j < i {
                                assert(before.ids@[j] == k);
                            } else {
                                assert(before.ids@[j + 1] == k);
                            }
                        }
                        if before.ids@.contains(k) && k != id {
                            let j = before.ids@.index_of(k);
                            if j < i {
                                assert(self.ids@[j] == k);
                            } else {
                                assert(self.ids@[j - 1] == k);
                            }
                        }
                    }
                    assert forall|k: usize| self@.contains_key(k) implies self@[k] == before@.remove(
                        id,
                    )[k] by {
                        let j = self.lemma_key(k);
                        if j < i {
                            before.lemma_slot(j);
                        } else {
                            before.lemma_slot(j + 1);
                        }
                    }
                    assert(self@ =~= before@.remove(id));
                }
            },
            None => {
                assert(self@ =~= old(self)@.remove(id));
            },
        }
    }

    /// Takes the oldest event out of the queue of consumer `id`, if it holds one.
    pub fn pop_front(&mut self, id: usize) -> (msg: Option<M>)
        requires
            old(self).wf(),
            old(self)@.contains_key(id),
        ensures
            final(self).wf(),
            match msg {
                Some(m) => {
                    &&& old(self)@[id].len() > 0
                    &&& m == old(self)@[id].first()
                    &&& final(self)@ == advance(old(self)@, id)
                },
                None => {
                    &&& old(self)@[id].len() == 0
                    &&& final(self)@ == old(self)@
                },
            },
    {
        match self.position(id) {
            Some(i) => {
                proof {
                    old(self).lemma_slot(i as int);
                }
                let msg = self.queues[i].pop_front();
                proof {
                    let before = *old(self);
                    assert(self.ids@ == before.ids@);
                    assert forall|k: usize| self@.contains_key(k) implies self@[k] == (if k == id {
                        self.queues@[i as int]@
                    } else {
                        before@[k]
                    }) by {
                        let j = self.lemma_key(k);
                        before.lemma_slot(j);
                    }
                    if msg is Some {
                        assert(self@ =~= advance(before@, id));
                    } else {
                        assert(self@ =~= before@);
                    }
                }
                msg
            },
            None => unreached(),
        }
    }

    /// The number of events waiting in the queue of consumer `id`.
    pub fn pending(&self, id: usize) -> (n: usize)
        requires
            self.wf(),
            self@.contains_key(id),
        ensures
            n == self@[id].len(),
    {
        match self.position(id) {
            Some(i) => {
                proof {
                    self.lemma_slot(i as int);
                }
                self.queues[i].len()
            },
            None => unreached(),
        }
    }
}

impl<M> Registry<M> {
    /// Appends one of `copies` to the queue of every registered consumer,
    /// each copy going to one consumer.
    pub(crate) fn push_each(&mut self, copies: Vec<M>)
        requires
            old(self).wf(),
            copies@.len() == old(self)@.dom().len(),
        ensures
            final(self).wf(),
            final(self)@.dom() == old(self)@.dom(),
            forall|id: usize|
                old(self)@.contains_key(id) ==> {
                    &&& (#[trigger] final(self)@[id]).len() == old(self)@[id].len() + 1
                    &&& final(self)@[id].drop_last() == old(self)@[id]
                    &&& copies@.contains(final(self)@[id].last())
                },
            forall|msg: M|
                (forall|i: int| 0 <= i < copies@.len() ==> copies@[i] == msg) ==> final(self)@
                    == broadcast(old(self)@, msg),
    {
        let n = self.ids.len();
        proof {
            self.lemma_count();
        }
        let mut copies = copies;
        let ghost given = copies@;
        let mut i: usize = n;
        while i > 0
            invariant
                i <= n,
                n == self.queues@.len(),
                n == old(self).queues@.len(),
                n == given.len(),
                copies@ == given.subrange(0, i as int),
                self.ids@ == old(self).ids@,
                old(self).wf(),
                forall|j: int|
                    i <= j < n ==> #[trigger] self.queues@[j]@ == old(self).queues@[j]@.push(
                        given[j],
                    ),
                forall|j: int| 0 <= j < i ==> #[trigger] self.queues@[j]@ == old(self).queues@[j]@,
            decreases i,
        {
            let ghost prev = self.queues@;
            i -= 1;
            match copies.pop() {
                Some(copy) => {
                    self.queues[i].push_back(copy);
                    proof {
                        assert(copy == given[i as int]);
                        assert(copies@ =~= given.subrange(0, i as int));
                        assert(forall|j: int| 0 <= j < n && j != i ==> self.queues@[j] == prev[j]);
                    }
                },
                None => unreached(),
            }
        }
        proof {
            let before = *old(self);
            assert(self@.dom() =~= before@.dom());
            assert forall|id: usize| before@.contains_key(id) implies {
                &&& (#[trigger] self@[id]).len() == before@[id].len() + 1
                &&& self@[id].drop_last() == before@[id]
                &&& given.contains(self@[id].last())
            } by {
                let j = before.lemma_key(id);
                self.lemma_slot(j);
                assert(self@[id].drop_last() =~= before@[id]);
                assert(given[j] == self@[id].last());
            }
            assert forall|msg: M|
                (forall|i: int| 0 <= i < given.len() ==> given[i] == msg) implies self@
                == broadcast(before@, msg) by {
                assert forall|id: usize| before@.contains_key(id) implies self@[id]
                    == before@[id].push(msg) by {
                    let j = before.lemma_key(id);
                    self.lemma_slot(j);
                }
                assert(self@ =~= broadcast(before@, msg));
            }
        }
    }
}

impl<M: Clone> Registry<M> {
    /// Appends a clone of `msg` to the queue of every registered consumer.
    pub fn push_all(&mut self, msg: M)
        requires
            old(self).wf(),
        ensures
            final(self).wf(),
            final(self)@.dom() == old(self)@.dom(),
            forall|id: usize|
                old(self)@.contains_key(id) ==> appended(
                    old(self)@[id],
                    msg,
                    #[trigger] final(self)@[id],
                ),
            exact_clone(msg) ==> final(self)@ == broadcast(old(self)@, msg),
    {
        let n = self.len();
        let mut copies: Vec<M> = Vec::new();
        let mut i: usize = 0;
        while i < n
            invariant
                i <= n,
                copies@.len() == i,
                forall|j: int| 0 <= j < i ==> cloned(msg, #[trigger] copies@[j]),
            decreases n - i,
        {
            copies.push(msg.clone());
            i += 1;
        }
        self.push_each(copies);
        proof {
            if exact_clone(msg) {
                assert(forall|j: int| 0 <= j < copies@.len() ==> copies@[j] == msg);
            }
        }
    }
}

/// The queues with every event replaced by its image under `f`.
pub open spec fn relabel<A, B>(queues: Map<usize, Seq<A>>, f: spec_fn(A) -> B) -> Map<
    usize,
    Seq<B>,
> {
    Map::new(|id: usize| queues.contains_key(id), |id: usize| queues[id].map_values(f))
}

/// Relabelling commutes with a broadcast.
pub proof fn lemma_relabel_broadcast<A, B>(queues: Map<usize, Seq<A>>, f: spec_fn(A) -> B, msg: A)
    ensures
        relabel(broadcast(queues, msg), f) == broadcast(relabel(queues, f), f(msg)),
{
    assert forall|k: usize| queues.contains_key(k) implies #[trigger] relabel(
        broadcast(queues, msg),
        f,
    )[k] == broadcast(relabel(queues, f), f(msg))[k] by {
        assert(queues[k].push(msg).map_values(f) =~= queues[k].map_values(f).push(f(msg)));
    }
    assert(relabel(broadcast(queues, msg), f) =~= broadcast(relabel(queues, f), f(msg)));
}

/// Relabelling commutes with a consumer's taking an event, joining and
/// leaving, and keeps the empty registry empty.
pub proof fn lemma_relabel_consumer<A, B>(queues: Map<usize, Seq<A>>, f: spec_fn(A) -> B, id: usize)
    ensures
        queues.contains_key(id) && queues[id].len() > 0 ==> relabel(advance(queues, id), f)
            == advance(relabel(queues, f), id),
        relabel(queues.insert(id, Seq::empty()), f) == relabel(queues, f).insert(id, Seq::empty()),
        relabel(queues.remove(id), f) == relabel(queues, f).remove(id),
        relabel(Map::<usize, Seq<A>>::empty(), f) == Map::<usize, Seq<B>>::empty(),
{
    if queues.contains_key(id) && queues[id].len() > 0 {
        assert(queues[id].drop_first().map_values(f) =~= queues[id].map_values(f).drop_first());
        assert(relabel(advance(queues, id), f) =~= advance(relabel(queues, f), id));
    }
    assert(Seq::<A>::empty().map_values(f) =~= Seq::<B>::empty());
    assert(relabel(queues.insert(id, Seq::empty()), f) =~= relabel(queues, f).insert(
        id,
        Seq::empty(),
    ));
    assert(relabel(queues.remove(id), f) =~= relabel(queues, f).remove(id));
    assert(relabel(Map::<usize, Seq<A>>::empty(), f) =~= Map::<usize, Seq<B>>::empty());
}

/// One step in the life of a registry: the producer emits an event, a consumer
/// takes the oldest event of its queue, a consumer joins or leaves.
pub enum Op<M> {
    Emit(M),
    Take(usize),
    Join(usize),
    Leave(usize),
}

/// A registry together with what each consumer has taken out of it so far.
pub ghost struct Trace<M> {
    pub queues: Map<usize, Seq<M>>,
    pub taken: Map<usize, Seq<M>>,
}

/// The effect of one step. Taking from an empty queue, and joining under an
/// identity that is in use, change nothing.
pub open spec fn step<M>(s: Trace<M>, op: Op<M>) -> Trace<M> {
    match op {
        Op::Emit(msg) => Trace { queues: broadcast(s.queues, msg), taken: s.taken },
        Op::Take(id) => if s.queues.contains_key(id) && s.queues[id].len() > 0 {
            Trace {
                queues: advance(s.queues, id),
                taken: s.taken.insert(id, s.taken[id].push(s.queues[id].first())),
            }
        } else {
            s
        },
        Op::Join(id) => if s.queues.contains_key(id) {
            s
        } else {
            Trace {
                queues: s.queues.insert(id, Seq::empty()),
                taken: s.taken.insert(id, Seq::empty()),
            }
        },
        Op::Leave(id) => Trace { queues: s.queues.remove(id), taken: s.taken.remove(id) },
    }
}

/// The effect of a sequence of steps, first to last.
pub open spec fn run<M>(s: Trace<M>, ops: Seq<Op<M>>) -> Trace<M>
    decreases ops.len(),
{
    if ops.len() == 0 {
        s
    } else {
        step(run(s, ops.drop_last()), ops.last())
    }
}

/// The events that the producer emits in the course of `ops`, in order.
pub open spec fn emitted<M>(ops: Seq<Op<M>>) -> Seq<M>
    decreases ops.len(),
{
    if ops.len() == 0 {
        Seq::empty()
    } else {
        match ops.last() {
            Op::Emit(msg) => emitted(ops.drop_last()).push(msg),
            _ => emitted(ops.drop_last()),
        }
    }
}

/// The consumer `id` does not leave in the course of `ops`.
pub open spec fn stays<M>(ops: Seq<Op<M>>, id: usize) -> bool {
    forall|i: int| 0 <= i < ops.len() ==> #[trigger] ops[i] != Op::<M>::Leave(id)
}

/// Whatever the steps and their order, a consumer that stays registered has
/// taken or still holds, in order, what it had at the start followed by every
/// event emitted since: nothing is lost, added, repeated or reordered.
pub proof fn lemma_every_event_once<M>(s: Trace<M>, ops: Seq<Op<M>>, id: usize)
    requires
        s.queues.contains_key(id),
        stays(ops, id),
    ensures
        run(s, ops).queues.contains_key(id),
        run(s, ops).taken[id] + run(s, ops).queues[id] == s.taken[id] + s.queues[id] + emitted(
            ops,
        ),
    decreases ops.len(),
{
    if ops.len() == 0 {
        assert(s.taken[id] + s.queues[id] + emitted(ops) =~= s.taken[id] + s.queues[id]);
    } else {
        let front = ops.drop_last();
        assert forall|i: int| 0 <= i < front.len() implies #[trigger] front[i] != Op::<M>::Leave(
            id,
        ) by {
            assert(front[i] == ops[i]);
        }
        lemma_every_event_once(s, front, id);
        let mid = run(s, front);
        let end = run(s, ops);
        assert(end == step(mid, ops.last()));
        assert(ops[ops.len() - 1] != Op::<M>::Leave(id));
        let base = s.taken[id] + s.queues[id];
        match ops.last() {
            Op::Emit(msg) => {
                assert(end.taken[id] + end.queues[id] =~= (mid.taken[id] + mid.queues[id]).push(
                    msg,
                ));
                assert(base + emitted(ops) =~= (base + emitted(front)).push(msg));
            },
            Op::Take(other) => {
                if other == id && mid.queues[id].len() > 0 {
                    assert(end.taken[id] + end.queues[id] =~= mid.taken[id] + mid.queues[id]);
                }
            },
            Op::Join(other) => {},
            Op::Leave(other) => {},
        }
    }
}

/// Broadcast completeness: a consumer registered with nothing taken and
/// nothing pending sees exactly the emitted sequence, in order, however the
/// steps of the consumers interleave; once its queue is drained, what it has
/// taken is the whole of it.
pub proof fn lemma_broadcast_complete<M>(s: Trace<M>, ops: Seq<Op<M>>, id: usize)
    requires
        s.queues.contains_key(id),
        s.queues[id].len() == 0,
        s.taken[id].len() == 0,
        stays(ops, id),
    ensures
        run(s, ops).taken[id] + run(s, ops).queues[id] == emitted(ops),
        run(s, ops).queues[id].len() == 0 ==> run(s, ops).taken[id] == emitted(ops),
{
    lemma_every_event_once(s, ops, id);
    assert(s.taken[id] + s.queues[id] + emitted(ops) =~= emitted(ops));
    if run(s, ops).queues[id].len() == 0 {
        assert(run(s, ops).taken[id] + run(s, ops).queues[id] =~= run(s, ops).taken[id]);
    }
}

/// Running `first` and then `then` is running the two in one sequence.
pub proof fn lemma_run_concat<M>(s: Trace<M>, first: Seq<Op<M>>, then: Seq<Op<M>>)
    ensures
        run(s, first + then) == run(run(s, first), then),
    decreases then.len(),
{
    if then.len() == 0 {
        assert(first + then =~= first);
    } else {
        lemma_run_concat(s, first, then.drop_last());
        assert((first + then).drop_last() =~= first + then.drop_last());
        assert((first + then).last() == then.last());
    }
}

/// Late clone: a consumer that joins after `before` sees the events emitted
/// in `after`, all of them and in order, and none of those emitted in `before`.
pub proof fn lemma_late_clone<M>(s: Trace<M>, before: Seq<Op<M>>, id: usize, after: Seq<Op<M>>)
    requires
        !run(s, before).queues.contains_key(id),
        stays(after, id),
    ensures
        run(s, before.push(Op::Join(id)) + after).queues.contains_key(id),
        run(s, before.push(Op::Join(id)) + after).taken[id] + run(
            s,
            before.push(Op::Join(id)) + after,
        ).queues[id] == emitted(after),
{
    let joined = before.push(Op::Join(id));
    assert(joined.drop_last() =~= before);
    let at_join = run(s, joined);
    assert(at_join == step(run(s, before), Op::Join(id)));
    lemma_run_concat(s, joined, after);
    lemma_broadcast_complete(at_join, after, id);
    lemma_every_event_once(at_join, after, id);
}

/// No double delivery: one emitted event lengthens the queue of each
/// registered consumer by that one event, and over any sequence of steps a
/// consumer that stays holds the k-th emitted event at exactly one place,
/// the k-th after what it had at the start.
pub proof fn lemma_delivered_once<M>(s: Trace<M>, ops: Seq<Op<M>>, id: usize, msg: M)
    requires
        s.queues.contains_key(id),
        stays(ops, id),
    ensures
        step(s, Op::Emit(msg)).queues[id] == s.queues[id].push(msg),
        (run(s, ops).taken[id] + run(s, ops).queues[id]).len() == s.taken[id].len()
            + s.queues[id].len() + emitted(ops).len(),
        forall|k: int|
            0 <= k < emitted(ops).len() ==> (run(s, ops).taken[id] + run(s, ops).queues[id])[s.taken[id].len()
                + s.queues[id].len() + k] == #[trigger] emitted(ops)[k],
{
    lemma_every_event_once(s, ops, id);
}

/// One step from `s` to `t` in which an emitted event reaches every queue
/// as a clone of it; the other steps are those of `step`.
pub open spec fn cloning_step<M: Clone>(s: Trace<M>, op: Op<M>, t: Trace<M>) -> bool {
    match op {
        Op::Emit(msg) => {
            &&& t.taken == s.taken
            &&& t.queues.dom() == s.queues.dom()
            &&& forall|id: usize|
                s.queues.contains_key(id) ==> appended(s.queues[id], msg, #[trigger] t.queues[id])
        },
        _ => t == step(s, op),
    }
}

/// `states` is a run of `ops`, first state to last, with cloning steps.
pub open spec fn cloning_run<M: Clone>(states: Seq<Trace<M>>, ops: Seq<Op<M>>) -> bool {
    &&& states.len() == ops.len() + 1
    &&& forall|i: int|
        0 <= i < ops.len() ==> cloning_step(states[i], #[trigger] ops[i], states[i + 1])
}

/// `copies` holds, place by place, a clone of each of `msgs`.
pub open spec fn clones_of<M: Clone>(msgs: Seq<M>, copies: Seq<M>) -> bool {
    &&& copies.len() == msgs.len()
    &&& forall|k: int| 0 <= k < msgs.len() ==> cloned(msgs[k], #[trigger] copies[k])
}

/// Broadcast completeness where cloning need not give an equal value:
/// whatever the steps and their order, a consumer that stays registered has
/// taken or still holds what it had at the start, followed by one clone of
/// every event emitted since, in the order in which they were emitted.
pub proof fn lemma_every_event_cloned_once<M: Clone>(
    states: Seq<Trace<M>>,
    ops: Seq<Op<M>>,
    id: usize,
)
    requires
        cloning_run(states, ops),
        states[0].queues.contains_key(id),
        stays(ops, id),
    ensures
        states.last().queues.contains_key(id),
        ({
            let had = states[0].taken[id] + states[0].queues[id];
            let has = states.last().taken[id] + states.last().queues[id];
            &&& has.len() == had.len() + emitted(ops).len()
            &&& has.subrange(0, had.len() as int) == had
            &&& clones_of(emitted(ops), has.subrange(had.len() as int, has.len() as int))
        }),
    decreases ops.len(),
{
    let had = states[0].taken[id] + states[0].queues[id];
    if ops.len() == 0 {
        assert(had.subrange(0, had.len() as int) =~= had);
    } else {
        let front = ops.drop_last();
        let before = states.drop_last();
        assert(cloning_run(before, front)) by {
            assert forall|i: int| 0 <= i < front.len() implies cloning_step(
                before[i],
                #[trigger] front[i],
                before[i + 1],
            ) by {
                assert(cloning_step(states[i], ops[i], states[i + 1]));
            }
        }
        assert forall|i: int| 0 <= i < front.len() implies #[trigger] front[i] != Op::<M>::Leave(
            id,
        ) by {
            assert(front[i] == ops[i]);
        }
        lemma_every_event_cloned_once(before, front, id);
        let last = ops.len() - 1;
        let mid = states[last];
        let end = states[last + 1];
        assert(before.last() == mid);
        assert(states.last() == end);
        assert(cloning_step(mid, ops[last], end));
        assert(ops[last] != Op::<M>::Leave(id));
        let was = mid.taken[id] + mid.queues[id];
        let has = end.taken[id] + end.queues[id];
        let n = had.len() as int;
        match ops.last() {
            Op::Emit(msg) => {
                assert(appended(mid.queues[id], msg, end.queues[id]));
                assert(has.drop_last() =~= was);
                assert(has.subrange(0, n) =~= was.subrange(0, n));
                let seen = has.subrange(n, has.len() as int);
                assert(seen.drop_last() =~= was.subrange(n, was.len() as int));
                assert(seen.last() == end.queues[id].last());
                assert forall|k: int| 0 <= k < emitted(ops).len() implies cloned(
                    emitted(ops)[k],
                    #[trigger] seen[k],
                ) by {
                    if k < emitted(front).len() {
                        assert(seen[k] == seen.drop_last()[k]);
                    }
                }
            },
            Op::Take(other) => {
                if other == id && mid.queues[id].len() > 0 {
                    assert(has =~= was);
                }
            },
            Op::Join(other) => {},
            Op::Leave(other) => {},
        }
    }
}

} // verus!
