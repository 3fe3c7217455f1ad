use vstd::prelude::*;

verus! {

/// What one poll of a pull-side producer can say without failing.
#[derive(Debug, PartialEq, Eq)]
pub enum Async<T> {
    /// The value is available now.
    Ready(T),
    /// No value yet: the caller is resumed when one may be available.
    NotReady,
}

/// What the push side answers to an attempt to start sending an item.
#[derive(Debug, PartialEq, Eq)]
pub enum AsyncSink<T> {
    /// The item was accepted.
    Ready,
    /// The item was not accepted and is handed back for a later attempt.
    NotReady(T),
}

/// One event of a sequence, as it is kept in a consumer's queue:
/// an item, the graceful end, or the error that ended it.
#[derive(Debug, PartialEq, Eq)]
pub enum Msg<T, E> {
    Item(T),
    End,
    Failed(E),
}

/// The outcome of one poll: `Ok(Ready(Some(item)))`, `Ok(Ready(None))` at the
/// end, `Ok(NotReady)`, or `Err(error)`.
pub type Poll<T, E> = Result<Async<Option<T>>, E>;

impl<T, E> Msg<T, E> {
    /// The poll outcome that delivers this event.
    pub open spec fn as_poll(self) -> Poll<T, E> {
        match self {
            Msg::Item(item) => Ok(Async::Ready(Some(item))),
            Msg::End => Ok(Async::Ready(None)),
            Msg::Failed(error) => Err(error),
        }
    }

    /// Turns a queued event into the poll outcome that delivers it.
    pub fn into_poll(self) -> (poll: Poll<T, E>)
        ensures
            poll == self.as_poll(),
    {
        match self {
            Msg::Item(item) => Ok(Async::Ready(Some(item))),
            Msg::End => Ok(Async::Ready(None)),
            Msg::Failed(error) => Err(error),
        }
    }
}

/// `copy` is what cloning the event `msg` may give: the same kind of event,
/// holding a clone of the payload.
pub open spec fn msg_cloned<T: Clone, E: Clone>(msg: Msg<T, E>, copy: Msg<T, E>) -> bool {
    match msg {
        Msg::Item(item) => copy matches Msg::Item(c) && cloned(item, c),
        Msg::End => copy is End,
        Msg::Failed(error) => copy matches Msg::Failed(c) && cloned(error, c),
    }
}

impl<T: Clone, E: Clone> Clone for Msg<T, E> {
    fn clone(&self) -> (copy: Self)
        ensures
            msg_cloned(*self, copy),
    {
        match self {
            Msg::Item(item) => Msg::Item(item.clone()),
            Msg::End => Msg::End,
            Msg::Failed(error) => Msg::Failed(error.clone()),
        }
    }
}

/// The event that a poll of the producer brings, if it brings one.
pub open spec fn event_of<T, E>(poll: Poll<T, E>) -> Option<Msg<T, E>> {
    match poll {
        Ok(Async::Ready(Some(item))) => Some(Msg::Item(item)),
        Ok(Async::Ready(None)) => Some(Msg::End),
        Ok(Async::NotReady) => None,
        Err(error) => Some(Msg::Failed(error)),
    }
}

/// Sorts the answer of a poll of the producer: the event, or nothing yet.
pub fn into_event<T, E>(poll: Poll<T, E>) -> (event: Option<Msg<T, E>>)
    ensures
        event == event_of(poll),
{
    match poll {
        Ok(Async::Ready(Some(item))) => Some(Msg::Item(item)),
        Ok(Async::Ready(None)) => Some(Msg::End),
        Ok(Async::NotReady) => None,
        Err(error) => Some(Msg::Failed(error)),
    }
}

/// Whatever cloning an event may give holds a clone of its payload.
pub proof fn lemma_cloned_msg<T: Clone, E: Clone>(msg: Msg<T, E>, copy: Msg<T, E>)
    requires
        cloned(msg, copy),
    ensures
        msg_cloned(msg, copy),
{
}

} // verus!
