use ex_futures::poll::{Async, AsyncSink};
use ex_futures::sink::cloneable::{cloneable, Cloneable, Shared};
use ex_futures::sink::unsync_cloneable::unsync_cloneable;

struct Target {
    items: Vec<usize>,
    closes: usize,
}

fn send_one(handle: &mut Cloneable, target: &mut Target, item: usize) {
    let sent = handle.start_send(item, |msg| {
        target.items.push(msg);
        Ok::<AsyncSink<usize>, u8>(AsyncSink::Ready)
    });
    assert_eq!(sent, Ok(AsyncSink::Ready));
}

fn finish(handle: &mut Cloneable, shared: &mut Shared, target: &mut Target) {
    let flushed = handle.poll_complete(|| Ok::<Async<()>, u8>(Async::Ready(())));
    assert_eq!(flushed, Ok(Async::Ready(())));
    let closed = handle.close(shared, || {
        target.closes += 1;
        Ok::<Async<()>, u8>(Async::Ready(()))
    });
    assert_eq!(closed, Ok(Async::Ready(())));
}

#[test]
fn send() {
    let mut target = Target { items: Vec::new(), closes: 0 };

    let (mut shared, mut cloneable) = cloneable();
    let mut cloneable2 = cloneable.clone(&mut shared);

    for i in 0..2 {
        send_one(&mut cloneable, &mut target, i);
    }
    finish(&mut cloneable, &mut shared, &mut target);
    assert_eq!(target.closes, 0);
    for i in 0..2 {
        send_one(&mut cloneable2, &mut target, i);
    }
    finish(&mut cloneable2, &mut shared, &mut target);

    assert_eq!(target.items, [0, 1, 0, 1]);
    assert_eq!(target.closes, 1);
}

#[test]
fn sink_cloneable_join() {
    let mut target = Target { items: Vec::new(), closes: 0 };

    let (mut shared, mut cloneable) = cloneable();
    let mut cloneable2 = cloneable.clone(&mut shared);

    for i in 0..2 {
        send_one(&mut cloneable, &mut target, i);
        send_one(&mut cloneable2, &mut target, i);
    }
    finish(&mut cloneable2, &mut shared, &mut target);
    assert_eq!(target.closes, 0);
    finish(&mut cloneable, &mut shared, &mut target);

    assert_eq!(target.items, [0, 0, 1, 1]);
    assert_eq!(target.closes, 1);
}

#[test]
fn only_the_last_close_is_forwarded() {
    let (mut shared, mut first) = cloneable();
    assert_eq!(shared.sender_count(), 1);
    let mut handles = vec![first.clone(&mut shared), first.clone(&mut shared)];
    handles.push(handles[0].clone(&mut shared));
    assert_eq!(shared.sender_count(), 4);

    assert!(!handles[1].release(&mut shared));
    assert!(handles[1].closed());
    assert!(!first.release(&mut shared));
    assert!(!handles[2].release(&mut shared));
    assert_eq!(shared.sender_count(), 1);
    assert!(!handles[0].closed());
    assert!(handles[0].release(&mut shared));
    assert_eq!(shared.sender_count(), 0);
}

#[test]
fn a_dropped_open_handle_is_counted_out_without_closing() {
    let (mut shared, first) = cloneable();
    let mut second = first.clone(&mut shared);
    first.drop(&mut shared);
    assert_eq!(shared.sender_count(), 1);
    assert!(second.release(&mut shared));
    second.drop(&mut shared);
    assert_eq!(shared.sender_count(), 0);
}

#[test]
fn the_underlying_answer_comes_back_unchanged() {
    let (mut shared, mut handle) = unsync_cloneable();
    let busy = handle.start_send(5usize, |msg| Ok::<AsyncSink<usize>, u8>(AsyncSink::NotReady(msg)));
    assert_eq!(busy, Ok(AsyncSink::NotReady(5)));
    let failed = handle.start_send(6usize, |_| Err::<AsyncSink<usize>, u8>(2));
    assert_eq!(failed, Err(2));
    let flushing = handle.poll_complete(|| Ok::<Async<()>, u8>(Async::NotReady));
    assert_eq!(flushing, Ok(Async::NotReady));

    let mut other = handle.clone(&mut shared);
    let early = other.close(&mut shared, || Err::<Async<()>, u8>(9));
    assert_eq!(early, Ok(Async::Ready(())));
    let last = handle.close(&mut shared, || Err::<Async<()>, u8>(9));
    assert_eq!(last, Err(9));
    assert!(handle.closed());
    other.drop(&mut shared);
    handle.drop(&mut shared);
    assert_eq!(shared.sender_count(), 0);
}
