use ex_futures::poll::Async;
use ex_futures::unsync::{unbounded, Shared, UnboundedReceiver};
use std::ops::Deref;
use std::rc::Rc;

fn drain(rx: &mut UnboundedReceiver, shared: &mut Shared<usize, u8>) -> Vec<usize> {
    let mut got = Vec::new();
    loop {
        match rx.poll(shared, || 0u8) {
            Async::Ready(Some(msg)) => got.push(*msg),
            Async::Ready(None) => return got,
            Async::NotReady => panic!("the sender is gone: the receiver cannot be waiting"),
        }
    }
}

#[test]
fn send_recv() {
    let (mut shared, tx, mut rx) = unbounded::<usize, u8>();

    tx.unbounded_send(&mut shared, 1).unwrap();

    match rx.poll(&mut shared, || 0u8) {
        Async::Ready(Some(msg)) => assert_eq!(msg.deref(), &1),
        _ => panic!("the message that was sent is not there"),
    }
}

#[test]
fn send_recv_shared() {
    let (mut shared, tx, mut rx) = unbounded::<usize, u8>();
    let mut rx2 = rx.clone(&mut shared);

    tx.unbounded_send(&mut shared, 1).unwrap();

    match rx.poll(&mut shared, || 0u8) {
        Async::Ready(Some(msg)) => assert_eq!(msg.deref(), &1),
        _ => panic!("the first receiver did not get the message"),
    }
    match rx2.poll(&mut shared, || 0u8) {
        Async::Ready(Some(msg)) => assert_eq!(msg.deref(), &1),
        _ => panic!("the second receiver did not get the message"),
    }
}

#[test]
fn send_many_items() {
    let (mut shared, tx, mut rx) = unbounded::<usize, u8>();

    for i in 0..4 {
        tx.unbounded_send(&mut shared, i).unwrap();
    }
    tx.drop(&mut shared);

    assert_eq!(drain(&mut rx, &mut shared), [0, 1, 2, 3]);
}

#[test]
fn send_many_items_recv_shared() {
    let (mut shared, tx, mut rx) = unbounded::<usize, u8>();
    let mut rx2 = rx.clone(&mut shared);
    let mut rx3 = rx.clone(&mut shared);

    for i in 0..4 {
        tx.unbounded_send(&mut shared, i).unwrap();
    }
    tx.drop(&mut shared);

    assert_eq!(drain(&mut rx, &mut shared), [0, 1, 2, 3]);
    assert_eq!(drain(&mut rx2, &mut shared), [0, 1, 2, 3]);
    assert_eq!(drain(&mut rx3, &mut shared), [0, 1, 2, 3]);
}

#[test]
fn send_without_receiver_returns_the_message() {
    let (mut shared, tx, rx) = unbounded::<usize, u8>();
    rx.drop(&mut shared);

    assert!(!shared.is_connected());
    let error = tx.unbounded_send(&mut shared, 42).unwrap_err();
    assert_eq!(error.description(), "send failed because receiver is gone");
    assert_eq!(error.into_inner(), 42);
}

#[test]
fn receiver_cloned_after_a_send_misses_it() {
    let (mut shared, tx, mut rx) = unbounded::<usize, u8>();
    tx.unbounded_send(&mut shared, 1).unwrap();
    let mut late = rx.clone(&mut shared);
    tx.unbounded_send(&mut shared, 2).unwrap();
    tx.drop(&mut shared);

    assert_eq!(drain(&mut rx, &mut shared), [1, 2]);
    assert_eq!(drain(&mut late, &mut shared), [2]);
}

#[test]
fn every_receiver_shares_one_allocation() {
    let (mut shared, tx, mut rx) = unbounded::<String, u8>();
    let mut rx2 = rx.clone(&mut shared);
    tx.unbounded_send(&mut shared, String::from("hello")).unwrap();

    let first = match rx.poll(&mut shared, || 0u8) {
        Async::Ready(Some(msg)) => msg,
        _ => panic!("nothing for the first receiver"),
    };
    let second = match rx2.poll(&mut shared, || 0u8) {
        Async::Ready(Some(msg)) => msg,
        _ => panic!("nothing for the second receiver"),
    };
    assert!(Rc::ptr_eq(&first, &second));
    assert_eq!(first.as_str(), "hello");
}

#[test]
fn waiting_receivers_are_handed_back_by_the_next_send() {
    let (mut shared, tx, mut rx) = unbounded::<usize, u8>();
    let mut rx2 = rx.clone(&mut shared);

    assert_eq!(rx.poll(&mut shared, || 7u8), Async::NotReady);
    assert_eq!(rx2.poll(&mut shared, || 9u8), Async::NotReady);

    let woken = tx.unbounded_send(&mut shared, 5).unwrap();
    assert_eq!(woken, [7, 9]);
    let woken = tx.unbounded_send(&mut shared, 6).unwrap();
    assert!(woken.is_empty());
}

#[test]
fn end_comes_after_the_backlog_and_not_before() {
    let (mut shared, tx, mut rx) = unbounded::<usize, u8>();
    tx.unbounded_send(&mut shared, 1).unwrap();
    tx.unbounded_send(&mut shared, 2).unwrap();
    assert_eq!(rx.poll(&mut shared, || 0u8), Async::Ready(Some(Rc::new(1))));
    let woken = tx.drop(&mut shared);
    assert!(woken.is_empty());

    assert_eq!(rx.poll(&mut shared, || 0u8), Async::Ready(Some(Rc::new(2))));
    assert_eq!(rx.poll(&mut shared, || 0u8), Async::Ready(None));
    assert_eq!(rx.poll(&mut shared, || 0u8), Async::Ready(None));
}

#[test]
fn dropping_the_sender_hands_back_the_waiting_receivers() {
    let (mut shared, tx, mut rx) = unbounded::<usize, u8>();
    assert_eq!(rx.poll(&mut shared, || 3u8), Async::NotReady);
    assert_eq!(tx.drop(&mut shared), [3]);
    assert_eq!(rx.poll(&mut shared, || 3u8), Async::Ready(None));
}

#[test]
fn close_ends_the_sequence_without_waking() {
    let (mut shared, mut tx, mut rx) = unbounded::<usize, u8>();
    assert_eq!(rx.poll(&mut shared, || 3u8), Async::NotReady);
    tx.close(&mut shared);
    assert_eq!(rx.poll(&mut shared, || 4u8), Async::Ready(None));
    assert_eq!(tx.drop(&mut shared), [3]);
}

#[test]
fn cloned_receivers_get_distinct_identities() {
    let (mut shared, _tx, rx) = unbounded::<usize, u8>();
    assert!(shared.has_receiver(0));
    let mut receivers = vec![rx];
    for _ in 0..50 {
        let next = receivers[0].clone(&mut shared);
        receivers.push(next);
    }
    let mut left = 51;
    for rx in receivers {
        rx.drop(&mut shared);
        left -= 1;
        assert_eq!(shared.is_connected(), left > 0);
    }
}
