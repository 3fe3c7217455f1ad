use ex_futures::poll::{Async, Msg, Poll};
use ex_futures::stream::cloneable::cloneable;
use std::collections::VecDeque;

fn next_of(source: &mut VecDeque<usize>) -> Option<Poll<usize, u8>> {
    Some(Ok(Async::Ready(source.pop_front())))
}

#[test]
fn every_clone_collects_the_whole_sequence() {
    let mut source: VecDeque<usize> = (0..4).collect();

    let (mut shared, mut first) = cloneable::<usize, u8, u8>();
    let mut second = first.clone(&mut shared);

    let mut got = Vec::new();
    while let Ok(Async::Ready(Some(item))) =
        first.poll(&mut shared, || next_of(&mut source), || 0u8).0
    {
        got.push(item);
    }
    assert_eq!(got, [0, 1, 2, 3]);

    let mut got = Vec::new();
    while let Ok(Async::Ready(Some(item))) =
        second.poll(&mut shared, || next_of(&mut source), || 0u8).0
    {
        got.push(item);
    }
    assert_eq!(got, [0, 1, 2, 3]);
    assert_eq!(source.len(), 0);
}

#[test]
fn losing_the_race_registers_for_a_wakeup() {
    let (mut shared, mut first) = cloneable::<usize, u8, u8>();
    let mut second = first.clone(&mut shared);

    let (out, woken) = first.poll(&mut shared, || None, || 31u8);
    assert_eq!(out, Ok(Async::NotReady));
    assert!(woken.is_empty());

    let (out, woken) = second.poll(&mut shared, || Some(Ok(Async::NotReady)), || 32u8);
    assert_eq!(out, Ok(Async::NotReady));
    assert!(woken.is_empty());

    let (out, woken) = second.poll(&mut shared, || Some(Ok(Async::Ready(Some(8)))), || 32u8);
    assert_eq!(out, Ok(Async::Ready(Some(8))));
    assert_eq!(woken, [31]);

    let (out, woken) = first.poll(&mut shared, || None, || 31u8);
    assert_eq!(out, Ok(Async::Ready(Some(8))));
    assert!(woken.is_empty());
}

#[test]
fn deliver_reaches_every_consumer_and_wakes_the_waiting() {
    let (mut shared, first) = cloneable::<usize, u8, u8>();
    let second = first.clone(&mut shared);
    first.wait(&mut shared, 1u8);
    second.wait(&mut shared, 2u8);

    let (came, woken) = first.deliver(&mut shared, Ok(Async::NotReady));
    assert!(!came);
    assert!(woken.is_empty());

    let (came, woken) = first.deliver(&mut shared, Ok(Async::Ready(None)));
    assert!(came);
    assert_eq!(woken, [1, 2]);
    assert_eq!(first.next(&mut shared), Some(Msg::End));
    assert_eq!(second.next(&mut shared), Some(Msg::End));
    assert_eq!(second.next(&mut shared), None);
}

#[test]
fn a_dropped_clone_is_forgotten() {
    let (mut shared, first) = cloneable::<usize, u8, u8>();
    let second = first.clone(&mut shared);
    assert!(shared.has_receiver(0));
    assert!(shared.has_receiver(1));
    second.drop(&mut shared);
    assert!(!shared.has_receiver(1));
    let (came, _) = first.deliver(&mut shared, Err(2u8));
    assert!(came);
    assert_eq!(first.next(&mut shared), Some(Msg::Failed(2)));
}
