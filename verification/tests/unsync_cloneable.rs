use ex_futures::poll::{Async, Msg, Poll};
use ex_futures::registry::Registry;
use ex_futures::unsync::clone::{find_id, into_cloneable, next_id, Cloneable, Shared};
use std::collections::VecDeque;
use std::rc::Rc;

fn next_of(source: &mut VecDeque<usize>) -> Poll<usize, u8> {
    Ok(Async::Ready(source.pop_front()))
}

fn collect(
    handle: &Cloneable,
    shared: &mut Shared<usize, u8, u8>,
    source: &mut VecDeque<usize>,
) -> Vec<usize> {
    let mut got = Vec::new();
    loop {
        match handle.poll(shared, || next_of(source), || 0u8).0 {
            Ok(Async::Ready(Some(item))) => got.push(*item),
            Ok(Async::Ready(None)) => return got,
            Ok(Async::NotReady) => panic!("the source is always ready"),
            Err(_) => panic!("the source never fails"),
        }
    }
}

#[test]
fn unsync_cloneable_clone() {
    let mut source: VecDeque<usize> = (0..4).collect();

    let (mut shared, cloneable) = into_cloneable::<usize, u8, u8>();
    let cloneable2 = cloneable.clone(&mut shared);

    assert_eq!(collect(&cloneable, &mut shared, &mut source), [0, 1, 2, 3]);
    assert_eq!(collect(&cloneable2, &mut shared, &mut source), [0, 1, 2, 3]);
}

#[test]
fn next_id_wraps_around() {
    assert_eq!(next_id(0), 1);
    assert_eq!(next_id(41), 42);
    assert_eq!(next_id(usize::MAX), 0);
}

#[test]
fn find_id_skips_the_identities_in_use() {
    let mut receivers: Registry<u8> = Registry::new();
    assert_eq!(find_id(5, &receivers), 5);
    receivers.insert(5);
    receivers.insert(6);
    receivers.insert(8);
    assert_eq!(find_id(5, &receivers), 7);
    assert_eq!(find_id(8, &receivers), 9);
    assert_eq!(find_id(9, &receivers), 9);
    receivers.insert(usize::MAX);
    receivers.insert(0);
    assert_eq!(find_id(usize::MAX, &receivers), 1);
}

#[test]
fn a_waiting_consumer_is_handed_back_when_an_event_comes() {
    let (mut shared, first) = into_cloneable::<usize, u8, u8>();
    let second = first.clone(&mut shared);

    let (out, woken) = first.accept(&mut shared, Ok(Async::NotReady), || 11u8);
    assert_eq!(out, Ok(Async::NotReady));
    assert!(woken.is_empty());

    let (out, woken) = second.accept(&mut shared, Ok(Async::Ready(Some(5))), || 12u8);
    assert_eq!(out, Ok(Async::Ready(Some(Rc::new(5)))));
    assert_eq!(woken, [11]);

    assert_eq!(first.next(&mut shared), Some(Msg::Item(Rc::new(5))));
    assert_eq!(first.next(&mut shared), None);
    assert_eq!(second.next(&mut shared), None);
}

#[test]
fn an_error_reaches_every_consumer() {
    let (mut shared, first) = into_cloneable::<usize, u8, u8>();
    let second = first.clone(&mut shared);

    let (out, _) = first.accept(&mut shared, Err(9u8), || 0u8);
    assert_eq!(out, Err(Rc::new(9)));
    assert_eq!(second.next(&mut shared), Some(Msg::Failed(Rc::new(9))));
}

#[test]
fn a_dropped_consumer_leaves_the_registry() {
    let (mut shared, first) = into_cloneable::<usize, u8, u8>();
    let second = first.clone(&mut shared);
    assert!(shared.has_receiver(0));
    assert!(shared.has_receiver(1));
    second.drop(&mut shared);
    assert!(!shared.has_receiver(1));
    let third = first.clone(&mut shared);
    third.drop(&mut shared);
    assert!(shared.has_receiver(0));
}
