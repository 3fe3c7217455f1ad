use ex_futures::poll::{Async, Msg, Poll};
use ex_futures::stream::fork::{fork, route_event, Fork, Queues, Routed, Shared, Side};
use ex_futures::stream::unsync_fork::{unsync_fork, UnsyncFork};
use std::collections::VecDeque;

fn next_of<T>(source: &mut VecDeque<T>) -> Poll<T, u8> {
    Ok(Async::Ready(source.pop_front()))
}

fn is_even(i: &usize) -> Side {
    Side::from(i % 2 == 0)
}

fn collect<T, R: Fn(&T) -> Side>(
    side: &Fork,
    shared: &mut Shared<T, u8, u8>,
    source: &mut VecDeque<T>,
    router: R,
) -> Vec<T> {
    let mut got = Vec::new();
    loop {
        match side.turn(shared, || Some(next_of(source)), |item: &T| router(item), || 0u8).0 {
            None => {}
            Some(Ok(Async::Ready(Some(item)))) => got.push(item),
            Some(Ok(Async::Ready(None))) => return got,
            Some(Ok(Async::NotReady)) => panic!("the source is always ready"),
            Some(Err(_)) => panic!("the source never fails"),
        }
    }
}

fn collect_unsync<T, R: Fn(&T) -> Side>(
    side: &UnsyncFork,
    queues: &mut Queues<T, u8>,
    source: &mut VecDeque<T>,
    router: R,
) -> Vec<T> {
    let mut got = Vec::new();
    loop {
        match side.turn(queues, || next_of(source), |item: &T| router(item)) {
            None => {}
            Some(Ok(Async::Ready(Some(item)))) => got.push(item),
            Some(Ok(Async::Ready(None))) => return got,
            Some(Ok(Async::NotReady)) => panic!("the source is always ready"),
            Some(Err(_)) => panic!("the source never fails"),
        }
    }
}

#[test]
fn method_should_not_panic() {
    let mut source: VecDeque<usize> = (0..8).collect();

    let (mut shared, even, odd) = fork::<usize, u8, u8>();

    assert_eq!(collect(&even, &mut shared, &mut source, is_even), [0, 2, 4, 6]);
    assert_eq!(collect(&odd, &mut shared, &mut source, is_even), [1, 3, 5, 7]);
}

#[test]
fn stream_fork_interval() {
    let mut source: VecDeque<u8> = (0..4_u8).collect();

    let (mut shared, zero, other) = fork::<u8, u8, u8>();
    let router = |i: &u8| Side::from(*i == 0_u8);

    assert_eq!(collect(&zero, &mut shared, &mut source, router), [0]);
    assert_eq!(collect(&other, &mut shared, &mut source, router), [1, 2, 3]);
}

#[test]
fn stream_fork_join() {
    let mut source: VecDeque<u8> = (0..4u8).collect();

    let (mut shared, odd, even) = fork::<u8, u8, u8>();
    let router = |i: &u8| Side::from(i % 2 == 1);

    let mut res1 = Vec::new();
    let mut res2 = Vec::new();
    let mut done1 = false;
    let mut done2 = false;
    while !(done1 && done2) {
        if !done1 {
            match odd.turn(&mut shared, || Some(next_of(&mut source)), router, || 1u8).0 {
                Some(Ok(Async::Ready(Some(item)))) => res1.push(item),
                Some(Ok(Async::Ready(None))) => done1 = true,
                _ => {}
            }
        }
        if !done2 {
            match even.turn(&mut shared, || Some(next_of(&mut source)), router, || 2u8).0 {
                Some(Ok(Async::Ready(Some(item)))) => res2.push(item),
                Some(Ok(Async::Ready(None))) => done2 = true,
                _ => {}
            }
        }
    }

    assert_eq!(res1, [1, 3]);
    assert_eq!(res2, [0, 2]);
}

#[test]
fn unsync_fork_partitions_by_the_router() {
    let mut source: VecDeque<usize> = (0..8).collect();

    let (mut queues, even, odd) = unsync_fork::<usize, u8>();
    assert_eq!(even.side(), Side::Left);
    assert_eq!(odd.side(), Side::Right);

    assert_eq!(collect_unsync(&odd, &mut queues, &mut source, is_even), [1, 3, 5, 7]);
    assert_eq!(collect_unsync(&even, &mut queues, &mut source, is_even), [0, 2, 4, 6]);
}

#[test]
fn true_is_left_and_false_is_right() {
    assert_eq!(Side::from(true), Side::Left);
    assert_eq!(Side::from(false), Side::Right);
}

#[test]
fn an_item_goes_to_one_side_only() {
    let mut queues: Queues<usize, u8> = Queues::new();
    let to = route_event(&mut queues, Ok(Async::Ready(Some(3))), is_even);
    assert_eq!(to, Routed::To(Side::Right));
    assert_eq!(queues.left.len(), 0);
    assert_eq!(queues.right.len(), 1);
    assert_eq!(queues.pop(Side::Left), None);
    assert_eq!(queues.pop(Side::Right), Some(Msg::Item(3)));
    assert_eq!(queues.pop(Side::Right), None);
}

#[test]
fn the_end_and_an_error_go_to_both_sides() {
    let mut queues: Queues<usize, u8> = Queues::new();
    assert_eq!(route_event(&mut queues, Err(7u8), is_even), Routed::Both);
    assert_eq!(route_event(&mut queues, Ok(Async::Ready(None)), is_even), Routed::Both);
    assert_eq!(route_event(&mut queues, Ok(Async::NotReady), is_even), Routed::Nothing);
    assert_eq!(queues.pop(Side::Left), Some(Msg::Failed(7)));
    assert_eq!(queues.pop(Side::Left), Some(Msg::End));
    assert_eq!(queues.pop(Side::Left), None);
    assert_eq!(queues.pop(Side::Right), Some(Msg::Failed(7)));
    assert_eq!(queues.pop(Side::Right), Some(Msg::End));
    assert_eq!(queues.pop(Side::Right), None);
}

#[test]
fn queues_push_and_borrow_by_side() {
    let mut queues: Queues<usize, u8> = Queues::new();
    queues.get_queue_mut(Side::Left).push_back(Msg::Item(1));
    queues.get_queue_mut(Side::Right).push_back(Msg::Item(2));
    queues.push_none();
    queues.push_err(5);
    queues.push_to(Side::Left, Msg::Item(9));
    let left: Vec<Msg<usize, u8>> = queues.left.drain(..).collect();
    let right: Vec<Msg<usize, u8>> = queues.right.drain(..).collect();
    assert_eq!(left, [Msg::Item(1), Msg::End, Msg::Failed(5), Msg::Item(9)]);
    assert_eq!(right, [Msg::Item(2), Msg::End, Msg::Failed(5)]);
}

#[test]
fn a_side_that_loses_the_race_waits_and_is_woken_by_the_next_event() {
    let (mut shared, left, right) = fork::<usize, u8, u8>();

    let (out, woken) = left.turn(&mut shared, || None, is_even, || 21u8);
    assert_eq!(out, Some(Ok(Async::NotReady)));
    assert!(woken.is_empty());
    assert_eq!(shared.waiting, [21]);

    let (out, woken) = right.turn(&mut shared, || Some(Ok(Async::NotReady)), is_even, || 22u8);
    assert_eq!(out, Some(Ok(Async::NotReady)));
    assert!(woken.is_empty());
    assert_eq!(shared.waiting, [21]);

    let (out, woken) = right.turn(&mut shared, || Some(Ok(Async::Ready(Some(4)))), is_even, || 22u8);
    assert_eq!(out, None);
    assert_eq!(woken, [21]);
    assert!(shared.waiting.is_empty());

    let (out, _) = left.turn(&mut shared, || None, is_even, || 21u8);
    assert_eq!(out, Some(Ok(Async::Ready(Some(4)))));
}

#[test]
fn an_error_ends_both_sides() {
    let (mut shared, left, right) = fork::<usize, u8, u8>();
    left.wait(&mut shared, 1u8);
    let (to, woken) = right.accept(&mut shared, Err(3u8), is_even);
    assert_eq!(to, Routed::Both);
    assert_eq!(woken, [1]);
    assert_eq!(left.next(&mut shared), Some(Msg::Failed(3)));
    assert_eq!(right.next(&mut shared), Some(Msg::Failed(3)));
    assert_eq!(right.next(&mut shared), None);
}
