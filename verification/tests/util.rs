use ex_futures::poll::{into_event, Async, Msg};
use ex_futures::registry::Registry;
use ex_futures::util::Should;

#[test]
fn should_holds_its_item_until_taken() {
    let mut should = Should::new(String::from("a"));
    assert!(should.is_present());
    assert_eq!(should.as_ref(), "a");
    should.as_mut().push('b');
    assert_eq!(should.as_ref(), "ab");
    assert_eq!(should.take(), "ab");
    assert!(!should.is_present());
}

#[test]
fn events_turn_into_poll_outcomes_and_back() {
    assert_eq!(Msg::<u8, u8>::Item(1).into_poll(), Ok(Async::Ready(Some(1))));
    assert_eq!(Msg::<u8, u8>::End.into_poll(), Ok(Async::Ready(None)));
    assert_eq!(Msg::<u8, u8>::Failed(2).into_poll(), Err(2));
    assert_eq!(into_event::<u8, u8>(Ok(Async::Ready(Some(1)))), Some(Msg::Item(1)));
    assert_eq!(into_event::<u8, u8>(Ok(Async::Ready(None))), Some(Msg::End));
    assert_eq!(into_event::<u8, u8>(Err(2)), Some(Msg::Failed(2)));
    assert_eq!(into_event::<u8, u8>(Ok(Async::NotReady)), None);
    assert_eq!(Msg::<u8, u8>::Item(3).clone(), Msg::Item(3));
    assert_eq!(Msg::<u8, u8>::End.clone(), Msg::End);
    assert_eq!(Msg::<u8, u8>::Failed(4).clone(), Msg::Failed(4));
}

#[test]
fn registry_keeps_one_queue_per_identity() {
    let mut registry: Registry<u8> = Registry::new();
    assert!(registry.is_empty());
    registry.insert(3);
    registry.insert(9);
    assert_eq!(registry.len(), 2);
    assert!(registry.contains(3));
    assert!(!registry.contains(4));

    registry.push_all(1);
    registry.push_all(2);
    registry.insert(5);
    registry.push_all(7);
    assert_eq!(registry.pending(3), 3);
    assert_eq!(registry.pending(5), 1);

    assert_eq!(registry.pop_front(3), Some(1));
    assert_eq!(registry.pop_front(3), Some(2));
    assert_eq!(registry.pop_front(3), Some(7));
    assert_eq!(registry.pop_front(3), None);
    assert_eq!(registry.pop_front(5), Some(7));
    assert_eq!(registry.pop_front(9), Some(1));

    registry.remove(9);
    registry.remove(4);
    assert!(!registry.contains(9));
    assert_eq!(registry.len(), 2);
    registry.push_all(8);
    assert_eq!(registry.pop_front(5), Some(8));
}
