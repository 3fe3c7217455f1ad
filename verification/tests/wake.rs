use ex_futures::poll::Async;
use ex_futures::unsync::unbounded;
use ex_futures::wake::notify_all;
use futures::executor::{spawn, Notify};
use futures::future::lazy;
use futures::task::{self, Task};
use std::sync::atomic::{AtomicUsize, Ordering};
use std::sync::Arc;

struct Seen(AtomicUsize);

impl Notify for Seen {
    fn notify(&self, id: usize) {
        self.0.fetch_add(id, Ordering::SeqCst);
    }
}

#[test]
fn a_task_that_waited_is_notified_after_the_send() {
    let seen = Arc::new(Seen(AtomicUsize::new(0)));
    let (mut shared, tx, mut rx) = unbounded::<usize, Task>();

    {
        let mut waiting = spawn(lazy(|| {
            assert_eq!(rx.poll(&mut shared, || task::current()), Async::NotReady);
            Ok::<(), ()>(())
        }));
        waiting.poll_future_notify(&seen, 5).unwrap();
    }

    let woken = tx.unbounded_send(&mut shared, 1).unwrap();
    assert_eq!(woken.len(), 1);
    assert_eq!(seen.0.load(Ordering::SeqCst), 0);
    notify_all(woken);
    assert_eq!(seen.0.load(Ordering::SeqCst), 5);

    notify_all(Vec::new());
    assert_eq!(seen.0.load(Ordering::SeqCst), 5);
}
