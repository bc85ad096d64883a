use nchctop::poller::{Poller, Wait, Worker};

#[test]
fn fetches_immediately_and_then_on_the_interval() {
    let mut poller: Poller<u32, u32> = Poller::spawn(1, 0u32);
    let initial = poller.take_requests().remove(0);
    let mut worker = Worker::starting(initial);
    poller.deliver(worker.request, Ok(worker.request));
    for _ in 0..2 {
        assert!(worker.wake(Wait::TimedOut));
        poller.deliver(worker.request, Ok(worker.request));
    }

    // Results carry the request they were fetched under.
    let mut drained = poller.drain();
    assert_eq!(drained.len(), 3);
    let (req, out) = drained.remove(0);
    assert_eq!(req, 0);
    assert_eq!(out.expect("ok"), 0);
}

#[test]
fn a_request_switches_the_parameter() {
    let mut poller: Poller<u32, u32> = Poller::spawn(30, 1u32);
    let mut worker = Worker::starting(poller.take_requests().remove(0));

    assert_eq!(worker.request, 1);

    poller.request(2);
    for next in poller.take_requests() {
        assert!(worker.wake(Wait::Asked(next)));
    }
    assert_eq!(worker.request, 2);

    // It lasts until the next one.
    assert!(worker.wake(Wait::TimedOut));
    assert_eq!(worker.request, 2);
}

#[test]
fn dropping_the_poller_stops_the_thread() {
    let mut worker = Worker::starting(0u32);

    assert!(worker.wake(Wait::TimedOut));
    let stopped = !worker.wake(Wait::Disconnected);

    assert!(stopped, "worker thread outlived the poller");
}

#[test]
fn everything_is_handed_over_once() {
    let mut poller: Poller<u32, u32> = Poller::spawn(5, 1u32);
    assert_eq!(poller.interval, 5);
    poller.request(2);
    assert_eq!(poller.take_requests(), [1, 2]);
    assert!(poller.take_requests().is_empty());
    poller.deliver(1, Err("late".to_string()));
    assert_eq!(poller.drain(), [(1, Err("late".to_string()))]);
    assert!(poller.drain().is_empty());
}
