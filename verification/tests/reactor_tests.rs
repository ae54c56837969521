use minirt::executor::Executor;
use minirt::http::HttpGetFuture;
use minirt::reactor::{IoAction, ReadOutcome, Reactor};

#[test]
fn next_id_is_fresh_and_monotonic() {
    let mut reactor = Reactor::new();
    let a = reactor.next_id();
    let b = reactor.next_id();
    let c = reactor.next_id();
    assert_eq!(a, 1);
    assert_eq!(b, 2);
    assert_eq!(c, 3);
}

#[test]
fn set_waker_stores_and_replaces() {
    let mut reactor = Reactor::new();
    let exec: Executor<HttpGetFuture> = Executor::new();
    let w1 = exec.get_waker(10);
    let w2 = exec.get_waker(20);
    let id = reactor.next_id();
    assert!(reactor.waker_for(id).is_none());
    reactor.set_waker(&w1, id);
    assert_eq!(reactor.waker_for(id).unwrap().id(), 10);
    // the most recent registration wins: replaced, not merged
    reactor.set_waker(&w2, id);
    assert_eq!(reactor.waker_for(id).unwrap().id(), 20);
}

#[test]
fn deregister_drops_waker_and_requests_close() {
    let mut reactor = Reactor::new();
    let exec: Executor<HttpGetFuture> = Executor::new();
    let id = reactor.next_id();
    reactor.set_waker(&exec.get_waker(4), id);
    let _ = reactor.take_actions();
    reactor.deregister(id);
    assert!(reactor.waker_for(id).is_none());
    let actions = reactor.take_actions();
    assert_eq!(actions.len(), 1);
    assert_eq!(actions[0], IoAction::Close { id });
}

#[test]
fn spurious_event_for_unknown_identity_invokes_nothing() {
    let mut reactor = Reactor::new();
    let exec: Executor<HttpGetFuture> = Executor::new();
    let id = reactor.next_id();
    reactor.set_waker(&exec.get_waker(0), id);
    // an identity that was never registered yields no waker
    assert!(reactor.waker_for(id + 1).is_none());
}

#[test]
fn supply_and_take_incoming_keep_order() {
    let mut reactor = Reactor::new();
    let id = reactor.next_id();
    reactor.supply(id, ReadOutcome::Chunk(vec![1, 2]));
    reactor.supply(id, ReadOutcome::WouldBlock);
    let batch = reactor.take_incoming(id);
    assert_eq!(batch.len(), 2);
    assert_eq!(batch[0], ReadOutcome::Chunk(vec![1, 2]));
    assert_eq!(batch[1], ReadOutcome::WouldBlock);
    // taking leaves nothing pending
    assert!(reactor.take_incoming(id).is_empty());
}
