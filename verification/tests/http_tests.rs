use minirt::executor::Executor;
use minirt::future::{Future, PollState};
use minirt::http::{Http, HttpGetFuture};
use minirt::reactor::{IoAction, ReadOutcome, Reactor};

#[test]
fn first_poll_requests_connect_and_suspends() {
    let mut reactor = Reactor::new();
    let exec: Executor<HttpGetFuture> = Executor::new();
    let waker = exec.get_waker(0);
    let mut fut = Http::get("/600/HelloWorld", &mut reactor);
    assert_eq!(fut.path(), "/600/HelloWorld");
    let res = fut.poll(&waker, &mut reactor);
    assert!(matches!(res, PollState::NotReady));
    let actions = reactor.take_actions();
    assert_eq!(actions.len(), 1);
    assert_eq!(
        actions[0],
        IoAction::Connect { id: 1, path: "/600/HelloWorld".to_string() }
    );
    // the waker is stored under the exchange's identity
    assert_eq!(reactor.waker_for(1).unwrap().id(), 0);
}

#[test]
fn read_outcomes_drive_suspension_and_resolution() {
    // Outcomes [would-block, 5 bytes, would-block, 3 bytes, end-of-stream]:
    // NotReady twice, then Ready once with the decoded concatenation.
    let mut reactor = Reactor::new();
    let exec: Executor<HttpGetFuture> = Executor::new();
    let waker = exec.get_waker(0);
    let mut fut = Http::get("/data", &mut reactor);
    let id: usize = 1;
    assert!(matches!(fut.poll(&waker, &mut reactor), PollState::NotReady));

    reactor.supply(id, ReadOutcome::WouldBlock);
    assert!(matches!(fut.poll(&waker, &mut reactor), PollState::NotReady));

    reactor.supply(id, ReadOutcome::Chunk(b"Hello".to_vec()));
    reactor.supply(id, ReadOutcome::WouldBlock);
    assert!(matches!(fut.poll(&waker, &mut reactor), PollState::NotReady));

    reactor.supply(id, ReadOutcome::Chunk(b"Wor".to_vec()));
    reactor.supply(id, ReadOutcome::EndOfStream);
    match fut.poll(&waker, &mut reactor) {
        PollState::Ready(text) => assert_eq!(text, "HelloWor"),
        PollState::NotReady => panic!("expected the exchange to resolve"),
    }
}

#[test]
fn interrupted_reads_are_retried_not_suspended() {
    let mut reactor = Reactor::new();
    let exec: Executor<HttpGetFuture> = Executor::new();
    let waker = exec.get_waker(0);
    let mut fut = Http::get("/x", &mut reactor);
    let id: usize = 1;
    assert!(matches!(fut.poll(&waker, &mut reactor), PollState::NotReady));
    reactor.supply(id, ReadOutcome::Chunk(b"a".to_vec()));
    reactor.supply(id, ReadOutcome::Interrupted);
    reactor.supply(id, ReadOutcome::Chunk(b"b".to_vec()));
    reactor.supply(id, ReadOutcome::EndOfStream);
    match fut.poll(&waker, &mut reactor) {
        PollState::Ready(text) => assert_eq!(text, "ab"),
        PollState::NotReady => panic!("an interrupted read must not suspend"),
    }
}

#[test]
fn outcomes_beyond_a_pause_are_kept_for_the_next_poll() {
    // two readiness events may both be drained before the task runs; the
    // data beyond the first pause must not be lost
    let mut reactor = Reactor::new();
    let exec: Executor<HttpGetFuture> = Executor::new();
    let waker = exec.get_waker(0);
    let mut fut = Http::get("/x", &mut reactor);
    let id: usize = 1;
    assert!(matches!(fut.poll(&waker, &mut reactor), PollState::NotReady));
    reactor.supply(id, ReadOutcome::Chunk(b"He".to_vec()));
    reactor.supply(id, ReadOutcome::WouldBlock);
    reactor.supply(id, ReadOutcome::Chunk(b"y".to_vec()));
    reactor.supply(id, ReadOutcome::EndOfStream);
    // the first poll stops at the pause, keeping the rest pending
    assert!(matches!(fut.poll(&waker, &mut reactor), PollState::NotReady));
    // the next poll consumes what was kept and resolves
    match fut.poll(&waker, &mut reactor) {
        PollState::Ready(text) => assert_eq!(text, "Hey"),
        PollState::NotReady => panic!("the kept outcomes reach end-of-stream"),
    }
}

#[test]
fn empty_wake_returns_not_ready() {
    let mut reactor = Reactor::new();
    let exec: Executor<HttpGetFuture> = Executor::new();
    let waker = exec.get_waker(0);
    let mut fut = Http::get("/x", &mut reactor);
    assert!(matches!(fut.poll(&waker, &mut reactor), PollState::NotReady));
    // a spurious wake with nothing to read suspends again
    assert!(matches!(fut.poll(&waker, &mut reactor), PollState::NotReady));
}

#[test]
fn lossy_decoding_replaces_invalid_bytes() {
    let mut reactor = Reactor::new();
    let exec: Executor<HttpGetFuture> = Executor::new();
    let waker = exec.get_waker(0);
    let mut fut = Http::get("/x", &mut reactor);
    let id: usize = 1;
    assert!(matches!(fut.poll(&waker, &mut reactor), PollState::NotReady));
    reactor.supply(id, ReadOutcome::Chunk(vec![b'o', b'k', 0xff]));
    reactor.supply(id, ReadOutcome::EndOfStream);
    match fut.poll(&waker, &mut reactor) {
        PollState::Ready(text) => assert_eq!(text, "ok\u{fffd}"),
        PollState::NotReady => panic!("expected the exchange to resolve"),
    }
}

#[test]
fn resolution_clears_the_waker_entry() {
    // After a task resolves, its identity is absent from the waker map; a
    // later spurious readiness event for it invokes nothing.
    let mut reactor = Reactor::new();
    let exec: Executor<HttpGetFuture> = Executor::new();
    let waker = exec.get_waker(0);
    let mut fut = Http::get("/x", &mut reactor);
    let id: usize = 1;
    assert!(matches!(fut.poll(&waker, &mut reactor), PollState::NotReady));
    assert!(reactor.waker_for(id).is_some());
    reactor.supply(id, ReadOutcome::EndOfStream);
    assert!(matches!(fut.poll(&waker, &mut reactor), PollState::Ready(_)));
    assert!(reactor.waker_for(id).is_none());
    // the close of the monitored connection was requested
    let actions = reactor.take_actions();
    assert_eq!(actions.last(), Some(&IoAction::Close { id }));
}
