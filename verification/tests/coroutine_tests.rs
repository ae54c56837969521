use minirt::coroutine::{async_main, Coroutine};
use minirt::executor::{spawn, Executor};
use minirt::reactor::{IoAction, ReadOutcome, Reactor};

#[test]
fn coroutine_runs_both_exchanges_to_completion() {
    // Full scheduling round: a coroutine awaiting two exchanges is spawned,
    // suspended on I/O twice, woken by simulated readiness, and retired.
    let mut reactor = Reactor::new();
    let mut exec: Executor<Coroutine> = Executor::new();
    let first_id: usize = 1;
    let second_id: usize = 2;

    let coroutine = Coroutine::new(&mut reactor);
    spawn(&mut exec, coroutine);
    exec.run_ready_tasks(&mut reactor);

    // the initial poll opened the first exchange and suspended
    assert_eq!(exec.task_count(), 1);
    let actions = reactor.take_actions();
    assert_eq!(actions.len(), 1);
    assert_eq!(
        actions[0],
        IoAction::Connect { id: first_id, path: "/600/HelloWorld".to_string() }
    );

    // first response arrives; the readiness event finds the stored waker
    reactor.supply(first_id, ReadOutcome::Chunk(b"first".to_vec()));
    reactor.supply(first_id, ReadOutcome::EndOfStream);
    let waker = reactor.waker_for(first_id).expect("a waker must be registered");
    waker.wake(&mut exec);
    exec.run_ready_tasks(&mut reactor);

    // the coroutine consumed the first response and opened the second
    // exchange; the first identity is fully retired
    assert_eq!(exec.task_count(), 1);
    assert!(reactor.waker_for(first_id).is_none());
    let actions = reactor.take_actions();
    assert_eq!(actions.len(), 2);
    assert_eq!(actions[0], IoAction::Close { id: first_id });
    assert_eq!(
        actions[1],
        IoAction::Connect { id: second_id, path: "/400/HelloWorld2".to_string() }
    );

    // second response arrives; the coroutine resolves and is retired
    reactor.supply(second_id, ReadOutcome::Chunk(b"second".to_vec()));
    reactor.supply(second_id, ReadOutcome::EndOfStream);
    let waker = reactor.waker_for(second_id).expect("a waker must be registered");
    waker.wake(&mut exec);
    exec.run_ready_tasks(&mut reactor);

    assert_eq!(exec.task_count(), 0);
    assert!(reactor.waker_for(second_id).is_none());
    let actions = reactor.take_actions();
    assert_eq!(actions.len(), 1);
    assert_eq!(actions[0], IoAction::Close { id: second_id });
}

#[test]
fn partial_reads_keep_the_coroutine_suspended() {
    let mut reactor = Reactor::new();
    let mut exec: Executor<Coroutine> = Executor::new();
    let first_id: usize = 1;

    spawn(&mut exec, async_main(&mut reactor));
    exec.run_ready_tasks(&mut reactor);

    // data that does not reach end-of-stream leaves the task suspended
    reactor.supply(first_id, ReadOutcome::Chunk(b"par".to_vec()));
    reactor.supply(first_id, ReadOutcome::WouldBlock);
    reactor.waker_for(first_id).unwrap().wake(&mut exec);
    exec.run_ready_tasks(&mut reactor);
    assert_eq!(exec.task_count(), 1);

    // the rest arrives: the first exchange resolves, the second one opens
    reactor.supply(first_id, ReadOutcome::Chunk(b"tial".to_vec()));
    reactor.supply(first_id, ReadOutcome::EndOfStream);
    reactor.waker_for(first_id).unwrap().wake(&mut exec);
    exec.run_ready_tasks(&mut reactor);
    assert_eq!(exec.task_count(), 1);
    assert!(reactor.waker_for(first_id).is_none());
}
