use minirt::executor::{spawn, Executor};
use minirt::future::{CountdownFuture, Future, PollState};
use minirt::join::{join_all, JoinAll};
use minirt::reactor::Reactor;

#[test]
fn join_all_waits_for_every_member() {
    // Members resolving after distinct poll counts: the aggregate returns
    // NotReady until all have resolved, then Ready exactly once.
    let mut reactor = Reactor::new();
    let exec: minirt::executor::Executor<CountdownFuture> = minirt::executor::Executor::new();
    let waker = exec.get_waker(0);
    let members = vec![
        CountdownFuture::new(1),
        CountdownFuture::new(2),
        CountdownFuture::new(3),
    ];
    let mut joined = join_all(members);
    assert_eq!(joined.finished_count(), 0);

    assert!(matches!(joined.poll(&waker, &mut reactor), PollState::NotReady));
    assert_eq!(joined.finished_count(), 0);

    assert!(matches!(joined.poll(&waker, &mut reactor), PollState::NotReady));
    assert_eq!(joined.finished_count(), 1);

    assert!(matches!(joined.poll(&waker, &mut reactor), PollState::NotReady));
    assert_eq!(joined.finished_count(), 2);

    match joined.poll(&waker, &mut reactor) {
        PollState::Ready(out) => assert_eq!(out, ""),
        PollState::NotReady => panic!("all members resolved; the aggregate must too"),
    }
    assert_eq!(joined.finished_count(), 3);
}

#[test]
fn join_all_of_nothing_resolves_at_once() {
    let mut reactor = Reactor::new();
    let exec: minirt::executor::Executor<CountdownFuture> = minirt::executor::Executor::new();
    let waker = exec.get_waker(0);
    let mut joined = join_all(Vec::<CountdownFuture>::new());
    match joined.poll(&waker, &mut reactor) {
        PollState::Ready(out) => assert_eq!(out, ""),
        PollState::NotReady => panic!("an empty join has nothing to wait for"),
    }
}

#[test]
fn join_all_is_schedulable_as_one_task() {
    // the aggregate is itself pollable as a single suspension point
    let mut exec: Executor<JoinAll<CountdownFuture>> = Executor::new();
    let mut reactor = Reactor::new();
    spawn(
        &mut exec,
        join_all(vec![CountdownFuture::new(1), CountdownFuture::new(2)]),
    );
    exec.run_ready_tasks(&mut reactor);
    assert_eq!(exec.task_count(), 1);
    exec.get_waker(0).wake(&mut exec);
    exec.run_ready_tasks(&mut reactor);
    assert_eq!(exec.task_count(), 1);
    exec.get_waker(0).wake(&mut exec);
    exec.run_ready_tasks(&mut reactor);
    assert_eq!(exec.task_count(), 0);
}

#[test]
fn join_all_polls_every_unfinished_member_each_call() {
    let mut reactor = Reactor::new();
    let exec: minirt::executor::Executor<CountdownFuture> = minirt::executor::Executor::new();
    let waker = exec.get_waker(0);
    let mut joined = join_all(vec![CountdownFuture::new(2), CountdownFuture::new(2)]);
    assert!(matches!(joined.poll(&waker, &mut reactor), PollState::NotReady));
    assert!(matches!(joined.poll(&waker, &mut reactor), PollState::NotReady));
    // both members advanced in step, so both resolve on the same call
    match joined.poll(&waker, &mut reactor) {
        PollState::Ready(out) => assert_eq!(out, ""),
        PollState::NotReady => panic!("both members were due to resolve"),
    }
}
