use minirt::executor::{spawn, Executor};
use minirt::future::CountdownFuture;
use minirt::reactor::Reactor;

#[test]
fn spawn_enqueues_for_one_initial_poll() {
    let mut exec: Executor<CountdownFuture> = Executor::new();
    let mut reactor = Reactor::new();
    spawn(&mut exec, CountdownFuture::new(0));
    assert_eq!(exec.task_count(), 1);
    assert_eq!(exec.ready_len(), 1);
    // the one guaranteed poll resolves a zero-step future immediately
    exec.run_ready_tasks(&mut reactor);
    assert_eq!(exec.task_count(), 0);
    assert_eq!(exec.ready_len(), 0);
}

#[test]
fn pop_ready_takes_oldest_first() {
    // ready tasks leave the queue in the order they were enqueued
    let mut exec: Executor<CountdownFuture> = Executor::new();
    spawn(&mut exec, CountdownFuture::new(5));
    spawn(&mut exec, CountdownFuture::new(5));
    assert_eq!(exec.pop_ready(), Some(0));
    assert_eq!(exec.pop_ready(), Some(1));
    assert_eq!(exec.pop_ready(), None);
}

#[test]
fn not_ready_task_returns_to_table_not_queue() {
    let mut exec: Executor<CountdownFuture> = Executor::new();
    let mut reactor = Reactor::new();
    spawn(&mut exec, CountdownFuture::new(2));
    exec.run_ready_tasks(&mut reactor);
    // the task is pending again, but not enqueued: it awaits a wake
    assert_eq!(exec.task_count(), 1);
    assert_eq!(exec.ready_len(), 0);
}

#[test]
fn woken_tasks_are_polled_before_the_next_park() {
    let mut exec: Executor<CountdownFuture> = Executor::new();
    let mut reactor = Reactor::new();
    spawn(&mut exec, CountdownFuture::new(3));
    spawn(&mut exec, CountdownFuture::new(4));
    exec.run_ready_tasks(&mut reactor);
    // wake both; one sweep must poll each of them once
    exec.get_waker(0).wake(&mut exec);
    exec.get_waker(1).wake(&mut exec);
    exec.run_ready_tasks(&mut reactor);
    let first = exec.get_future(0).unwrap();
    let second = exec.get_future(1).unwrap();
    assert_eq!(first.remaining(), 1);
    assert_eq!(second.remaining(), 2);
    exec.insert_task(0, first);
    exec.insert_task(1, second);
}

#[test]
fn wake_after_retirement_is_skipped() {
    let mut exec: Executor<CountdownFuture> = Executor::new();
    let mut reactor = Reactor::new();
    spawn(&mut exec, CountdownFuture::new(0));
    exec.run_ready_tasks(&mut reactor);
    assert_eq!(exec.task_count(), 0);
    // a stale wake for the retired identity is tolerated silently
    exec.get_waker(0).wake(&mut exec);
    exec.run_ready_tasks(&mut reactor);
    assert_eq!(exec.task_count(), 0);
    assert_eq!(exec.ready_len(), 0);
}

#[test]
fn identities_are_never_reused() {
    let mut exec: Executor<CountdownFuture> = Executor::new();
    let mut reactor = Reactor::new();
    spawn(&mut exec, CountdownFuture::new(0));
    exec.run_ready_tasks(&mut reactor);
    // the first task is gone; a new spawn still gets a fresh identity
    spawn(&mut exec, CountdownFuture::new(0));
    assert_eq!(exec.pop_ready(), Some(1));
}

#[test]
fn block_on_cycle_returns_after_exactly_three_wakes() {
    // A future that returns NotReady exactly 3 times resolves after exactly
    // 3 park-and-wake cycles, leaving the task table empty.
    let mut exec: Executor<CountdownFuture> = Executor::new();
    let mut reactor = Reactor::new();
    spawn(&mut exec, CountdownFuture::new(3));
    exec.run_ready_tasks(&mut reactor);
    let mut cycles: usize = 0;
    while exec.task_count() > 0 {
        // parked; a wake arrives and the next sweep runs
        exec.get_waker(0).wake(&mut exec);
        exec.run_ready_tasks(&mut reactor);
        cycles += 1;
        assert!(cycles <= 3);
    }
    assert_eq!(cycles, 3);
    assert_eq!(exec.task_count(), 0);
}
