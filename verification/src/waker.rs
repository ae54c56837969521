//! Wake handles.
//!
//! A waker carries the identity of one spawned task. Invoking it through
//! [`crate::executor::Executor`] enqueues that identity on the ready queue so
//! the task is polled again. Wakers are immutable and freely copyable, and
//! invoking one for an already-retired identity is tolerated: the executor
//! skips identities whose task is gone.

use vstd::prelude::*;

verus! {

/// A handle that marks one task as ready to be polled again.
#[derive(Clone, Copy, Debug)]
pub struct Waker {
    id: usize,
}

impl Waker {
    /// The identity of the task this waker reactivates.
    pub closed spec fn task_id(&self) -> usize {
        self.id
    }

    /// A waker bound to the task stored under `id`.
    pub(crate) fn new(id: usize) -> (w: Waker)
        ensures
            w.task_id() == id,
    {
        Waker { id }
    }

    /// Returns the task identity carried by this waker.
    pub fn id(&self) -> (r: usize)
        ensures
            r == self.task_id(),
    {
        self.id
    }

    /// Marks this waker's task as ready: its identity joins `exec`'s ready
    /// queue and will be drained by the next sweep. Waking is harmless to
    /// repeat and harmless after the task has completed; the sweep skips
    /// identities whose task is gone.
    pub fn wake<F: crate::future::Future>(&self, exec: &mut crate::executor::Executor<F>)
        ensures
            final(exec).ready_view() == old(exec).ready_view().push(self.task_id()),
            final(exec).tasks_view() == old(exec).tasks_view(),
            final(exec).id_counter() == old(exec).id_counter(),
            final(exec).polled_view() == old(exec).polled_view(),
    {
        exec.enqueue(self.id);
    }
}

} // verus!
