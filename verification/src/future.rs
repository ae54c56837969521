//! The poll-based future capability.
//!
//! A future is advanced by repeated calls to `poll`. Each call either returns
//! [`PollState::NotReady`], having arranged (directly or through a child
//! future) to be woken later, or returns [`PollState::Ready`] exactly once
//! over the future's lifetime. Polling a future again after it has returned
//! `Ready` is a contract violation, which the `poll` precondition rules out:
//! a resolved future is never polled again.

use vstd::prelude::*;

use crate::reactor::Reactor;
use crate::waker::Waker;

verus! {

/// The outcome of one poll attempt: either the future's value, or a request
/// to be polled again after a wake.
pub enum PollState<T> {
    Ready(T),
    NotReady,
}

/// The single capability a task needs: being polled.
///
/// `resolved` tells whether the future has already returned `Ready`;
/// `poll_transition` is each implementer's full description of what one poll
/// does to the future and to the reactor. The shared contract states the
/// lifecycle alone: a resolved future is not polled again, and a future is
/// resolved exactly when its poll has returned `Ready`.
pub trait Future: Sized {
    type Output;

    /// Whether the future has returned `Ready` and may not be polled again.
    spec fn resolved(&self) -> bool;

    /// How one poll call relates the future and reactor before the call to
    /// the future, reactor and result after it.
    spec fn poll_transition(
        pre: Self,
        pre_r: Reactor,
        waker: Waker,
        post: Self,
        post_r: Reactor,
        res: PollState<Self::Output>,
    ) -> bool;

    /// Advances the future by one bounded step. Returns `NotReady` after
    /// arranging to be woken later, or `Ready` with the value, once.
    fn poll(&mut self, waker: &Waker, reactor: &mut Reactor) -> (res: PollState<Self::Output>)
        requires
            !old(self).resolved(),
        ensures
            final(self).resolved() <==> res is Ready,
            Self::poll_transition(
                *old(self),
                *old(reactor),
                *waker,
                *final(self),
                *final(reactor),
                res,
            ),
    ;
}

/// Ready is final: a poll that returns `Ready` leaves its future resolved —
/// the hypothesis here is exactly what `poll` ensures of its result — and
/// `poll` requires an unresolved future, so polling again after `Ready` is a
/// contract violation for every verified caller; the implementations in this
/// crate abort rather than accept such a call from unverified code.
pub proof fn lemma_ready_is_final<F: Future>(post: F, res: PollState<F::Output>)
    requires
        post.resolved() <==> res is Ready,
        res is Ready,
    ensures
        post.resolved(),
{
}

/// A leaf future that stays pending for a fixed number of polls and then
/// resolves. It registers nothing with the reactor, so each re-poll relies on
/// an outside wake; it is the simplest future with which to exercise a
/// scheduler.
pub struct CountdownFuture {
    remaining: usize,
    done: bool,
}

impl CountdownFuture {
    /// How many more polls will return `NotReady` before the future resolves.
    pub closed spec fn remaining_polls(&self) -> usize {
        self.remaining
    }

    /// A future that returns `NotReady` exactly `pending_polls` times and
    /// then `Ready`.
    pub fn new(pending_polls: usize) -> (f: CountdownFuture)
        ensures
            f.remaining_polls() == pending_polls,
            !f.resolved(),
    {
        CountdownFuture { remaining: pending_polls, done: false }
    }

    /// Returns how many more polls will come back `NotReady`.
    pub fn remaining(&self) -> (r: usize)
        ensures
            r == self.remaining_polls(),
    {
        self.remaining
    }
}

impl Future for CountdownFuture {
    type Output = ();

    closed spec fn resolved(&self) -> bool {
        self.done
    }

    open spec fn poll_transition(
        pre: Self,
        pre_r: Reactor,
        waker: Waker,
        post: Self,
        post_r: Reactor,
        res: PollState<()>,
    ) -> bool {
        &&& post_r == pre_r
        &&& if pre.remaining_polls() == 0 {
            res is Ready && post.remaining_polls() == 0
        } else {
            res is NotReady && post.remaining_polls() == pre.remaining_polls() - 1
        }
    }

    fn poll(&mut self, waker: &Waker, reactor: &mut Reactor) -> (res: PollState<()>) {
        if self.done {
            // polling a resolved future is a contract violation, aborted
            // rather than silently accepted
            return vstd::pervasive::unreached();
        }
        if self.remaining == 0 {
            self.done = true;
            PollState::Ready(())
        } else {
            self.remaining = self.remaining - 1;
            PollState::NotReady
        }
    }
}

} // verus!
