//! A coroutine: a linear two-step computation written as an explicit state
//! machine, because there is no native suspension primitive here.
//!
//! The computation fetches one path, then a second one, suspending at each
//! exchange. One enum variant stands for each suspension point and holds the
//! exchange awaited there; `Start` and `Resolved` bracket them. All
//! transitions happen inside `poll`: from `Start` the first exchange is set
//! going and polled; at a suspension point the held exchange is polled, and
//! on its resolution the machine moves on within the same call, polling the
//! next exchange in turn; when the second exchange resolves, so does the
//! coroutine. The second exchange is constructed only at the transition that
//! reaches it; its I/O identity alone is reserved when the coroutine is
//! created, because allocation needs headroom that a poll cannot demand.
//! Each exchange opens its connection only when first polled. Polling a
//! resolved coroutine is a contract violation.

use vstd::prelude::*;

use crate::future::{Future, PollState};
use crate::http::{Http, HttpGetFuture};
use crate::reactor::{
    pending_same_except, waker_entry_same, wakers_same_except, IoAction, ReadOutcome, Reactor,
};
use crate::waker::Waker;

verus! {

/// The explicit suspension-point state of a [`Coroutine`].
enum State {
    /// Created, not yet polled; the first exchange is built but idle, the
    /// second is only a reserved identity.
    Start { first: HttpGetFuture, second_id: usize },
    /// Suspended on the first exchange; the second is not built yet.
    Wait1 { fut: HttpGetFuture, second_id: usize },
    /// Suspended on the second exchange, built on the way here.
    Wait2 { fut: HttpGetFuture },
    /// Done; polling again is a contract violation.
    Resolved,
}

/// A future that awaits two GET exchanges one after the other and resolves
/// once both responses have arrived. The response texts themselves are
/// consumed at each resume point and not kept.
pub struct Coroutine {
    state: State,
}

impl Coroutine {
    /// Whether the coroutine is still at its entry point.
    pub closed spec fn at_start(&self) -> bool {
        self.state is Start
    }

    /// Whether the coroutine is suspended on its first exchange.
    pub closed spec fn awaiting_first(&self) -> bool {
        self.state is Wait1
    }

    /// Whether the coroutine is suspended on its second exchange.
    pub closed spec fn awaiting_second(&self) -> bool {
        self.state is Wait2
    }

    /// The first exchange, while the coroutine still holds it.
    pub closed spec fn first_fut(&self) -> HttpGetFuture {
        match self.state {
            State::Start { first, .. } => first,
            State::Wait1 { fut, .. } => fut,
            _ => vstd::pervasive::arbitrary(),
        }
    }

    /// The second exchange, once the coroutine has built it.
    pub closed spec fn second_fut(&self) -> HttpGetFuture {
        match self.state {
            State::Wait2 { fut } => fut,
            _ => vstd::pervasive::arbitrary(),
        }
    }

    /// The identity reserved for the second exchange.
    pub closed spec fn second_id(&self) -> usize {
        match self.state {
            State::Start { second_id, .. } => second_id,
            State::Wait1 { second_id, .. } => second_id,
            State::Wait2 { fut } => fut.io_id(),
            _ => vstd::pervasive::arbitrary(),
        }
    }

    /// Each held exchange is in the shape its suspension point expects: an
    /// awaited exchange is under way and unresolved, a not-yet-reached one is
    /// idle, and the two exchanges monitor distinct identities.
    #[verifier::type_invariant]
    spec fn wf(&self) -> bool {
        match self.state {
            State::Start { first, second_id } => !first.started() && !first.resolved()
                && first.io_id() != second_id,
            State::Wait1 { fut, second_id } => fut.started() && !fut.resolved() && fut.io_id()
                != second_id,
            State::Wait2 { fut } => fut.started() && !fut.resolved(),
            State::Resolved => true,
        }
    }

    /// A coroutine that will fetch its two fixed paths in order. The first
    /// exchange is built idle; for the second, only the identity is
    /// reserved — the exchange itself is constructed at the transition that
    /// reaches it. No connection is opened yet.
    pub fn new(reactor: &mut Reactor) -> (c: Coroutine)
        requires
            old(reactor).id_counter() + 1 < usize::MAX,
        ensures
            c.at_start(),
            !c.resolved(),
            !c.first_fut().started() && !c.first_fut().resolved(),
            c.first_fut().io_id() == old(reactor).id_counter(),
            c.first_fut().req_path() == "/600/HelloWorld"@,
            c.first_fut().body() == Seq::<u8>::empty(),
            c.second_id() == old(reactor).id_counter() + 1,
            final(reactor).id_counter() == old(reactor).id_counter() + 2,
            final(reactor).wakers_view() == old(reactor).wakers_view(),
            final(reactor).actions_view() == old(reactor).actions_view(),
            forall|j: usize| final(reactor).pending(j) == old(reactor).pending(j),
    {
        let first = Http::get("/600/HelloWorld", reactor);
        let second_id = reactor.next_id();
        Coroutine { state: State::Start { first, second_id } }
    }
}

/// A coroutine ready to be spawned or blocked on: the program's top-level
/// future.
pub fn async_main(reactor: &mut Reactor) -> (c: Coroutine)
    requires
        old(reactor).id_counter() + 1 < usize::MAX,
    ensures
        c.at_start(),
        !c.resolved(),
        !c.first_fut().started() && !c.first_fut().resolved(),
        c.first_fut().req_path() == "/600/HelloWorld"@,
        c.first_fut().body() == Seq::<u8>::empty(),
        c.second_id() == old(reactor).id_counter() + 1,
        final(reactor).id_counter() == old(reactor).id_counter() + 2,
        final(reactor).wakers_view() == old(reactor).wakers_view(),
        final(reactor).actions_view() == old(reactor).actions_view(),
        forall|j: usize| final(reactor).pending(j) == old(reactor).pending(j),
{
    Coroutine::new(reactor)
}

impl Future for Coroutine {
    type Output = ();

    closed spec fn resolved(&self) -> bool {
        self.state is Resolved
    }

    open spec fn poll_transition(
        pre: Self,
        pre_r: Reactor,
        waker: Waker,
        post: Self,
        post_r: Reactor,
        res: PollState<()>,
    ) -> bool {
        &&& post_r.id_counter() == pre_r.id_counter()
        &&& if pre.at_start() {
            // The first exchange was set going: polled once from idle.
            &&& res is NotReady
            &&& post.awaiting_first()
            &&& HttpGetFuture::poll_transition(
                pre.first_fut(),
                pre_r,
                waker,
                post.first_fut(),
                post_r,
                PollState::<String>::NotReady,
            )
            &&& post.second_id() == pre.second_id()
        } else if pre.awaiting_first() {
            &&& res is NotReady
            &&& if post.awaiting_first() {
                // The first exchange is still pending.
                &&& HttpGetFuture::poll_transition(
                    pre.first_fut(),
                    pre_r,
                    waker,
                    post.first_fut(),
                    post_r,
                    PollState::<String>::NotReady,
                )
                &&& post.second_id() == pre.second_id()
            } else {
                // The first exchange resolved (its pending outcomes reached
                // end-of-stream); its waker entry is gone, its connection is
                // being closed, and the second exchange was constructed here,
                // under the reserved identity, and polled once from idle in
                // the same call.
                &&& post.awaiting_second()
                &&& reaches_end_of(pre_r, pre.first_fut())
                &&& post.second_fut().started()
                &&& post.second_fut().io_id() == pre.second_id()
                &&& post.second_fut().req_path() == "/400/HelloWorld2"@
                &&& post.second_fut().body() == Seq::<u8>::empty()
                &&& !post_r.wakers_view().dom().contains(pre.first_fut().io_id())
                &&& post_r.wakers_view().dom().contains(pre.second_id())
                &&& post_r.wakers_view()[pre.second_id()] == waker
                &&& forall|j: usize|
                    j != pre.first_fut().io_id() && j != pre.second_id()
                        ==> #[trigger] waker_entry_same(pre_r, post_r, j)
                &&& pre_r.actions_view().is_prefix_of(post_r.actions_view())
                &&& post_r.actions_view().len() == pre_r.actions_view().len() + 2
                &&& post_r.actions_view()[post_r.actions_view().len() - 2] == (IoAction::Close {
                    id: pre.first_fut().io_id(),
                })
                &&& (post_r.actions_view().last() matches IoAction::Connect { id, path } && id
                    == pre.second_id() && path@ == "/400/HelloWorld2"@)
                &&& post_r.pending(pre.first_fut().io_id()) == Seq::<ReadOutcome>::empty()
                &&& pending_same_except(pre_r, post_r, pre.first_fut().io_id())
            }
        } else if pre.awaiting_second() {
            &&& if res is NotReady {
                // The second exchange is still pending.
                &&& post.awaiting_second()
                &&& HttpGetFuture::poll_transition(
                    pre.second_fut(),
                    pre_r,
                    waker,
                    post.second_fut(),
                    post_r,
                    PollState::<String>::NotReady,
                )
            } else {
                // The second exchange resolved, and with it the coroutine:
                // its waker entry is gone and its connection is being closed.
                &&& reaches_end_of(pre_r, pre.second_fut())
                &&& !post_r.wakers_view().dom().contains(pre.second_fut().io_id())
                &&& wakers_same_except(pre_r, post_r, pre.second_fut().io_id())
                &&& pre_r.actions_view().is_prefix_of(post_r.actions_view())
                &&& post_r.actions_view().len() == pre_r.actions_view().len() + 1
                &&& post_r.actions_view().last() == (IoAction::Close {
                    id: pre.second_fut().io_id(),
                })
                &&& post_r.pending(pre.second_fut().io_id()) == Seq::<ReadOutcome>::empty()
                &&& pending_same_except(pre_r, post_r, pre.second_fut().io_id())
            }
        } else {
            true
        }
    }

    fn poll(&mut self, waker: &Waker, reactor: &mut Reactor) -> (res: PollState<()>) {
        proof {
            use_type_invariant(&*self);
        }
        let mut st = State::Resolved;
        core::mem::swap(&mut st, &mut self.state);
        match st {
            State::Start { first, second_id } => {
                let mut fut = first;
                match fut.poll(waker, reactor) {
                    PollState::NotReady => {
                        self.state = State::Wait1 { fut, second_id };
                        PollState::NotReady
                    },
                    PollState::Ready(_) => vstd::pervasive::unreached(),
                }
            },
            State::Wait1 { fut, second_id } => {
                let mut fut = fut;
                match fut.poll(waker, reactor) {
                    PollState::NotReady => {
                        self.state = State::Wait1 { fut, second_id };
                        PollState::NotReady
                    },
                    PollState::Ready(_text) => {
                        let ghost mid_r = *reactor;
                        let mut next = HttpGetFuture::with_id("/400/HelloWorld2", second_id);
                        match next.poll(waker, reactor) {
                            PollState::NotReady => {
                                self.state = State::Wait2 { fut: next };
                                proof {
                                    let pre_r = *old(reactor);
                                    let post_r = *reactor;
                                    let fid = old(self).first_fut().io_id();
                                    let sid = old(self).second_id();
                                    let pre_a = pre_r.actions_view();
                                    let mid_a = mid_r.actions_view();
                                    let post_a = post_r.actions_view();
                                    assert(mid_a =~= post_a.subrange(0, mid_a.len() as int));
                                    assert(post_a[post_a.len() - 2] == mid_a.last());
                                    assert(pre_a =~= post_a.subrange(0, pre_a.len() as int));
                                    assert forall|j: usize|
                                        j != fid && j != sid implies waker_entry_same(
                                        pre_r,
                                        post_r,
                                        j,
                                    ) by {
                                        assert(waker_entry_same(pre_r, mid_r, j));
                                        assert(post_r.wakers_view() == mid_r.wakers_view().insert(
                                            sid,
                                            *waker,
                                        ));
                                        assert(waker_entry_same(mid_r, post_r, j));
                                    }
                                    assert(pending_same_except(pre_r, post_r, fid)) by {
                                        assert forall|j: usize|
                                            j != fid implies post_r.pending(j) == pre_r.pending(
                                            j,
                                        ) by {
                                            assert(mid_r.pending(j) == pre_r.pending(j));
                                            assert(post_r.pending(j) == mid_r.pending(j));
                                        }
                                    }
                                }
                                PollState::NotReady
                            },
                            PollState::Ready(_) => vstd::pervasive::unreached(),
                        }
                    },
                }
            },
            State::Wait2 { fut } => {
                let mut fut = fut;
                match fut.poll(waker, reactor) {
                    PollState::NotReady => {
                        self.state = State::Wait2 { fut };
                        PollState::NotReady
                    },
                    PollState::Ready(_text) => {
                        self.state = State::Resolved;
                        PollState::Ready(())
                    },
                }
            },
            State::Resolved => vstd::pervasive::unreached(),
        }
    }
}

/// Whether the outcomes pending for an exchange's identity reach
/// end-of-stream, so that one poll of the exchange resolves it.
pub open spec fn reaches_end_of(r: Reactor, f: HttpGetFuture) -> bool {
    crate::http::reaches_end(r.pending(f.io_id()))
}

/// A coroutine is in exactly one phase — at its entry point, suspended on
/// the first exchange, suspended on the second, or resolved — so exactly one
/// branch of its poll transition speaks for any given poll.
pub proof fn lemma_phase_exclusive(c: &Coroutine)
    ensures
        c.at_start() || c.awaiting_first() || c.awaiting_second() || c.resolved(),
        c.at_start() ==> !c.awaiting_first() && !c.awaiting_second() && !c.resolved(),
        c.awaiting_first() ==> !c.at_start() && !c.awaiting_second() && !c.resolved(),
        c.awaiting_second() ==> !c.at_start() && !c.awaiting_first() && !c.resolved(),
        c.resolved() ==> !c.at_start() && !c.awaiting_first() && !c.awaiting_second(),
{
}

} // verus!
