//! Reactor state: the verified bookkeeping half of the readiness machinery.
//!
//! The reactor owns three pieces of state. A map from I/O identities to
//! wakers: storing a waker replaces, never merges, the previous one, and a
//! readiness event whose identity is absent invokes nothing. A queue of
//! pending I/O requests ([`IoAction`]) that an outside driver performs: the
//! verified code decides *what* to do, the driver does it. And, per identity,
//! the read outcomes the driver has observed on the corresponding connection,
//! delivered to the owning future at its next poll. The reactor also
//! allocates fresh, never-reused I/O identities.

use vstd::prelude::*;

use crate::waker::Waker;
use std::collections::HashMap;

verus! {

broadcast use vstd::std_specs::hash::group_hash_axioms;

/// One observation made while reading from a non-blocking connection.
#[derive(Debug, PartialEq, Eq)]
pub enum ReadOutcome {
    /// One or more bytes were read.
    Chunk(Vec<u8>),
    /// A read returned zero bytes: the peer closed the stream.
    EndOfStream,
    /// The connection has no data available right now.
    WouldBlock,
    /// The read was interrupted by a signal; reading simply continues.
    Interrupted,
}

/// An I/O request decided by verified code and performed by the driver.
#[derive(Debug, PartialEq, Eq)]
pub enum IoAction {
    /// Open a non-blocking connection for the given request path, send the
    /// request, and monitor the connection for read readiness under `id`.
    Connect { id: usize, path: String },
    /// Stop monitoring the connection known under `id` and drop it.
    Close { id: usize },
}

/// The waker map holds the same entry for `j` in `post` as in `pre`.
pub open spec fn waker_entry_same(pre: Reactor, post: Reactor, j: usize) -> bool {
    &&& post.wakers_view().dom().contains(j) == pre.wakers_view().dom().contains(j)
    &&& pre.wakers_view().dom().contains(j) ==> post.wakers_view()[j] == pre.wakers_view()[j]
}

/// Every waker entry except `id`'s is the same in `post` as in `pre`.
pub open spec fn wakers_same_except(pre: Reactor, post: Reactor, id: usize) -> bool {
    forall|j: usize| j != id ==> #[trigger] waker_entry_same(pre, post, j)
}

/// The outcomes pending for every identity except `id` are the same in
/// `post` as in `pre`.
pub open spec fn pending_same_except(pre: Reactor, post: Reactor, id: usize) -> bool {
    forall|j: usize| #![trigger post.pending(j)] j != id ==> post.pending(j) == pre.pending(j)
}

/// The outcomes pending for every identity are the same in `post` as in
/// `pre`.
pub open spec fn pending_unchanged(pre: Reactor, post: Reactor) -> bool {
    forall|j: usize| #![trigger post.pending(j)] post.pending(j) == pre.pending(j)
}

/// Maps I/O identities to wakers, queues I/O requests for the driver, and
/// hands incoming read outcomes to the futures that own them.
pub struct Reactor {
    wakers: HashMap<usize, Waker>,
    incoming: HashMap<usize, Vec<ReadOutcome>>,
    actions: Vec<IoAction>,
    next_id: usize,
}

impl Reactor {
    /// The waker stored for each I/O identity; at most one per identity.
    pub closed spec fn wakers_view(&self) -> Map<usize, Waker> {
        self.wakers@
    }

    /// The read outcomes delivered for `id` and not yet consumed by a poll.
    pub closed spec fn pending(&self, id: usize) -> Seq<ReadOutcome> {
        if self.incoming@.contains_key(id) {
            self.incoming@[id]@
        } else {
            Seq::empty()
        }
    }

    /// The I/O requests queued for the driver, oldest first.
    pub closed spec fn actions_view(&self) -> Seq<IoAction> {
        self.actions@
    }

    /// The next identity `next_id` will hand out; identities below it are
    /// retired and never reused.
    pub closed spec fn id_counter(&self) -> usize {
        self.next_id
    }

    /// A reactor with no wakers, no pending outcomes and no queued requests.
    pub fn new() -> (r: Reactor)
        ensures
            r.wakers_view() == Map::<usize, Waker>::empty(),
            r.actions_view() == Seq::<IoAction>::empty(),
            forall|id: usize| r.pending(id) == Seq::<ReadOutcome>::empty(),
            r.id_counter() == 1,
    {
        Reactor {
            wakers: HashMap::new(),
            incoming: HashMap::new(),
            actions: Vec::new(),
            next_id: 1,
        }
    }

    /// Returns the identity the next allocation will hand out, without
    /// allocating it; callers use it to check headroom before allocating.
    pub fn peek_next_id(&self) -> (id: usize)
        ensures
            id == self.id_counter(),
    {
        self.next_id
    }

    /// Allocates a fresh I/O identity. Identities are handed out in
    /// increasing order, so no identity is ever reused.
    pub fn next_id(&mut self) -> (id: usize)
        requires
            old(self).id_counter() < usize::MAX,
        ensures
            id == old(self).id_counter(),
            final(self).id_counter() == id + 1,
            final(self).wakers_view() == old(self).wakers_view(),
            final(self).actions_view() == old(self).actions_view(),
            forall|j: usize| final(self).pending(j) == old(self).pending(j),
    {
        let id = self.next_id;
        self.next_id = id + 1;
        id
    }

    /// Stores `waker` for `id`, replacing any waker stored before: the most
    /// recent registration wins.
    pub fn set_waker(&mut self, waker: &Waker, id: usize)
        ensures
            final(self).wakers_view() == old(self).wakers_view().insert(id, *waker),
            final(self).actions_view() == old(self).actions_view(),
            final(self).id_counter() == old(self).id_counter(),
            forall|j: usize| final(self).pending(j) == old(self).pending(j),
    {
        self.wakers.insert(id, *waker);
    }

    /// Drops the waker stored for `id`, discards outcomes not yet consumed,
    /// and queues a request to stop monitoring the connection. A later
    /// readiness event for `id` will find no waker and invoke nothing.
    pub fn deregister(&mut self, id: usize)
        ensures
            final(self).wakers_view() == old(self).wakers_view().remove(id),
            final(self).actions_view() == old(self).actions_view().push(IoAction::Close { id }),
            final(self).id_counter() == old(self).id_counter(),
            final(self).pending(id) == Seq::<ReadOutcome>::empty(),
            forall|j: usize| j != id ==> final(self).pending(j) == old(self).pending(j),
    {
        self.wakers.remove(&id);
        self.incoming.remove(&id);
        self.actions.push(IoAction::Close { id });
    }

    /// Queues a request to open a connection for `path` monitored under `id`.
    pub fn request_connect(&mut self, id: usize, path: String)
        ensures
            final(self).actions_view() == old(self).actions_view().push(IoAction::Connect { id, path }),
            final(self).wakers_view() == old(self).wakers_view(),
            final(self).id_counter() == old(self).id_counter(),
            forall|j: usize| final(self).pending(j) == old(self).pending(j),
    {
        self.actions.push(IoAction::Connect { id, path });
    }

    /// Looks up the waker stored for `id`, as the event loop does for each
    /// readiness event. An identity without a waker yields `None`: a spurious
    /// or stale event invokes nothing.
    pub fn waker_for(&self, id: usize) -> (w: Option<Waker>)
        ensures
            match w {
                Some(waker) => self.wakers_view().contains_key(id) && waker
                    == self.wakers_view()[id],
                None => !self.wakers_view().contains_key(id),
            },
    {
        match self.wakers.get(&id) {
            Some(waker) => Some(*waker),
            None => None,
        }
    }

    /// Records one read outcome observed by the driver on the connection
    /// known under `id`, behind any outcomes already pending.
    pub fn supply(&mut self, id: usize, outcome: ReadOutcome)
        ensures
            final(self).pending(id) == old(self).pending(id).push(outcome),
            forall|j: usize| j != id ==> final(self).pending(j) == old(self).pending(j),
            final(self).wakers_view() == old(self).wakers_view(),
            final(self).actions_view() == old(self).actions_view(),
            final(self).id_counter() == old(self).id_counter(),
    {
        let mut batch = match self.incoming.remove(&id) {
            Some(batch) => batch,
            None => Vec::new(),
        };
        batch.push(outcome);
        self.incoming.insert(id, batch);
    }

    /// Takes every outcome pending for `id`, oldest first, leaving none.
    pub fn take_incoming(&mut self, id: usize) -> (batch: Vec<ReadOutcome>)
        ensures
            batch@ == old(self).pending(id),
            final(self).pending(id) == Seq::<ReadOutcome>::empty(),
            forall|j: usize| j != id ==> final(self).pending(j) == old(self).pending(j),
            final(self).wakers_view() == old(self).wakers_view(),
            final(self).actions_view() == old(self).actions_view(),
            final(self).id_counter() == old(self).id_counter(),
    {
        match self.incoming.remove(&id) {
            Some(batch) => batch,
            None => Vec::new(),
        }
    }

    /// Takes every queued I/O request, oldest first, for the driver to
    /// perform, leaving the queue empty.
    pub fn take_actions(&mut self) -> (acts: Vec<IoAction>)
        ensures
            acts@ == old(self).actions_view(),
            final(self).actions_view() == Seq::<IoAction>::empty(),
            final(self).wakers_view() == old(self).wakers_view(),
            final(self).id_counter() == old(self).id_counter(),
            forall|j: usize| final(self).pending(j) == old(self).pending(j),
    {
        let mut acts: Vec<IoAction> = Vec::new();
        core::mem::swap(&mut acts, &mut self.actions);
        acts
    }
}

} // verus!
