//! The non-blocking request/response exchange, as a future.
//!
//! An [`HttpGetFuture`] performs one GET exchange. Its first poll queues a
//! connect-and-send request with the reactor and stores its waker; the
//! outside driver opens the connection, writes the request and monitors the
//! connection for read readiness. Each later poll consumes the read outcomes
//! the driver has delivered since, in order: bytes are appended to the body
//! buffer (several chunks per poll amortize one wake over many reads), an
//! interrupted read is skipped and reading continues, "would block" suspends
//! until the next wake — outcomes already delivered beyond that pause are
//! left pending for the next poll, never dropped — and end-of-stream
//! resolves the future with the
//! buffered bytes decoded as text, lossily where the encoding is invalid. On
//! resolution the future drops its waker entry, so a later spurious readiness
//! event for its identity invokes nothing.

use vstd::prelude::*;

use crate::future::{Future, PollState};
use crate::reactor::{
    pending_same_except, pending_unchanged, waker_entry_same, wakers_same_except, IoAction,
    ReadOutcome, Reactor,
};
use crate::waker::Waker;

verus! {

/// The text that decoding a byte sequence lossily as UTF-8 yields; a
/// function of the bytes alone.
pub uninterp spec fn lossy_utf8(bytes: Seq<u8>) -> Seq<char>;

/// Relies on String::from_utf8_lossy: decodes the bytes as UTF-8, replacing
/// invalid sequences; the result depends on the bytes alone.
#[verifier::external_body]
fn decode_lossy(bytes: &Vec<u8>) -> (text: String)
    ensures
        text@ == lossy_utf8(bytes@),
{
    String::from_utf8_lossy(bytes.as_slice()).into_owned()
}

/// The bytes a poll takes from a batch of read outcomes: every chunk before
/// the first "would block" or end-of-stream, concatenated in order.
pub open spec fn data_taken(batch: Seq<ReadOutcome>) -> Seq<u8>
    decreases batch.len(),
{
    if batch.len() == 0 {
        Seq::empty()
    } else {
        match batch[0] {
            ReadOutcome::Chunk(d) => d@ + data_taken(batch.drop_first()),
            ReadOutcome::Interrupted => data_taken(batch.drop_first()),
            ReadOutcome::WouldBlock => Seq::empty(),
            ReadOutcome::EndOfStream => Seq::empty(),
        }
    }
}

/// The read outcomes a poll leaves pending: everything after the first
/// "would block", which itself is consumed. Empty when the batch reaches
/// end-of-stream first or holds no pause at all.
pub open spec fn rest_after(batch: Seq<ReadOutcome>) -> Seq<ReadOutcome>
    decreases batch.len(),
{
    if batch.len() == 0 {
        Seq::empty()
    } else {
        match batch[0] {
            ReadOutcome::Chunk(d) => rest_after(batch.drop_first()),
            ReadOutcome::Interrupted => rest_after(batch.drop_first()),
            ReadOutcome::WouldBlock => batch.drop_first(),
            ReadOutcome::EndOfStream => Seq::empty(),
        }
    }
}

/// Whether a batch of read outcomes reaches end-of-stream before any "would
/// block": if so, the poll that consumes it resolves the exchange.
pub open spec fn reaches_end(batch: Seq<ReadOutcome>) -> bool
    decreases batch.len(),
{
    if batch.len() == 0 {
        false
    } else {
        match batch[0] {
            ReadOutcome::Chunk(d) => reaches_end(batch.drop_first()),
            ReadOutcome::Interrupted => reaches_end(batch.drop_first()),
            ReadOutcome::WouldBlock => false,
            ReadOutcome::EndOfStream => true,
        }
    }
}

/// Once an exchange resolves, its identity is absent from the reactor's
/// waker map: a later spurious readiness event for that identity finds no
/// waker ([`Reactor::waker_for`] returns `None`) and so invokes nothing.
pub proof fn lemma_resolved_exchange_invokes_nothing(
    pre: HttpGetFuture,
    pre_r: Reactor,
    waker: Waker,
    post: HttpGetFuture,
    post_r: Reactor,
    res: PollState<String>,
)
    requires
        HttpGetFuture::poll_transition(pre, pre_r, waker, post, post_r, res),
        res is Ready,
    ensures
        !post_r.wakers_view().dom().contains(pre.io_id()),
{
}

/// The factory for GET exchanges.
pub struct Http;

impl Http {
    /// A future that fetches `path` and resolves to the full response body
    /// as text. The exchange's I/O identity is allocated here; the
    /// connection is opened only when the future is first polled.
    pub fn get(path: &str, reactor: &mut Reactor) -> (f: HttpGetFuture)
        requires
            old(reactor).id_counter() < usize::MAX,
        ensures
            !f.resolved(),
            !f.started(),
            f.req_path() == path@,
            f.body() == Seq::<u8>::empty(),
            f.io_id() == old(reactor).id_counter(),
            final(reactor).id_counter() == old(reactor).id_counter() + 1,
            final(reactor).wakers_view() == old(reactor).wakers_view(),
            final(reactor).actions_view() == old(reactor).actions_view(),
            forall|j: usize| final(reactor).pending(j) == old(reactor).pending(j),
    {
        let id = reactor.next_id();
        HttpGetFuture::with_id(path, id)
    }
}

/// One in-flight GET exchange: the request path, the response bytes
/// accumulated so far, and the I/O identity under which the connection is
/// monitored.
pub struct HttpGetFuture {
    path: String,
    buffer: Vec<u8>,
    id: usize,
    started: bool,
    done: bool,
}

impl HttpGetFuture {
    /// Whether the first poll has queued the connect-and-send request.
    pub closed spec fn started(&self) -> bool {
        self.started
    }

    /// The I/O identity of the exchange's connection.
    pub closed spec fn io_id(&self) -> usize {
        self.id
    }

    /// The request path.
    pub closed spec fn req_path(&self) -> Seq<char> {
        self.path@
    }

    /// The response bytes accumulated so far.
    pub closed spec fn body(&self) -> Seq<u8> {
        self.buffer@
    }

    /// An idle exchange for `path`, monitored under an identity the caller
    /// allocated earlier: how a suspension point builds its sub-future at the
    /// transition that reaches it, with an identity reserved at creation.
    pub(crate) fn with_id(path: &str, id: usize) -> (f: HttpGetFuture)
        ensures
            !f.resolved(),
            !f.started(),
            f.req_path() == path@,
            f.body() == Seq::<u8>::empty(),
            f.io_id() == id,
    {
        HttpGetFuture {
            path: path.to_owned(),
            buffer: Vec::new(),
            id,
            started: false,
            done: false,
        }
    }

    /// Returns the request path, for the driver that sends the request.
    pub fn path(&self) -> (p: &str)
        ensures
            p@ == self.req_path(),
    {
        self.path.as_str()
    }

    /// Appends one chunk of response bytes to the body buffer.
    fn append_chunk(&mut self, data: &Vec<u8>)
        ensures
            final(self).body() == old(self).body() + data@,
            final(self).started() == old(self).started(),
            final(self).resolved() == old(self).resolved(),
            final(self).io_id() == old(self).io_id(),
            final(self).req_path() == old(self).req_path(),
    {
        let mut j: usize = 0;
        while j < data.len()
            invariant
                j <= data.len(),
                self.buffer@ == old(self).buffer@ + data@.take(j as int),
                self.started == old(self).started,
                self.done == old(self).done,
                self.id == old(self).id,
                self.path == old(self).path,
            decreases data.len() - j,
        {
            self.buffer.push(data[j]);
            proof {
                assert(self.buffer@ =~= old(self).buffer@ + data@.take(j as int + 1));
            }
            j = j + 1;
        }
        proof {
            assert(data@.take(data@.len() as int) =~= data@);
        }
    }
}

impl Future for HttpGetFuture {
    type Output = String;

    closed spec fn resolved(&self) -> bool {
        self.done
    }

    open spec fn poll_transition(
        pre: Self,
        pre_r: Reactor,
        waker: Waker,
        post: Self,
        post_r: Reactor,
        res: PollState<String>,
    ) -> bool {
        &&& post.io_id() == pre.io_id()
        &&& post.req_path() == pre.req_path()
        &&& post.started()
        &&& post_r.id_counter() == pre_r.id_counter()
        &&& if !pre.started() {
            &&& res is NotReady
            &&& post.body() == pre.body()
            &&& post_r.wakers_view() == pre_r.wakers_view().insert(pre.io_id(), waker)
            &&& pre_r.actions_view().is_prefix_of(post_r.actions_view())
            &&& post_r.actions_view().len() == pre_r.actions_view().len() + 1
            &&& (post_r.actions_view().last() matches IoAction::Connect { id, path } && id
                == pre.io_id() && path@ == pre.req_path())
            &&& pending_unchanged(pre_r, post_r)
        } else {
            let batch = pre_r.pending(pre.io_id());
            &&& post.body() == pre.body() + data_taken(batch)
            &&& pending_same_except(pre_r, post_r, pre.io_id())
            &&& if reaches_end(batch) {
                &&& res is Ready
                &&& (res matches PollState::Ready(text) ==> text@ == lossy_utf8(
                    pre.body() + data_taken(batch),
                ))
                &&& post_r.pending(pre.io_id()) == Seq::<ReadOutcome>::empty()
                &&& !post_r.wakers_view().dom().contains(pre.io_id())
                &&& wakers_same_except(pre_r, post_r, pre.io_id())
                &&& pre_r.actions_view().is_prefix_of(post_r.actions_view())
                &&& post_r.actions_view().len() == pre_r.actions_view().len() + 1
                &&& post_r.actions_view().last() == (IoAction::Close { id: pre.io_id() })
            } else {
                &&& res is NotReady
                &&& post_r.pending(pre.io_id()) == rest_after(batch)
                &&& post_r.wakers_view() == pre_r.wakers_view().insert(pre.io_id(), waker)
                &&& post_r.actions_view() == pre_r.actions_view()
            }
        }
    }

    fn poll(&mut self, waker: &Waker, reactor: &mut Reactor) -> (res: PollState<String>) {
        if self.done {
            // polling a resolved future is a contract violation, aborted
            // rather than silently accepted
            return vstd::pervasive::unreached();
        }
        if !self.started {
            self.started = true;
            reactor.set_waker(waker, self.id);
            let ghost r_mid = *reactor;
            reactor.request_connect(self.id, self.path.clone());
            proof {
                assert(pending_unchanged(*old(reactor), *reactor)) by {
                    assert forall|j: usize| reactor.pending(j) == old(reactor).pending(j) by {
                        assert(r_mid.pending(j) == old(reactor).pending(j));
                        assert(reactor.pending(j) == r_mid.pending(j));
                    }
                }
            }
            return PollState::NotReady;
        }
        reactor.set_waker(waker, self.id);
        let ghost r_sw = *reactor;
        let mut batch = reactor.take_incoming(self.id);
        proof {
            assert(pending_same_except(*old(reactor), *reactor, self.id)) by {
                assert forall|j: usize| j != self.id implies reactor.pending(j) == old(
                    reactor,
                ).pending(j) by {
                    assert(r_sw.pending(j) == old(reactor).pending(j));
                    assert(reactor.pending(j) == r_sw.pending(j));
                }
            }
        }
        let ghost whole = batch@;
        while batch.len() > 0
            invariant
                old(self).started(),
                self.started,
                !self.done,
                self.id == old(self).io_id(),
                self.path@ == old(self).req_path(),
                whole == old(reactor).pending(old(self).io_id()),
                old(self).body() + data_taken(whole) == self.buffer@ + data_taken(batch@),
                reaches_end(whole) == reaches_end(batch@),
                rest_after(whole) == rest_after(batch@),
                reactor.wakers_view() == old(reactor).wakers_view().insert(
                    old(self).io_id(),
                    *waker,
                ),
                reactor.pending(old(self).io_id()) == Seq::<ReadOutcome>::empty(),
                pending_same_except(*old(reactor), *reactor, old(self).io_id()),
                reactor.actions_view() == old(reactor).actions_view(),
                reactor.id_counter() == old(reactor).id_counter(),
            decreases batch@.len(),
        {
            let ghost batch_pre = batch@;
            let outcome = batch.remove(0);
            proof {
                assert(outcome == batch_pre[0]);
                assert(batch@ =~= batch_pre.drop_first());
            }
            match outcome {
                ReadOutcome::Chunk(data) => {
                    self.append_chunk(&data);
                },
                ReadOutcome::Interrupted => {},
                ReadOutcome::WouldBlock => {
                    // reading pauses here; outcomes already delivered beyond
                    // the pause go back, in order, for the next poll
                    let ghost target = batch@;
                    proof {
                        assert(self.buffer@ + data_taken(batch_pre) =~= self.buffer@);
                        assert(target.take(0) =~= Seq::<ReadOutcome>::empty());
                        assert(target.skip(0) =~= target);
                    }
                    while batch.len() > 0
                        invariant
                            self.id == old(self).io_id(),
                            target.len() >= batch@.len(),
                            batch@ == target.skip(target.len() - batch@.len()),
                            reactor.pending(old(self).io_id()) == target.take(
                                target.len() - batch@.len(),
                            ),
                            reactor.wakers_view() == old(reactor).wakers_view().insert(
                                old(self).io_id(),
                                *waker,
                            ),
                            pending_same_except(*old(reactor), *reactor, old(self).io_id()),
                            reactor.actions_view() == old(reactor).actions_view(),
                            reactor.id_counter() == old(reactor).id_counter(),
                        decreases batch@.len(),
                    {
                        let ghost k = target.len() - batch@.len();
                        let ghost r_prev = *reactor;
                        let put_back = batch.remove(0);
                        proof {
                            assert(put_back == target[k]);
                            assert(batch@ =~= target.skip(k + 1));
                        }
                        reactor.supply(self.id, put_back);
                        proof {
                            assert(reactor.pending(self.id) =~= target.take(k + 1));
                            assert(pending_same_except(
                                *old(reactor),
                                *reactor,
                                old(self).io_id(),
                            )) by {
                                assert forall|j: usize|
                                    j != old(self).io_id() implies reactor.pending(j) == old(
                                    reactor,
                                ).pending(j) by {
                                    assert(reactor.pending(j) == r_prev.pending(j));
                                    assert(r_prev.pending(j) == old(reactor).pending(j));
                                }
                            }
                        }
                    }
                    proof {
                        assert(target.take(target.len() as int) =~= target);
                    }
                    return PollState::NotReady;
                },
                ReadOutcome::EndOfStream => {
                    proof {
                        assert(self.buffer@ + data_taken(batch_pre) =~= self.buffer@);
                    }
                    self.done = true;
                    let ghost r_loop = *reactor;
                    reactor.deregister(self.id);
                    proof {
                        assert(pending_same_except(*old(reactor), *reactor, self.id)) by {
                            assert forall|j: usize| j != self.id implies reactor.pending(j) == old(
                                reactor,
                            ).pending(j) by {
                                assert(reactor.pending(j) == r_loop.pending(j));
                                assert(r_loop.pending(j) == old(reactor).pending(j));
                            }
                        }
                        assert(wakers_same_except(*old(reactor), *reactor, self.id)) by {
                            assert forall|j: usize| j != self.id implies waker_entry_same(
                                *old(reactor),
                                *reactor,
                                j,
                            ) by {
                                assert(reactor.wakers_view() == r_loop.wakers_view().remove(
                                    self.id,
                                ));
                            }
                        }
                    }
                    let text = decode_lossy(&self.buffer);
                    return PollState::Ready(text);
                },
            }
        }
        proof {
            assert(self.buffer@ + data_taken(batch@) =~= self.buffer@);
        }
        PollState::NotReady
    }
}


} // verus!
