//! Joining a collection of futures into one.
//!
//! A [`JoinAll`] polls every member not yet finished on each of its own
//! polls, marks the ones that resolve, and resolves itself once every member
//! has resolved at least once; until then it returns `NotReady`. It resolves
//! with an empty string rather than collecting the members' outputs — a
//! deliberate simplification, documented here: callers that need the
//! individual outputs poll the members themselves.

use vstd::prelude::*;

use crate::future::{Future, PollState};
use crate::reactor::Reactor;
use crate::waker::Waker;

verus! {

/// How many members of a join table are marked finished.
pub open spec fn count_finished<F: Future>(s: Seq<(bool, F)>) -> int
    decreases s.len(),
{
    if s.len() == 0 {
        0
    } else {
        count_finished(s.drop_last()) + if s.last().0 {
            1int
        } else {
            0int
        }
    }
}

/// The finished count never exceeds the member count, and reaches it exactly
/// when every member is marked finished.
pub proof fn lemma_count_finished_full<F: Future>(s: Seq<(bool, F)>)
    ensures
        0 <= count_finished(s) <= s.len(),
        (count_finished(s) == s.len()) <==> (forall|k: int| 0 <= k < s.len() ==> s[k].0),
    decreases s.len(),
{
    if s.len() > 0 {
        lemma_count_finished_full(s.drop_last());
        assert(forall|k: int| 0 <= k < s.len() - 1 ==> s[k] == s.drop_last()[k]);
        if count_finished(s) == s.len() {
            assert(forall|k: int| 0 <= k < s.len() ==> s[k].0);
        }
        if forall|k: int| 0 <= k < s.len() ==> s[k].0 {
            assert(forall|k: int| 0 <= k < s.drop_last().len() ==> s.drop_last()[k].0);
        }
    }
}

/// The member polls of one aggregate poll, member by member in order: a
/// finished member is skipped untouched; an unfinished one is polled exactly
/// once with the aggregate's waker, the reactor threading from each member's
/// poll to the next, and its mark is set exactly if that poll returned
/// `Ready`.
pub open spec fn join_trace<F: Future>(
    pre_members: Seq<(bool, F)>,
    post_members: Seq<(bool, F)>,
    waker: Waker,
    r0: Reactor,
    r1: Reactor,
) -> bool
    decreases pre_members.len(),
{
    if pre_members.len() == 0 {
        &&& post_members.len() == 0
        &&& r1 == r0
    } else if post_members.len() != pre_members.len() {
        false
    } else if pre_members[0].0 {
        &&& post_members[0] == pre_members[0]
        &&& join_trace(pre_members.drop_first(), post_members.drop_first(), waker, r0, r1)
    } else {
        exists|r_mid: Reactor, res: PollState<F::Output>|
            {
                &&& #[trigger] F::poll_transition(
                    pre_members[0].1,
                    r0,
                    waker,
                    post_members[0].1,
                    r_mid,
                    res,
                )
                &&& (res is Ready <==> post_members[0].1.resolved())
                &&& post_members[0].0 == (res is Ready)
                &&& join_trace(pre_members.drop_first(), post_members.drop_first(), waker, r_mid, r1)
            }
    }
}

/// A member-poll trace grows at the back: processing one more member — kept
/// as it was if finished, polled once if not — extends the trace by one.
proof fn lemma_join_trace_extend<F: Future>(
    a: Seq<(bool, F)>,
    b: Seq<(bool, F)>,
    p: (bool, F),
    q: (bool, F),
    waker: Waker,
    r0: Reactor,
    r1: Reactor,
    r2: Reactor,
    res: PollState<F::Output>,
)
    requires
        join_trace(a, b, waker, r0, r1),
        p.0 ==> q == p && r2 == r1,
        !p.0 ==> F::poll_transition(p.1, r1, waker, q.1, r2, res) && (res is Ready <==> (
        q.1.resolved())) && q.0 == (res is Ready),
    ensures
        join_trace(a.push(p), b.push(q), waker, r0, r2),
    decreases a.len(),
{
    if a.len() == 0 {
        assert(b.len() == 0 && r1 == r0);
        assert(a.push(p)[0] == p);
        assert(b.push(q)[0] == q);
        assert(a.push(p).drop_first() =~= Seq::<(bool, F)>::empty());
        assert(b.push(q).drop_first() =~= Seq::<(bool, F)>::empty());
        if !p.0 {
            assert(join_trace(
                Seq::<(bool, F)>::empty(),
                Seq::<(bool, F)>::empty(),
                waker,
                r2,
                r2,
            ));
            assert(F::poll_transition(p.1, r0, waker, q.1, r2, res));
        } else {
            assert(join_trace(
                Seq::<(bool, F)>::empty(),
                Seq::<(bool, F)>::empty(),
                waker,
                r0,
                r2,
            ));
        }
    } else {
        assert(a.push(p)[0] == a[0]);
        assert(b.push(q)[0] == b[0]);
        assert(a.push(p).drop_first() =~= a.drop_first().push(p));
        assert(b.push(q).drop_first() =~= b.drop_first().push(q));
        if a[0].0 {
            lemma_join_trace_extend(a.drop_first(), b.drop_first(), p, q, waker, r0, r1, r2, res);
        } else {
            let (r_mid, res0) = choose|r_mid: Reactor, res0: PollState<F::Output>|
                {
                    &&& #[trigger] F::poll_transition(a[0].1, r0, waker, b[0].1, r_mid, res0)
                    &&& (res0 is Ready <==> b[0].1.resolved())
                    &&& b[0].0 == (res0 is Ready)
                    &&& join_trace(a.drop_first(), b.drop_first(), waker, r_mid, r1)
                };
            lemma_join_trace_extend(
                a.drop_first(),
                b.drop_first(),
                p,
                q,
                waker,
                r_mid,
                r1,
                r2,
                res,
            );
            assert(F::poll_transition(a[0].1, r0, waker, b[0].1, r_mid, res0));
        }
    }
}

/// One aggregate future over many members, with a finished mark per member.
pub struct JoinAll<F: Future> {
    futures: Vec<(bool, F)>,
    finished_count: usize,
    done: bool,
}

impl<F: Future> JoinAll<F> {
    /// The members, each with its finished mark.
    pub closed spec fn members(&self) -> Seq<(bool, F)> {
        self.futures@
    }

    /// A member's finished mark is set exactly when the member has resolved.
    #[verifier::type_invariant]
    spec fn wf(&self) -> bool {
        forall|k: int|
            0 <= k < self.futures@.len() ==> ((#[trigger] self.futures@[k]).0
                <==> self.futures@[k].1.resolved())
    }

    /// How many members were marked finished by the latest poll.
    pub closed spec fn finished(&self) -> usize {
        self.finished_count
    }

    /// Returns how many members were marked finished by the latest poll.
    pub fn finished_count(&self) -> (n: usize)
        ensures
            n == self.finished(),
    {
        self.finished_count
    }
}

/// An aggregate future that resolves once every future in `futures` has
/// resolved. Pollable as a single suspension point.
pub fn join_all<F: Future>(futures: Vec<F>) -> (j: JoinAll<F>)
    requires
        forall|k: int| 0 <= k < futures@.len() ==> !(#[trigger] futures@[k]).resolved(),
    ensures
        !j.resolved(),
        j.members().len() == futures@.len(),
        forall|k: int|
            0 <= k < futures@.len() ==> (#[trigger] j.members()[k]) == (false, futures@[k]),
{
    let mut futures = futures;
    let mut table: Vec<(bool, F)> = Vec::new();
    let ghost orig = futures@;
    while futures.len() > 0
        invariant
            table@.len() + futures@.len() == orig.len(),
            forall|k: int| 0 <= k < futures@.len() ==> #[trigger] futures@[k] == orig[table@.len()
                + k],
            forall|k: int| 0 <= k < orig.len() ==> !(#[trigger] orig[k]).resolved(),
            forall|k: int| 0 <= k < table@.len() ==> (#[trigger] table@[k]) == (false, orig[k]),
        decreases futures@.len(),
    {
        let f = futures.remove(0);
        table.push((false, f));
    }
    JoinAll { futures: table, finished_count: 0, done: false }
}

impl<F: Future> Future for JoinAll<F> {
    type Output = String;

    closed spec fn resolved(&self) -> bool {
        self.done
    }

    open spec fn poll_transition(
        pre: Self,
        pre_r: Reactor,
        waker: Waker,
        post: Self,
        post_r: Reactor,
        res: PollState<String>,
    ) -> bool {
        &&& post.members().len() == pre.members().len()
        // not ready until every member has resolved, then ready exactly once
        &&& (res is Ready <==> (forall|k: int|
            0 <= k < post.members().len() ==> (#[trigger] post.members()[k]).0))
        // a finished member is skipped, never polled again
        &&& forall|k: int|
            0 <= k < pre.members().len() && (#[trigger] pre.members()[k]).0 ==> post.members()[k]
                == pre.members()[k]
        // a mark is set exactly when that member has resolved
        &&& forall|k: int|
            0 <= k < post.members().len() ==> ((#[trigger] post.members()[k]).0
                <==> post.members()[k].1.resolved())
        // every unfinished member is polled exactly once, in order, with
        // this call's waker, the reactor threading member to member
        &&& join_trace(pre.members(), post.members(), waker, pre_r, post_r)
        // the finished count equals the number of marked members
        &&& post.finished() == count_finished(post.members())
        // the simplified aggregate output: an empty text
        &&& (res matches PollState::Ready(out) ==> out@ == Seq::<char>::empty())
    }

    fn poll(&mut self, waker: &Waker, reactor: &mut Reactor) -> (res: PollState<String>) {
        if self.done {
            // polling a resolved future is a contract violation, aborted
            // rather than silently accepted
            return vstd::pervasive::unreached();
        }
        proof {
            use_type_invariant(&*self);
        }
        let mut rest: Vec<(bool, F)> = Vec::new();
        core::mem::swap(&mut rest, &mut self.futures);
        let ghost orig = rest@;
        proof {
            assert(orig.take(0) =~= Seq::<(bool, F)>::empty());
        }
        let total: usize = rest.len();
        let mut table: Vec<(bool, F)> = Vec::new();
        let mut count: usize = 0;
        while rest.len() > 0
            invariant
                orig.len() == total,
                table@.len() + rest@.len() == orig.len(),
                forall|k: int| 0 <= k < rest@.len() ==> #[trigger] rest@[k] == orig[table@.len()
                    + k],
                forall|k: int|
                    0 <= k < orig.len() ==> ((#[trigger] orig[k]).0 <==> orig[k].1.resolved()),
                forall|k: int|
                    0 <= k < table@.len() ==> ((#[trigger] table@[k]).0
                        <==> table@[k].1.resolved()),
                forall|k: int|
                    0 <= k < table@.len() && (#[trigger] orig[k]).0 ==> table@[k] == orig[k],
                count == count_finished(table@),
                0 <= count <= table@.len(),
                join_trace(
                    orig.take(table@.len() as int),
                    table@,
                    *waker,
                    *old(reactor),
                    *reactor,
                ),
            decreases rest@.len(),
        {
            let ghost table_before = table@;
            let ghost k = table@.len() as int;
            let ghost p = orig[k];
            let ghost r_before = *reactor;
            let (finished, f) = rest.remove(0);
            if finished {
                table.push((true, f));
                count = count + 1;
                proof {
                    let res0 = vstd::pervasive::arbitrary::<PollState<F::Output>>();
                    lemma_join_trace_extend(
                        orig.take(k),
                        table_before,
                        p,
                        (true, f),
                        *waker,
                        *old(reactor),
                        r_before,
                        *reactor,
                        res0,
                    );
                }
            } else {
                let mut f = f;
                match f.poll(waker, reactor) {
                    PollState::Ready(v) => {
                        proof {
                            lemma_join_trace_extend(
                                orig.take(k),
                                table_before,
                                p,
                                (true, f),
                                *waker,
                                *old(reactor),
                                r_before,
                                *reactor,
                                PollState::Ready(v),
                            );
                        }
                        table.push((true, f));
                        count = count + 1;
                    },
                    PollState::NotReady => {
                        proof {
                            lemma_join_trace_extend(
                                orig.take(k),
                                table_before,
                                p,
                                (false, f),
                                *waker,
                                *old(reactor),
                                r_before,
                                *reactor,
                                PollState::<F::Output>::NotReady,
                            );
                        }
                        table.push((false, f));
                    },
                }
            }
            proof {
                assert(table@.drop_last() =~= table_before);
                assert(orig.take(k + 1) =~= orig.take(k).push(p));
            }
        }
        proof {
            assert(orig.take(orig.len() as int) =~= orig);
        }
        core::mem::swap(&mut self.futures, &mut table);
        self.finished_count = count;
        proof {
            lemma_count_finished_full(self.futures@);
        }
        if count == self.futures.len() {
            self.done = true;
            PollState::Ready(String::new())
        } else {
            PollState::NotReady
        }
    }
}

} // verus!
