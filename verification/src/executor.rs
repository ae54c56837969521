//! The executor: a per-thread task table and ready queue.
//!
//! Spawning stores a future under a fresh, never-reused identity and enqueues
//! that identity so the task is polled at least once. One sweep of
//! [`Executor::run_ready_tasks`] drains the ready queue: each popped identity
//! whose task is still present is polled; a task that returns `NotReady` goes
//! back into the table (not the queue — it relies on a wake to run again),
//! and a task that returns `Ready` is discarded, its identity retired. An
//! identity with no task is skipped, which tolerates spurious wakes. The
//! caller parks between sweeps while tasks remain and stops when the table is
//! empty.
//!
//! Within one sweep, ready tasks are polled in queue order: the oldest
//! enqueued identity is drained first. Across sweeps there is no fairness
//! guarantee beyond every enqueued live identity being polled before the
//! next park. The executor stores one concrete future type per instance;
//! heterogeneous tasks are held by making that type an enum over the
//! variants needed, since trait objects are not verifiable here.

use vstd::prelude::*;

use crate::future::{CountdownFuture, Future, PollState};
use crate::reactor::Reactor;
use crate::waker::Waker;
use std::collections::HashMap;

verus! {

broadcast use vstd::std_specs::hash::group_hash_axioms;

/// One poll performed during a sweep: the polled identity, the task before
/// and after the poll, the waker handed in, the reactor before and after,
/// and the result.
pub struct PollStep<F: Future> {
    pub id: usize,
    pub waker: Waker,
    pub pre: F,
    pub post: F,
    pub pre_r: Reactor,
    pub post_r: Reactor,
    pub res: PollState<F::Output>,
}

/// The identities a sequence of poll steps polls, in order.
pub open spec fn step_ids<F: Future>(steps: Seq<PollStep<F>>) -> Seq<usize> {
    steps.map_values(|s: PollStep<F>| s.id)
}

/// The task table after one poll step: `NotReady` stores the task's new
/// state back under its identity, `Ready` removes the entry for good.
pub open spec fn apply_step<F: Future>(m: Map<usize, F>, s: PollStep<F>) -> Map<usize, F> {
    if s.res is NotReady {
        m.insert(s.id, s.post)
    } else {
        m.remove(s.id)
    }
}

/// The polls of one sweep, in order: each step polls the task stored under
/// its identity at that moment, with a waker bound to that identity, and
/// relates the task and reactor before to those after through the task's own
/// poll contract; the reactor threads from each step to the next. Ties the
/// table and reactor at the start of the sweep to those at its end.
pub open spec fn sweep_trace<F: Future>(
    steps: Seq<PollStep<F>>,
    m0: Map<usize, F>,
    r0: Reactor,
    m1: Map<usize, F>,
    r1: Reactor,
) -> bool
    decreases steps.len(),
{
    if steps.len() == 0 {
        m1 == m0 && r1 == r0
    } else {
        let s = steps[0];
        &&& s.waker.task_id() == s.id
        &&& m0.dom().contains(s.id)
        &&& s.pre == m0[s.id]
        &&& s.pre_r == r0
        &&& F::poll_transition(s.pre, s.pre_r, s.waker, s.post, s.post_r, s.res)
        &&& (s.res is Ready <==> s.post.resolved())
        &&& sweep_trace(steps.drop_first(), apply_step(m0, s), s.post_r, m1, r1)
    }
}

/// A sweep trace grows at the back: one more poll, performed on the table
/// and reactor the trace ends with, extends it by one step.
proof fn lemma_sweep_trace_extend<F: Future>(
    steps: Seq<PollStep<F>>,
    s: PollStep<F>,
    m0: Map<usize, F>,
    r0: Reactor,
    m1: Map<usize, F>,
    r1: Reactor,
)
    requires
        sweep_trace(steps, m0, r0, m1, r1),
        s.waker.task_id() == s.id,
        m1.dom().contains(s.id),
        s.pre == m1[s.id],
        s.pre_r == r1,
        F::poll_transition(s.pre, s.pre_r, s.waker, s.post, s.post_r, s.res),
        (s.res is Ready <==> s.post.resolved()),
    ensures
        sweep_trace(steps.push(s), m0, r0, apply_step(m1, s), s.post_r),
    decreases steps.len(),
{
    if steps.len() == 0 {
        assert(m1 == m0 && r1 == r0);
        assert(steps.push(s)[0] == s);
        assert(steps.push(s).drop_first() =~= Seq::<PollStep<F>>::empty());
        assert(sweep_trace(
            Seq::<PollStep<F>>::empty(),
            apply_step(m1, s),
            s.post_r,
            apply_step(m1, s),
            s.post_r,
        ));
    } else {
        assert(steps.push(s)[0] == steps[0]);
        assert(steps.push(s).drop_first() =~= steps.drop_first().push(s));
        lemma_sweep_trace_extend(
            steps.drop_first(),
            s,
            apply_step(m0, steps[0]),
            steps[0].post_r,
            m1,
            r1,
        );
    }
}

/// Whether `sub` can be read off `sup` in order, skipping elements.
pub open spec fn is_subsequence_of<A>(sub: Seq<A>, sup: Seq<A>) -> bool
    decreases sup.len(),
{
    if sub.len() == 0 {
        true
    } else if sup.len() == 0 {
        false
    } else if sub.last() == sup.last() {
        is_subsequence_of(sub.drop_last(), sup.drop_last()) || is_subsequence_of(
            sub,
            sup.drop_last(),
        )
    } else {
        is_subsequence_of(sub, sup.drop_last())
    }
}

/// A subsequence stays one when the larger sequence grows at the back.
proof fn lemma_subsequence_skip<A>(sub: Seq<A>, sup: Seq<A>, x: A)
    requires
        is_subsequence_of(sub, sup),
    ensures
        is_subsequence_of(sub, sup.push(x)),
{
    assert(sup.push(x).drop_last() =~= sup);
}

/// Appending the same element to both sequences keeps the subsequence
/// relation.
proof fn lemma_subsequence_push<A>(sub: Seq<A>, sup: Seq<A>, x: A)
    requires
        is_subsequence_of(sub, sup),
    ensures
        is_subsequence_of(sub.push(x), sup.push(x)),
{
    assert(sub.push(x).drop_last() =~= sub);
    assert(sup.push(x).drop_last() =~= sup);
    assert(sub.push(x).last() == sup.push(x).last());
}

/// A subsequence of a one-element sequence is empty or that sequence.
proof fn lemma_subsequence_of_singleton<A>(sub: Seq<A>, x: A)
    requires
        is_subsequence_of(sub, seq![x]),
    ensures
        sub.len() == 0 || sub == seq![x],
{
    if sub.len() > 0 {
        assert(seq![x].len() == 1);
        assert(seq![x].drop_last() =~= Seq::<A>::empty());
        if sub.last() == x {
            if sub.drop_last().len() > 0 {
                assert(!is_subsequence_of(sub.drop_last(), Seq::<A>::empty()));
                assert(!is_subsequence_of(sub, Seq::<A>::empty()));
                assert(false);
            }
            assert(sub =~= seq![x]);
        } else {
            assert(!is_subsequence_of(sub, Seq::<A>::empty()));
            assert(false);
        }
    }
}

/// Owns the spawned tasks of one thread and the queue of identities that are
/// ready to be polled.
pub struct Executor<F: Future> {
    tasks: HashMap<usize, F>,
    ready_queue: Vec<usize>,
    next_id: usize,
    polled: Ghost<Seq<usize>>,
    retired: Ghost<Set<usize>>,
}

impl<F: Future> Executor<F> {
    /// The task table: each pending task under its identity.
    pub closed spec fn tasks_view(&self) -> Map<usize, F> {
        self.tasks@
    }

    /// The ready queue, oldest identity first; `pop_ready` takes from the
    /// front.
    pub closed spec fn ready_view(&self) -> Seq<usize> {
        self.ready_queue@
    }

    /// The identity the next spawn will use; identities below it are spent.
    pub closed spec fn id_counter(&self) -> usize {
        self.next_id
    }

    /// Every identity ever polled, in the order the polls happened.
    pub closed spec fn polled_view(&self) -> Seq<usize> {
        self.polled@
    }

    /// Every identity whose task resolved and was discarded; such an
    /// identity never carries a task again.
    pub closed spec fn retired_view(&self) -> Set<usize> {
        self.retired@
    }

    /// Every stored task is pending (a resolved task is discarded, never
    /// stored), every stored identity was allocated before the counter and is
    /// not retired, and every retired identity was allocated before the
    /// counter.
    pub open spec fn wf(&self) -> bool {
        &&& forall|id: usize| #[trigger]
            self.tasks_view().dom().contains(id) ==> !self.tasks_view()[id].resolved() && id
                < self.id_counter() && !self.retired_view().contains(id)
        &&& forall|id: usize| #[trigger]
            self.retired_view().contains(id) ==> id < self.id_counter()
    }

    /// An executor with no tasks and an empty ready queue.
    pub fn new() -> (e: Executor<F>)
        ensures
            e.wf(),
            e.tasks_view() == Map::<usize, F>::empty(),
            e.ready_view() == Seq::<usize>::empty(),
            e.polled_view() == Seq::<usize>::empty(),
            e.retired_view() == Set::<usize>::empty(),
            e.id_counter() == 0,
    {
        Executor {
            tasks: HashMap::new(),
            ready_queue: Vec::new(),
            next_id: 0,
            polled: Ghost(Seq::empty()),
            retired: Ghost(Set::empty()),
        }
    }

    /// Pops the oldest enqueued identity off the ready queue, or `None` when
    /// the queue is empty: identities leave in the order they were enqueued.
    pub fn pop_ready(&mut self) -> (r: Option<usize>)
        ensures
            final(self).tasks_view() == old(self).tasks_view(),
            final(self).id_counter() == old(self).id_counter(),
            final(self).polled_view() == old(self).polled_view(),
            final(self).retired_view() == old(self).retired_view(),
            match r {
                Some(id) => old(self).ready_view().len() > 0 && id == old(self).ready_view()[0]
                    && final(self).ready_view() == old(self).ready_view().drop_first(),
                None => old(self).ready_view().len() == 0 && final(self).ready_view() == old(
                    self,
                ).ready_view(),
            },
    {
        if self.ready_queue.len() == 0 {
            None
        } else {
            let id = self.ready_queue.remove(0);
            proof {
                assert(self.ready_queue@ =~= old(self).ready_view().drop_first());
            }
            Some(id)
        }
    }

    /// Removes and returns the task stored under `id`; `None` when the
    /// identity has no task (retired, or a spurious wake).
    pub fn get_future(&mut self, id: usize) -> (r: Option<F>)
        ensures
            final(self).ready_view() == old(self).ready_view(),
            final(self).id_counter() == old(self).id_counter(),
            final(self).polled_view() == old(self).polled_view(),
            final(self).retired_view() == old(self).retired_view(),
            final(self).tasks_view() == old(self).tasks_view().remove(id),
            match r {
                Some(f) => old(self).tasks_view().dom().contains(id) && f == old(
                    self,
                ).tasks_view()[id],
                None => !old(self).tasks_view().dom().contains(id),
            },
    {
        self.tasks.remove(&id)
    }

    /// Builds the waker the executor hands to a task when polling it: a wake
    /// through it re-enqueues exactly that task's identity.
    pub fn get_waker(&self, id: usize) -> (w: Waker)
        ensures
            w.task_id() == id,
    {
        Waker::new(id)
    }

    /// Pushes `id` onto the ready queue; how a waker marks its task ready.
    pub(crate) fn enqueue(&mut self, id: usize)
        ensures
            final(self).ready_view() == old(self).ready_view().push(id),
            final(self).tasks_view() == old(self).tasks_view(),
            final(self).id_counter() == old(self).id_counter(),
            final(self).polled_view() == old(self).polled_view(),
            final(self).retired_view() == old(self).retired_view(),
    {
        self.ready_queue.push(id);
    }

    /// Stores a pending task back under its identity, as after a `NotReady`
    /// poll. A retired identity is never reused: storing under one is
    /// excluded.
    pub fn insert_task(&mut self, id: usize, task: F)
        requires
            old(self).wf(),
            !task.resolved(),
            id < old(self).id_counter(),
            !old(self).retired_view().contains(id),
        ensures
            final(self).wf(),
            final(self).tasks_view() == old(self).tasks_view().insert(id, task),
            final(self).ready_view() == old(self).ready_view(),
            final(self).id_counter() == old(self).id_counter(),
            final(self).polled_view() == old(self).polled_view(),
            final(self).retired_view() == old(self).retired_view(),
    {
        self.tasks.insert(id, task);
        proof {
            let m0 = old(self).tasks_view();
            let m1 = self.tasks_view();
            assert forall|j: usize| #[trigger] m1.dom().contains(j) implies !m1[j].resolved() && j
                < self.id_counter() && !self.retired_view().contains(j) by {
                if j != id {
                    assert(m0.dom().contains(j));
                    assert(m1[j] == m0[j]);
                }
            }
        }
    }

    /// How many tasks are stored, pending a wake or a poll.
    pub fn task_count(&self) -> (n: usize)
        ensures
            n == self.tasks_view().dom().len(),
    {
        self.tasks.len()
    }

    /// Drains the ready queue in queue order, oldest enqueued identity
    /// first. Every
    /// drained identity whose task is present is polled: `NotReady` stores
    /// the task back, `Ready` retires the identity for good; an identity
    /// without a task is skipped. When this returns, the ready queue is
    /// empty, so the caller may park (tasks remain) or stop (none do): every
    /// identity that was both enqueued and live has been polled first.
    pub fn run_ready_tasks(&mut self, reactor: &mut Reactor)
        requires
            old(self).wf(),
        ensures
            final(self).wf(),
            final(self).ready_view() == Seq::<usize>::empty(),
            final(self).id_counter() == old(self).id_counter(),
            final(self).tasks_view().dom().subset_of(old(self).tasks_view().dom()),
            old(self).polled_view().is_prefix_of(final(self).polled_view()),
            forall|id: usize|
                old(self).ready_view().contains(id) && old(self).tasks_view().dom().contains(id)
                    ==> final(self).polled_view().skip(
                    old(self).polled_view().len() as int,
                ).contains(id),
            forall|id: usize|
                old(self).tasks_view().dom().contains(id) && !final(self).polled_view().skip(
                    old(self).polled_view().len() as int,
                ).contains(id) ==> final(self).tasks_view().dom().contains(id)
                    && final(self).tasks_view()[id] == old(self).tasks_view()[id],
            forall|id: usize|
                #[trigger] final(self).retired_view().contains(id) <==> old(
                    self,
                ).retired_view().contains(id) || (old(self).tasks_view().dom().contains(id)
                    && !final(self).tasks_view().dom().contains(id)),
            exists|steps: Seq<PollStep<F>>|
                {
                    &&& #[trigger] sweep_trace(
                        steps,
                        old(self).tasks_view(),
                        *old(reactor),
                        final(self).tasks_view(),
                        *final(reactor),
                    )
                    &&& step_ids(steps) == final(self).polled_view().skip(
                        old(self).polled_view().len() as int,
                    )
                    &&& is_subsequence_of(step_ids(steps), old(self).ready_view())
                },
    {
        let ghost base: int = self.polled@.len() as int;
        let ghost mut steps: Seq<PollStep<F>> = Seq::empty();
        proof {
            assert(step_ids::<F>(steps) =~= Seq::<usize>::empty());
            assert(self.polled_view().skip(base) =~= Seq::<usize>::empty());
            assert(old(self).ready_view().take(0) =~= Seq::<usize>::empty());
            assert(self.ready_view() =~= old(self).ready_view().skip(0));
        }
        while self.ready_len() > 0
            invariant
                self.wf(),
                self.id_counter() == old(self).id_counter(),
                self.tasks_view().dom().subset_of(old(self).tasks_view().dom()),
                old(self).polled_view().is_prefix_of(self.polled_view()),
                base == old(self).polled_view().len(),
                forall|id: usize|
                    old(self).ready_view().contains(id) && old(self).tasks_view().dom().contains(
                        id,
                    ) ==> self.ready_view().contains(id) || self.polled_view().skip(base).contains(
                        id,
                    ),
                forall|id: usize|
                    old(self).tasks_view().dom().contains(id) && !self.tasks_view().dom().contains(
                        id,
                    ) ==> self.polled_view().skip(base).contains(id),
                forall|id: usize|
                    old(self).tasks_view().dom().contains(id) && !self.polled_view().skip(
                        base,
                    ).contains(id) ==> self.tasks_view().dom().contains(id)
                        && self.tasks_view()[id] == old(self).tasks_view()[id],
                forall|id: usize|
                    #[trigger] self.retired_view().contains(id) <==> old(
                        self,
                    ).retired_view().contains(id) || (old(self).tasks_view().dom().contains(id)
                        && !self.tasks_view().dom().contains(id)),
                self.ready_view().len() <= old(self).ready_view().len(),
                self.ready_view() == old(self).ready_view().skip(
                    old(self).ready_view().len() - self.ready_view().len(),
                ),
                sweep_trace(
                    steps,
                    old(self).tasks_view(),
                    *old(reactor),
                    self.tasks_view(),
                    *reactor,
                ),
                step_ids(steps) == self.polled_view().skip(base),
                is_subsequence_of(
                    step_ids(steps),
                    old(self).ready_view().take(
                        old(self).ready_view().len() - self.ready_view().len(),
                    ),
                ),
            decreases self.ready_view().len(),
        {
            let ghost ready_before = self.ready_view();
            let ghost polled_before = self.polled_view();
            let popped = self.pop_ready();
            match popped {
                None => {
                    proof {
                        assert(false);
                    }
                },
                Some(id) => {
                    proof {
                        assert forall|j: usize|
                            ready_before.contains(j) && !self.ready_view().contains(
                                j,
                            ) implies j == id by {
                            let k = choose|k: int|
                                0 <= k < ready_before.len() && ready_before[k] == j;
                            if k > 0 {
                                assert(self.ready_view()[k - 1] == j);
                            }
                        }
                        // the popped identity extends the drained window of
                        // the initial queue, oldest first
                        let jj = old(self).ready_view().len() - ready_before.len();
                        assert(self.ready_view() =~= old(self).ready_view().skip(jj + 1));
                        assert(id == ready_before[0]);
                        assert(old(self).ready_view()[jj] == id);
                        assert(old(self).ready_view().take(jj + 1) =~= old(
                            self,
                        ).ready_view().take(jj).push(id));
                    }
                    let ghost tasks_before = self.tasks_view();
                    let got = self.get_future(id);
                    match got {
                        None => {
                            proof {
                                assert(self.tasks_view() =~= tasks_before);
                                let jj = old(self).ready_view().len() - ready_before.len();
                                lemma_subsequence_skip(
                                    step_ids(steps),
                                    old(self).ready_view().take(jj),
                                    id,
                                );
                            }
                        },
                        Some(mut fut) => {
                            proof {
                                self.polled@ = self.polled@.push(id);
                            }
                            proof {
                                assert(self.polled_view().skip(base) =~= polled_before.skip(
                                    base,
                                ).push(id));
                                assert(old(self).polled_view().is_prefix_of(self.polled_view()));
                                assert(self.polled_view().skip(base).contains(id)) by {
                                    let s = self.polled_view().skip(base);
                                    assert(s[s.len() - 1] == id);
                                }
                            }
                            let ghost fut_pre = fut;
                            let ghost r_pre = *reactor;
                            let w = self.get_waker(id);
                            let res = fut.poll(&w, reactor);
                            let ghost fut_post = fut;
                            let ghost r_post = *reactor;
                            let ghost steps0 = steps;
                            match res {
                                PollState::NotReady => {
                                    self.insert_task(id, fut);
                                    proof {
                                        let s = (PollStep::<F> {
                                            id,
                                            waker: w,
                                            pre: fut_pre,
                                            post: fut_post,
                                            pre_r: r_pre,
                                            post_r: r_post,
                                            res: PollState::<F::Output>::NotReady,
                                        });
                                        lemma_sweep_trace_extend(
                                            steps,
                                            s,
                                            old(self).tasks_view(),
                                            *old(reactor),
                                            tasks_before,
                                            r_pre,
                                        );
                                        steps = steps.push(s);
                                        assert(apply_step(tasks_before, s) =~= self.tasks_view());
                                    }
                                },
                                PollState::Ready(v) => {
                                    proof {
                                        self.retired@ = self.retired@.insert(id);
                                        let s = (PollStep::<F> {
                                            id,
                                            waker: w,
                                            pre: fut_pre,
                                            post: fut_post,
                                            pre_r: r_pre,
                                            post_r: r_post,
                                            res: PollState::Ready(v),
                                        });
                                        lemma_sweep_trace_extend(
                                            steps,
                                            s,
                                            old(self).tasks_view(),
                                            *old(reactor),
                                            tasks_before,
                                            r_pre,
                                        );
                                        steps = steps.push(s);
                                        assert(apply_step(tasks_before, s) =~= self.tasks_view());
                                    }
                                },
                            }
                            proof {
                                assert(step_ids(steps) =~= step_ids(steps0).push(id));
                                let jj = old(self).ready_view().len() - ready_before.len();
                                lemma_subsequence_push(
                                    step_ids(steps0),
                                    old(self).ready_view().take(jj),
                                    id,
                                );
                                assert forall|j: usize|
                                    polled_before.skip(base).contains(
                                        j,
                                    ) implies self.polled_view().skip(base).contains(j) by {
                                    let s0 = polled_before.skip(base);
                                    let s1 = self.polled_view().skip(base);
                                    let k = choose|k: int| 0 <= k < s0.len() && s0[k] == j;
                                    assert(s1[k] == j);
                                }
                            }
                        },
                    }
                },
            }
        }
        proof {
            assert(self.ready_view() =~= Seq::<usize>::empty());
            assert(old(self).ready_view().take(old(self).ready_view().len() - 0) =~= old(
                self,
            ).ready_view());
            assert(sweep_trace(
                steps,
                old(self).tasks_view(),
                *old(reactor),
                self.tasks_view(),
                *reactor,
            ));
        }
    }

    /// How many identities are waiting in the ready queue.
    pub fn ready_len(&self) -> (n: usize)
        ensures
            n == self.ready_view().len(),
    {
        self.ready_queue.len()
    }
}

/// Stores `future` in `exec`'s task table under a fresh identity and enqueues
/// that identity, so the task is polled at least once.
pub fn spawn<F: Future>(exec: &mut Executor<F>, future: F)
    requires
        old(exec).wf(),
        !future.resolved(),
        old(exec).id_counter() < usize::MAX,
    ensures
        final(exec).wf(),
        !old(exec).tasks_view().dom().contains(old(exec).id_counter()),
        final(exec).tasks_view() == old(exec).tasks_view().insert(
            old(exec).id_counter(),
            future,
        ),
        final(exec).ready_view() == old(exec).ready_view().push(old(exec).id_counter()),
        final(exec).id_counter() == old(exec).id_counter() + 1,
        final(exec).polled_view() == old(exec).polled_view(),
        final(exec).retired_view() == old(exec).retired_view(),
{
    let id = exec.next_id;
    exec.tasks.insert(id, future);
    exec.ready_queue.push(id);
    exec.next_id = id + 1;
    proof {
        let m0 = old(exec).tasks_view();
        let m1 = exec.tasks_view();
        assert forall|j: usize| #[trigger] m1.dom().contains(j) implies !m1[j].resolved() && j
            < exec.id_counter() && !exec.retired_view().contains(j) by {
            if j != id {
                assert(m0.dom().contains(j));
                assert(m1[j] == m0[j]);
            } else {
                assert(!old(exec).retired_view().contains(j));
            }
        }
        assert forall|j: usize| #[trigger] exec.retired_view().contains(j) implies j
            < exec.id_counter() by {
            assert(old(exec).retired_view().contains(j));
        }
        assert(!m0.dom().contains(id));
    }
}

/// The cycle law of a blocking caller, end to end, for a lone countdown
/// task: one wake followed by one sweep — what the driver does between two
/// parks — polls the task exactly once. While the countdown is positive the
/// task returns `NotReady` and stays in the table, one poll closer to
/// resolution; at zero it resolves and the table empties. So a future built
/// to answer `NotReady` exactly `n` times resolves after exactly `n` wake
/// cycles beyond its initial poll, leaving the task table empty, and a
/// caller that parks while `task_count()` is positive and stops at zero
/// returns exactly then. The hypotheses are precisely what [`Waker::wake`]
/// and [`Executor::run_ready_tasks`] ensure in this state.
pub proof fn lemma_block_on_cycle(
    e0: Executor<CountdownFuture>,
    e1: Executor<CountdownFuture>,
    e2: Executor<CountdownFuture>,
    r1: Reactor,
    r2: Reactor,
    id: usize,
    n: usize,
)
    requires
        e0.wf(),
        e0.ready_view() == Seq::<usize>::empty(),
        e0.tasks_view().dom() == set![id],
        e0.tasks_view()[id].remaining_polls() == n,
        e1.ready_view() == e0.ready_view().push(id),
        e1.tasks_view() == e0.tasks_view(),
        e1.polled_view() == e0.polled_view(),
        e2.ready_view() == Seq::<usize>::empty(),
        forall|j: usize|
            e1.ready_view().contains(j) && e1.tasks_view().dom().contains(j)
                ==> e2.polled_view().skip(e1.polled_view().len() as int).contains(j),
        exists|steps: Seq<PollStep<CountdownFuture>>|
            {
                &&& #[trigger] sweep_trace(steps, e1.tasks_view(), r1, e2.tasks_view(), r2)
                &&& step_ids(steps) == e2.polled_view().skip(e1.polled_view().len() as int)
                &&& is_subsequence_of(step_ids(steps), e1.ready_view())
            },
    ensures
        n > 0 ==> e2.tasks_view().dom() == set![id] && e2.tasks_view()[id].remaining_polls() == (
        n - 1) as usize,
        n == 0 ==> e2.tasks_view().dom() == Set::<usize>::empty(),
{
    let steps = choose|steps: Seq<PollStep<CountdownFuture>>|
        {
            &&& #[trigger] sweep_trace(steps, e1.tasks_view(), r1, e2.tasks_view(), r2)
            &&& step_ids(steps) == e2.polled_view().skip(e1.polled_view().len() as int)
            &&& is_subsequence_of(step_ids(steps), e1.ready_view())
        };
    let ids = step_ids(steps);
    assert(e1.ready_view() =~= seq![id]);
    lemma_subsequence_of_singleton(ids, id);
    assert(e1.tasks_view().dom().contains(id));
    assert(e1.ready_view().contains(id)) by {
        assert(e1.ready_view()[0] == id);
    }
    assert(ids.contains(id));
    assert(ids == seq![id]);
    assert(steps.len() == 1);
    let s = steps[0];
    assert(s.id == id) by {
        assert(ids[0] == s.id);
    }
    assert(s.pre == e1.tasks_view()[id]);
    assert(steps.drop_first() =~= Seq::<PollStep<CountdownFuture>>::empty());
    assert(sweep_trace(
        Seq::<PollStep<CountdownFuture>>::empty(),
        apply_step(e1.tasks_view(), s),
        s.post_r,
        e2.tasks_view(),
        r2,
    ));
    assert(e2.tasks_view() == apply_step(e1.tasks_view(), s));
    if n > 0 {
        assert(s.res is NotReady);
        assert(e2.tasks_view() == e1.tasks_view().insert(id, s.post));
        assert(e2.tasks_view().dom() =~= set![id]);
    } else {
        assert(s.res is Ready);
        assert(e2.tasks_view() == e1.tasks_view().remove(id));
        assert(e2.tasks_view().dom() =~= Set::<usize>::empty());
    }
}

} // verus!
