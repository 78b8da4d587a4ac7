//! Tasks, alone and in sets.

use vstd::prelude::*;
use crate::runtime::executor;
use crate::runtime::executor::{cancel_task, is_task_finished, Cleanup, ExecState, Executor, PluginIds, TaskSlot, MAX_SLOTS};
use crate::runtime::join;
use crate::runtime::wait;
use crate::tokio::poll::Poll;

verus! {

/// A task that did not come to its end.
pub struct JoinError {
    cancelled: bool,
}

impl JoinError {
    pub closed spec fn was_cancelled(&self) -> bool {
        self.cancelled
    }

    /// Was the task cancelled?
    pub fn is_cancelled(&self) -> (r: bool)
        ensures
            r == self.was_cancelled(),
    {
        self.cancelled
    }
}

/// A spawned task.
pub struct JoinHandle {
    pub inner: join::JoinHandle,
}

/// Spawns a task on behalf of the current plugin. It is ready to run, last in the queue.
pub fn spawn<P, W>(ex: &mut Executor<P, W>, ids: &PluginIds, payload: P) -> (r: JoinHandle)
    requires
        old(ex)@.wf(),
        old(ex)@.free.len() > 0 || old(ex)@.slots.len() < MAX_SLOTS,
    ensures
        final(ex)@.wf(),
        ({
            let (v, id, gen) = executor::allocated(old(ex)@);
            &&& r.inner == (join::JoinHandle { id, gen, taken: false })
            &&& final(ex)@ == executor::spawned(v, id, payload, ids.current)
            &&& final(ex)@.has(id)
            &&& final(ex)@.slots.len() >= old(ex)@.slots.len()
        }),
{
    let inner = join::spawn(ex, ids, payload);
    JoinHandle { inner }
}

impl JoinHandle {
    /// Cancels the task. What is left of it is to be dropped.
    pub fn abort<P, W>(&self, ex: &mut Executor<P, W>) -> (r: Option<Cleanup<P>>)
        requires
            old(ex)@.wf(),
            old(ex)@.has(self.inner.id),
        ensures
            final(ex)@.wf(),
            final(ex)@ == executor::cancel_begun(old(ex)@, self.inner.id, self.inner.gen),
            r is Some <==> old(ex)@.slot(self.inner.id).generation == self.inner.gen && executor::live(
                old(ex)@.slot(self.inner.id),
            ),
            r matches Some(c) ==> c == executor::cleanup_of(self.inner.id, old(ex)@.slot(self.inner.id)),
    {
        self.inner.abort(ex)
    }

    /// Something to cancel the task with.
    pub fn abort_handle(&self) -> (r: AbortHandle)
        ensures
            r == (AbortHandle { id: self.inner.id, gen: self.inner.gen }),
    {
        AbortHandle { id: self.inner.id, gen: self.inner.gen }
    }

    /// Is the task over?
    pub fn is_finished<P, W>(&self, ex: &Executor<P, W>) -> (r: bool)
        ensures
            r == executor::finished(ex@, self.inner.id, self.inner.gen),
    {
        self.inner.is_finished(ex)
    }

    /// Waits for the task: its result, or an error if it was cancelled.
    pub fn poll<P, W>(&mut self, ex: &mut Executor<P, W>, waker: W) -> (r: Poll<Result<P, JoinError>>)
        requires
            old(ex)@.wf(),
            old(ex)@.has(old(self).inner.id),
        ensures
            final(ex)@.wf(),
            outcome_of(join::joined(old(ex)@, old(self).inner), r),
            final(self).inner == (join::JoinHandle { taken: old(self).inner.taken || r is Ready, ..old(self).inner }),
            final(ex)@ == polled(old(ex)@, old(self).inner, waker),
    {
        match self.inner.poll(ex, waker) {
            Poll::Ready(Some(v)) => Poll::Ready(Ok(v)),
            Poll::Ready(None) => Poll::Ready(Err(JoinError { cancelled: true })),
            Poll::Pending => Poll::Pending,
        }
    }
}

/// A task without a result counts as cancelled.
pub open spec fn outcome_of<P>(inner: Poll<Option<P>>, r: Poll<Result<P, JoinError>>) -> bool {
    match inner {
        Poll::Ready(Some(v)) => r == Poll::Ready(Ok::<P, JoinError>(v)),
        Poll::Ready(None) => r matches Poll::Ready(Err(e)) && e.was_cancelled(),
        Poll::Pending => r is Pending,
    }
}

/// The executor after a task has been waited for once.
pub open spec fn polled<P, W>(v: ExecState<P, W>, h: join::JoinHandle, waker: W) -> ExecState<P, W> {
    if join::joined(v, h) is Pending {
        v.put(h.id, TaskSlot { join_waker: Some(waker), ..v.slot(h.id) })
    } else {
        wait::result_taken(v, h.id, h.gen)
    }
}

/// Something to cancel a task with.
#[derive(Clone, Copy)]
pub struct AbortHandle {
    pub id: u32,
    pub gen: u32,
}

impl AbortHandle {
    /// Cancels the task. What is left of it is to be dropped.
    pub fn abort<P, W>(&self, ex: &mut Executor<P, W>) -> (r: Option<Cleanup<P>>)
        requires
            old(ex)@.wf(),
            old(ex)@.has(self.id),
        ensures
            final(ex)@.wf(),
            final(ex)@ == executor::cancel_begun(old(ex)@, self.id, self.gen),
            r is Some <==> old(ex)@.slot(self.id).generation == self.gen && executor::live(old(ex)@.slot(self.id)),
            r matches Some(c) ==> c == executor::cleanup_of(self.id, old(ex)@.slot(self.id)),
    {
        cancel_task(ex, self.id, self.gen)
    }

    /// Is the task over?
    pub fn is_finished<P, W>(&self, ex: &Executor<P, W>) -> (r: bool)
        ensures
            r == executor::finished(ex@, self.id, self.gen),
    {
        is_task_finished(ex, self.id, self.gen)
    }
}

// ---------------------------------------------------------------------------
// Sets of tasks
// ---------------------------------------------------------------------------

/// Tasks that are waited for together.
pub struct JoinSet {
    pub handles: Vec<JoinHandle>,
}

/// Are all slots of the set slots of the executor?
pub open spec fn known<P, W>(v: ExecState<P, W>, hs: Seq<JoinHandle>) -> bool {
    forall|i: int| 0 <= i < hs.len() ==> v.has((#[trigger] hs[i]).inner.id)
}

/// Are all of these clones of the waker?
pub open spec fn clones<W: Clone>(waker: W, wakers: Seq<W>) -> bool {
    forall|i: int| 0 <= i < wakers.len() ==> cloned(waker, #[trigger] wakers[i])
}

/// The executor after the first `n` tasks have been waited for once, each with its waker.
pub open spec fn all_polled<P, W>(v: ExecState<P, W>, hs: Seq<JoinHandle>, n: int, wakers: Seq<W>) -> ExecState<P, W>
    decreases n,
{
    if n <= 0 {
        v
    } else {
        polled(all_polled(v, hs, n - 1, wakers), hs[n - 1].inner, wakers[n - 1])
    }
}

/// Who waits for the tasks behind these does not matter.
proof fn lemma_more_wakers<P, W>(v: ExecState<P, W>, hs: Seq<JoinHandle>, n: int, wakers: Seq<W>, w: W)
    requires
        n <= wakers.len(),
    ensures
        all_polled(v, hs, n, wakers.push(w)) == all_polled(v, hs, n, wakers),
    decreases n,
{
    if n > 0 {
        lemma_more_wakers(v, hs, n - 1, wakers, w);
    }
}

/// Is none of the first `n` tasks over when it is waited for?
pub open spec fn none_over<P, W>(v: ExecState<P, W>, hs: Seq<JoinHandle>, n: int, wakers: Seq<W>) -> bool
    decreases n,
{
    n <= 0 || none_over(v, hs, n - 1, wakers) && join::joined(all_polled(v, hs, n - 1, wakers), hs[n - 1].inner) is Pending
}

proof fn lemma_none_over<P, W>(v: ExecState<P, W>, hs: Seq<JoinHandle>, n: int, wakers: Seq<W>, w: W)
    requires
        n <= wakers.len(),
    ensures
        none_over(v, hs, n, wakers.push(w)) == none_over(v, hs, n, wakers),
    decreases n,
{
    if n > 0 {
        lemma_none_over(v, hs, n - 1, wakers, w);
        lemma_more_wakers(v, hs, n - 1, wakers, w);
    }
}

/// Another waker for another task.
proof fn lemma_another_waker<P, W: Clone>(v: ExecState<P, W>, hs: Seq<JoinHandle>, wakers: Seq<W>, waker: W, w: W)
    requires
        clones(waker, wakers),
        cloned(waker, w),
    ensures
        clones(waker, wakers.push(w)),
        all_polled(v, hs, wakers.len() as int, wakers.push(w)) == all_polled(v, hs, wakers.len() as int, wakers),
        none_over(v, hs, wakers.len() as int, wakers.push(w)) == none_over(v, hs, wakers.len() as int, wakers),
{
    let more = wakers.push(w);
    assert forall|j: int| 0 <= j < more.len() implies cloned(waker, #[trigger] more[j]) by {
        if j < wakers.len() {
            assert(more[j] == wakers[j]);
        }
    }
    lemma_more_wakers(v, hs, wakers.len() as int, wakers, w);
    lemma_none_over(v, hs, wakers.len() as int, wakers, w);
}

/// What waiting for one of the tasks comes to: they are waited for in turn up to the first that is
/// over, which leaves the set.
pub open spec fn joined_next<P, W>(
    v: ExecState<P, W>,
    hs: Seq<JoinHandle>,
    wakers: Seq<W>,
    after: ExecState<P, W>,
    left: Seq<JoinHandle>,
    r: Poll<Option<Result<P, JoinError>>>,
) -> bool {
    match r {
        Poll::Pending => {
            &&& hs.len() > 0
            &&& wakers.len() == hs.len()
            &&& left == hs
            &&& after == all_polled(v, hs, hs.len() as int, wakers)
            &&& none_over(v, hs, hs.len() as int, wakers)
        },
        Poll::Ready(None) => hs.len() == 0 && left == hs && after == v,
        Poll::Ready(Some(x)) => exists|k: int|
            {
                &&& 0 <= k < hs.len()
                &&& wakers.len() == k + 1
                &&& left == swap_removed(hs, k)
                &&& after == #[trigger] all_polled(v, hs, k + 1, wakers)
                &&& outcome_of(join::joined(all_polled(v, hs, k, wakers), hs[k].inner), Poll::Ready(x))
                &&& none_over(v, hs, k, wakers)
            },
    }
}

/// The executor after the first `n` tasks have been cancelled.
pub open spec fn all_aborted<P, W>(v: ExecState<P, W>, hs: Seq<JoinHandle>, n: int) -> ExecState<P, W>
    decreases n,
{
    if n <= 0 {
        v
    } else {
        executor::cancel_begun(all_aborted(v, hs, n - 1), hs[n - 1].inner.id, hs[n - 1].inner.gen)
    }
}

/// What is to be dropped of the first `n` tasks that are cancelled.
pub open spec fn abort_cleanups<P, W>(v: ExecState<P, W>, hs: Seq<JoinHandle>, n: int) -> Seq<Cleanup<P>>
    decreases n,
{
    if n <= 0 {
        Seq::empty()
    } else {
        let before = all_aborted(v, hs, n - 1);
        let h = hs[n - 1].inner;
        if before.slot(h.id).generation == h.gen && executor::live(before.slot(h.id)) {
            abort_cleanups(v, hs, n - 1).push(executor::cleanup_of(h.id, before.slot(h.id)))
        } else {
            abort_cleanups(v, hs, n - 1)
        }
    }
}

/// The executor after nobody waits for the first `n` tasks any more.
pub open spec fn all_detached<P, W>(v: ExecState<P, W>, hs: Seq<JoinHandle>, n: int) -> ExecState<P, W>
    decreases n,
{
    if n <= 0 {
        v
    } else if hs[n - 1].inner.taken {
        all_detached(v, hs, n - 1)
    } else {
        executor::detached(all_detached(v, hs, n - 1), hs[n - 1].inner.id, hs[n - 1].inner.gen)
    }
}

/// What is to be dropped of the first `n` tasks that nobody waits for any more.
pub open spec fn detach_cleanups<P, W>(v: ExecState<P, W>, hs: Seq<JoinHandle>, n: int) -> Seq<Cleanup<P>>
    decreases n,
{
    if n <= 0 {
        Seq::empty()
    } else {
        let before = all_detached(v, hs, n - 1);
        let h = hs[n - 1].inner;
        if !h.taken && wait::holds_result(before, h.id, h.gen) {
            detach_cleanups(v, hs, n - 1).push(executor::cleanup_of(h.id, before.slot(h.id)))
        } else {
            detach_cleanups(v, hs, n - 1)
        }
    }
}

/// The sequence with its last element in the place of the `i`th.
pub open spec fn swap_removed<T>(s: Seq<T>, i: int) -> Seq<T> {
    if i == s.len() - 1 {
        s.drop_last()
    } else {
        s.update(i, s.last()).drop_last()
    }
}

impl JoinSet {
    pub fn new() -> (r: Self)
        ensures
            r.handles@.len() == 0,
    {
        JoinSet { handles: Vec::new() }
    }

    pub fn len(&self) -> (r: usize)
        ensures
            r == self.handles@.len(),
    {
        self.handles.len()
    }

    pub fn is_empty(&self) -> (r: bool)
        ensures
            r == (self.handles@.len() == 0),
    {
        self.handles.len() == 0
    }

    /// Spawns a task, which belongs to the set.
    pub fn spawn<P, W>(&mut self, ex: &mut Executor<P, W>, ids: &PluginIds, payload: P) -> (r: AbortHandle)
        requires
            old(ex)@.wf(),
            old(ex)@.free.len() > 0 || old(ex)@.slots.len() < MAX_SLOTS,
            known(old(ex)@, old(self).handles@),
        ensures
            final(ex)@.wf(),
            known(final(ex)@, final(self).handles@),
            final(self).handles@.len() == old(self).handles@.len() + 1,
            final(self).handles@.drop_last() == old(self).handles@,
            final(self).handles@.last() == (JoinHandle {
                inner: join::JoinHandle { id: r.id, gen: r.gen, taken: false },
            }),
            ({
                let (v, id, gen) = executor::allocated(old(ex)@);
                &&& r == (AbortHandle { id, gen })
                &&& final(ex)@ == executor::spawned(v, id, payload, ids.current)
            }),
    {
        let handle = spawn(ex, ids, payload);
        let abort_handle = handle.abort_handle();
        self.handles.push(handle);
        assert(self.handles@.drop_last() =~= old(self).handles@);
        abort_handle
    }

    /// Waits for one of the tasks: the first that is over leaves the set, and the last one takes its
    /// place. `None` if the set is empty.
    #[verifier::rlimit(60)]
    #[verifier::spinoff_prover]
    pub fn join_next<P, W: Clone>(&mut self, ex: &mut Executor<P, W>, waker: W) -> (r: Poll<Option<Result<P, JoinError>>>)
        requires
            old(ex)@.wf(),
            known(old(ex)@, old(self).handles@),
        ensures
            final(ex)@.wf(),
            exists|wakers: Seq<W>| #[trigger]
                clones(waker, wakers) && joined_next(
                    old(ex)@,
                    old(self).handles@,
                    wakers,
                    final(ex)@,
                    final(self).handles@,
                    r,
                ),
    {
        let ghost v = ex@;
        let ghost hs = self.handles@;
        let ghost mut wakers: Seq<W> = Seq::empty();
        assert(clones(waker, wakers));
        if self.handles.len() == 0 {
            return Poll::Ready(None);
        }
        let mut i: usize = 0;
        while i < self.handles.len()
            invariant
                ex@.wf(),
                i <= hs.len(),
                hs.len() > 0,
                self.handles@ == hs,
                hs == old(self).handles@,
                v == old(ex)@,
                known(v, hs),
                ex@.slots.len() == v.slots.len(),
                wakers.len() == i,
                clones(waker, wakers),
                ex@ == all_polled(v, hs, i as int, wakers),
                none_over(v, hs, i as int, wakers),
            decreases hs.len() - i,
        {
            assert(hs[i as int].inner == self.handles@[i as int].inner);
            let w = waker.clone();
            proof {
                lemma_another_waker(v, hs, wakers, waker, w);
                wakers = wakers.push(w);
            }
            let before = &mut self.handles[i];
            let r = before.poll(ex, w);
            match r {
                Poll::Ready(result) => {
                    let ghost changed = self.handles@;
                    let gone = self.handles.swap_remove(i);
                    proof {
                        let k = i as int;
                        assert(changed =~= hs.update(k, changed[k]));
                        assert(self.handles@ =~= swap_removed(hs, k));
                        assert(ex@ == all_polled(v, hs, k + 1, wakers));
                    }
                    return Poll::Ready(Some(result));
                },
                Poll::Pending => {
                    assert(self.handles@ =~= hs);
                },
            }
            i = i + 1;
        }
        Poll::Pending
    }

    /// Cancels all tasks; they stay in the set. What is left of them is to be dropped.
    pub fn abort_all<P, W>(&mut self, ex: &mut Executor<P, W>) -> (r: Vec<Cleanup<P>>)
        requires
            old(ex)@.wf(),
            known(old(ex)@, old(self).handles@),
        ensures
            final(ex)@.wf(),
            final(self).handles@ == old(self).handles@,
            final(ex)@ == all_aborted(old(ex)@, old(self).handles@, old(self).handles@.len() as int),
            final(ex)@.slots.len() == old(ex)@.slots.len(),
            r@ == abort_cleanups(old(ex)@, old(self).handles@, old(self).handles@.len() as int),
    {
        let ghost v = ex@;
        let ghost hs = self.handles@;
        let mut out: Vec<Cleanup<P>> = Vec::new();
        let mut i: usize = 0;
        while i < self.handles.len()
            invariant
                ex@.wf(),
                i <= hs.len(),
                self.handles@ == hs,
                hs == old(self).handles@,
                v == old(ex)@,
                known(v, hs),
                ex@.slots.len() == v.slots.len(),
                ex@ == all_aborted(v, hs, i as int),
                out@ == abort_cleanups(v, hs, i as int),
            decreases hs.len() - i,
        {
            assert(v.has(hs[i as int].inner.id));
            match self.handles[i].abort(ex) {
                Some(c) => {
                    out.push(c);
                },
                None => {},
            }
            i = i + 1;
        }
        out
    }

    /// Lets all tasks go on by themselves; the set is empty. The results that nobody will take are
    /// to be dropped.
    pub fn detach_all<P, W>(&mut self, ex: &mut Executor<P, W>) -> (r: Vec<Cleanup<P>>)
        requires
            old(ex)@.wf(),
        ensures
            final(ex)@.wf(),
            final(self).handles@.len() == 0,
            final(ex)@ == all_detached(old(ex)@, old(self).handles@, old(self).handles@.len() as int),
            r@ == detach_cleanups(old(ex)@, old(self).handles@, old(self).handles@.len() as int),
    {
        let ghost v = ex@;
        let ghost hs = self.handles@;
        let mut out: Vec<Cleanup<P>> = Vec::new();
        let mut i: usize = 0;
        while i < self.handles.len()
            invariant
                ex@.wf(),
                i <= hs.len(),
                self.handles@ == hs,
                hs == old(self).handles@,
                v == old(ex)@,
                ex@ == all_detached(v, hs, i as int),
                out@ == detach_cleanups(v, hs, i as int),
            decreases hs.len() - i,
        {
            let inner = &self.handles[i].inner;
            let handle = join::JoinHandle { id: inner.id, gen: inner.gen, taken: inner.taken };
            match handle.release(ex) {
                Some(c) => {
                    out.push(c);
                },
                None => {},
            }
            i = i + 1;
        }
        self.handles = Vec::new();
        out
    }

    /// Cancels all tasks and waits for them, which takes no time; the set is empty. What is left of
    /// them is to be dropped.
    pub fn shutdown<P, W>(&mut self, ex: &mut Executor<P, W>) -> (r: Vec<Cleanup<P>>)
        requires
            old(ex)@.wf(),
            known(old(ex)@, old(self).handles@),
        ensures
            final(ex)@.wf(),
            final(self).handles@.len() == 0,
            final(ex)@ == all_aborted(old(ex)@, old(self).handles@, old(self).handles@.len() as int),
            r@ == abort_cleanups(old(ex)@, old(self).handles@, old(self).handles@.len() as int),
    {
        let out = self.abort_all(ex);
        self.handles = Vec::new();
        out
    }
}

/// Once all tasks of a set have been cancelled each of them is over: waiting for the set no longer
/// makes anybody wait.
pub proof fn aborted_tasks_are_over<P, W>(v: ExecState<P, W>, hs: Seq<JoinHandle>, n: int, i: int)
    requires
        known(v, hs),
        0 <= i < n <= hs.len(),
    ensures
        all_aborted(v, hs, n).slots.len() == v.slots.len(),
        executor::finished(all_aborted(v, hs, n), hs[i].inner.id, hs[i].inner.gen),
        join::joined(all_aborted(v, hs, n), hs[i].inner) == Poll::Ready(None::<P>),
    decreases n,
{
    let before = all_aborted(v, hs, n - 1);
    assert(v.has(hs[n - 1].inner.id));
    assert(v.has(hs[i].inner.id));
    lemma_aborted_len(v, hs, n - 1);
    if i < n - 1 {
        aborted_tasks_are_over(v, hs, n - 1, i);
    }
}

proof fn lemma_aborted_len<P, W>(v: ExecState<P, W>, hs: Seq<JoinHandle>, n: int)
    requires
        known(v, hs),
        0 <= n <= hs.len(),
    ensures
        all_aborted(v, hs, n).slots.len() == v.slots.len(),
    decreases n,
{
    if n > 0 {
        lemma_aborted_len(v, hs, n - 1);
        assert(v.has(hs[n - 1].inner.id));
    }
}

// ---------------------------------------------------------------------------
// Small futures
// ---------------------------------------------------------------------------

/// Gives way to the other tasks once.
pub struct YieldNow {
    pub yielded: bool,
}

pub fn yield_now() -> (r: YieldNow)
    ensures
        !r.yielded,
{
    YieldNow { yielded: false }
}

impl YieldNow {
    /// The first time it is not ready, and whoever polls it is to be woken at once; then it is.
    pub fn poll(&mut self) -> (r: (Poll<()>, bool))
        ensures
            final(self).yielded,
            r.0 is Ready <==> old(self).yielded,
            r.1 == !old(self).yielded,
    {
        if self.yielded {
            (Poll::Ready(()), false)
        } else {
            self.yielded = true;
            (Poll::Pending, true)
        }
    }
}

/// What a thread and the task that waits for it share.
pub struct BlockingState<T, W> {
    pub result: Option<T>,
    pub waker: Option<W>,
}

impl<T, W> BlockingState<T, W> {
    pub fn new() -> (r: Self)
        ensures
            r.result is None,
            r.waker is None,
    {
        BlockingState { result: None, waker: None }
    }

    /// The thread is done. Who waits for it is to be woken.
    pub fn finish(&mut self, result: T) -> (wake: Option<W>)
        ensures
            wake == old(self).waker,
            final(self).result == Some(result),
            final(self).waker is None,
    {
        self.result = Some(result);
        self.waker.take()
    }

    /// Takes the result, or waits for it.
    pub fn poll(&mut self, waker: W) -> (r: Poll<T>)
        ensures
            match old(self).result {
                Some(v) => r == Poll::Ready(v) && final(self).result is None && final(self).waker == old(self).waker,
                None => r == Poll::<T>::Pending && final(self).result is None && final(self).waker == Some(waker),
            },
    {
        match self.result.take() {
            Some(v) => Poll::Ready(v),
            None => {
                self.waker = Some(waker);
                Poll::Pending
            },
        }
    }
}

} // verus!
