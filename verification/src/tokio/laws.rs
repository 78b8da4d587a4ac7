//! What holds of channels, locks, sets of tasks and writers, whatever the order in which they are used.

use vstd::prelude::*;
use crate::runtime::executor;
use crate::runtime::executor::{Cleanup, ExecState, TaskSlot, STATE_EMPTY};
use crate::runtime::join;
use crate::runtime::laws;
use crate::runtime::reactor;
use crate::runtime::reactor::{IoState, DIR_READ, DIR_WRITE};
use crate::tokio::io;
use crate::tokio::io::WriteEvent;
use crate::tokio::net;
use crate::tokio::net::Attempt;
use crate::tokio::process;
use crate::tokio::process::{Child, TryWait};
use crate::tokio::poll::{IoError, Poll};
use crate::tokio::sync::mpsc;
use crate::tokio::sync::mpsc::{ChannelView, TryRecvError};
use crate::tokio::sync::mutex::MutexView;
use crate::tokio::sync::oneshot::Inner;
use crate::tokio::sync::rwlock::{Hold, RwLockView};
use crate::tokio::sync::semaphore;
use crate::tokio::sync::watch::WatchView;
use crate::tokio::task;
use crate::tokio::task::JoinHandle;
use crate::tokio::time;

verus! {

// ---------------------------------------------------------------------------
// Channels
// ---------------------------------------------------------------------------

/// A value that is sent stands behind all others, and the receiver, if it waits, is woken and waits no
/// more. To a receiver that takes no more nothing can be sent.
pub proof fn a_send_wakes_the_receiver<T, W>(before: ChannelView<T, W>, after: ChannelView<T, W>, value: T, wake: Option<W>)
    requires
        mpsc::sent(before, after, value, wake),
    ensures
        before.open ==> wake == before.waiting && after.waiting is None && after.queue == before.queue + seq![value],
        !before.open ==> wake is None && after.waiting == before.waiting && after.queue == before.queue,
        after.capacity == before.capacity,
        after.senders == before.senders,
        after.open == before.open,
{
    assert(before.queue.push(value) =~= before.queue + seq![value]);
}

/// What is received is the oldest value, whether or not the receiver takes more; and only with nothing
/// left does it learn that there is nothing, for now or for ever.
pub proof fn the_oldest_value_is_received<T, W>(before: ChannelView<T, W>, after: ChannelView<T, W>, r: Result<T, TryRecvError>)
    requires
        mpsc::received(before, after, r),
    ensures
        r is Ok <==> before.queue.len() > 0,
        r matches Ok(value) ==> before.queue == seq![value] + after.queue,
        r is Err ==> after == before,
        r == Err::<T, TryRecvError>(TryRecvError::Disconnected) <==> before.queue.len() == 0 && before.senders == 0,
        after.waiting == before.waiting,
        after.senders == before.senders,
        after.open == before.open,
        after.capacity == before.capacity,
{
    if before.queue.len() > 0 {
        assert(before.queue =~= seq![before.queue[0]] + before.queue.skip(1));
    }
}

/// Waiting for a value gives the oldest one if there is one, whether or not there are senders left; it
/// ends without one only when there are none; and otherwise this waker waits.
pub proof fn waiting_gives_the_oldest_value<T, W>(
    before: ChannelView<T, W>,
    after: ChannelView<T, W>,
    waker: W,
    r: Poll<Option<T>>,
)
    requires
        mpsc::awaited(before, after, waker, r),
    ensures
        r matches Poll::Ready(Some(value)) ==> before.queue == seq![value] + after.queue && after.waiting == before.waiting,
        r == Poll::Ready(None::<T>) <==> before.queue.len() == 0 && before.senders == 0,
        r is Pending <==> before.queue.len() == 0 && before.senders > 0,
        r is Pending ==> after.waiting == Some(waker) && after.queue == before.queue,
        r == Poll::Ready(None::<T>) ==> after == before,
        after.senders == before.senders,
        after.open == before.open,
        after.capacity == before.capacity,
{
    if before.queue.len() > 0 {
        assert(before.queue =~= seq![before.queue[0]] + before.queue.skip(1));
    }
}

/// A value that is sent on an empty channel is what the receiver gets next.
pub proof fn what_is_sent_is_received<T, W>(
    before: ChannelView<T, W>,
    between: ChannelView<T, W>,
    after: ChannelView<T, W>,
    value: T,
    wake: Option<W>,
    waker: W,
    r: Poll<Option<T>>,
)
    requires
        before.open,
        before.queue.len() == 0,
        mpsc::sent(before, between, value, wake),
        mpsc::awaited(between, after, waker, r),
    ensures
        r == Poll::Ready(Some(value)),
        after.queue.len() == 0,
{
}

/// The receiver waits on as long as there is a sender left, and no longer; what was sent stays.
pub proof fn the_last_sender_ends_the_wait<T, W>(ch: ChannelView<T, W>)
    requires
        ch.senders > 0,
    ensures
        mpsc::dropped_sender(ch).senders == ch.senders - 1,
        mpsc::dropped_sender(ch).queue == ch.queue,
        mpsc::dropped_sender(ch).open == ch.open,
        mpsc::dropped_sender(ch).capacity == ch.capacity,
        ch.senders > 1 ==> mpsc::dropped_sender(ch).waiting == ch.waiting,
        ch.senders == 1 ==> mpsc::dropped_sender(ch).waiting is None,
{
}

// ---------------------------------------------------------------------------
// Locks
// ---------------------------------------------------------------------------

/// Whoever waits for a lock keeps waiting until the lock is given back, and then the one that came last
/// is let go; the others wait on, in their order.
pub proof fn a_lock_lets_one_go<T, W>(m: MutexView<T, W>, waker: W)
    ensures
        m.waited(waker).waiters == m.waiters + seq![waker],
        m.waited(waker).locked == m.locked,
        m.waited(waker).data == m.data,
        m.acquired().locked,
        m.acquired().waiters == m.waiters,
        m.acquired().data == m.data,
        !m.released().locked,
        m.released().data == m.data,
        m.waiters.len() > 0 ==> m.released().waiters + seq![m.waiters.last()] == m.waiters,
        m.waiters.len() == 0 ==> m.released().waiters.len() == 0,
        m.waited(waker).released().waiters == m.waiters,
{
    assert(m.waiters.push(waker) =~= m.waiters + seq![waker]);
    if m.waiters.len() > 0 {
        assert(m.waiters.drop_last() + seq![m.waiters.last()] =~= m.waiters);
    }
    assert(m.waiters.push(waker).drop_last() =~= m.waiters);
}

/// Readers come and go one by one; whoever waits waits on while there is another reader, and nobody does
/// when the last one or the writer has gone.
pub proof fn readers_are_counted<T, W>(l: RwLockView<T, W>, n: nat, waker: W)
    ensures
        l.waited(waker).waiters == l.waiters + seq![waker] && l.waited(waker).hold == l.hold && l.waited(waker).data == l.data,
        l.hold == Hold::Readers(n) ==> l.read_acquired().hold == Hold::Readers(n + 1) && l.read_acquired().waiters == l.waiters
            && l.read_acquired().data == l.data,
        l.hold == Hold::Readers(n + 1) ==> l.read_released().hold == Hold::Readers(n) && l.read_released().data == l.data,
        l.hold == Hold::Readers(n + 2) ==> l.read_released().waiters == l.waiters,
        l.hold == Hold::Readers(1) ==> l.read_released().waiters.len() == 0,
        l.write_acquired().hold is Writer && l.write_acquired().waiters == l.waiters && l.write_acquired().data == l.data,
        l.write_released().hold == Hold::Readers(0) && l.write_released().waiters.len() == 0 && l.write_released().data == l.data,
        l.free() <==> l.hold == Hold::Readers(0),
{
    assert(l.waiters.push(waker) =~= l.waiters + seq![waker]);
}

/// Permits are given all at once or not at all, and they are given whenever there are enough.
pub proof fn permits_are_given_all_or_none(available: nat, n: nat)
    ensures
        ({
            let (left, given) = semaphore::after_asking(available, n);
            &&& given <==> n <= available
            &&& given ==> left + n == available
            &&& !given ==> left == available
        }),
{
}

/// The later of two times is one of them, and not before either.
pub proof fn the_later_time(a: u64, b: u64)
    ensures
        time::later(a, b) >= a,
        time::later(a, b) >= b,
        time::later(a, b) == a || time::later(a, b) == b,
{
}

// ---------------------------------------------------------------------------
// Sets of tasks
// ---------------------------------------------------------------------------

/// Are the tasks of a set tasks of their own?
pub open spec fn apart(hs: Seq<JoinHandle>) -> bool {
    forall|i: int, j: int| 0 <= i < j < hs.len() ==> (#[trigger] hs[i]).inner.id != (#[trigger] hs[j]).inner.id
}

/// The slot of the `i`th task of a set.
pub open spec fn slot_at<P, W>(v: ExecState<P, W>, hs: Seq<JoinHandle>, i: int) -> TaskSlot<P, W> {
    v.slots[hs[i].inner.id as int]
}

/// Does the `i`th task of a set still run?
pub open spec fn runs_at<P, W>(v: ExecState<P, W>, hs: Seq<JoinHandle>, i: int) -> bool {
    laws::still_runs(v, hs[i].inner.id, hs[i].inner.gen)
}

/// Has the `i`th task of a set a result?
pub open spec fn result_at<P, W>(v: ExecState<P, W>, hs: Seq<JoinHandle>, i: int) -> bool {
    laws::result_is_there(v, hs[i].inner.id, hs[i].inner.gen)
}

/// Does the `i`th task of a set run, or has it a result?
pub open spec fn holds_at<P, W>(v: ExecState<P, W>, hs: Seq<JoinHandle>, i: int) -> bool {
    runs_at(v, hs, i) || result_at(v, hs, i)
}

proof fn lemma_polled_in_turn<P, W>(v: ExecState<P, W>, hs: Seq<JoinHandle>, n: int, wakers: Seq<W>)
    requires
        task::known(v, hs),
        apart(hs),
        0 <= n <= hs.len(),
        n <= wakers.len(),
        task::none_over(v, hs, n, wakers),
    ensures
        ({
            let w = task::all_polled(v, hs, n, wakers);
            &&& w.slots.len() == v.slots.len()
            &&& forall|i: int| 0 <= i < n ==> #[trigger] runs_at(v, hs, i)
            &&& forall|i: int|
                0 <= i < n ==> #[trigger] slot_at(w, hs, i) == (TaskSlot { join_waker: Some(wakers[i]), ..slot_at(v, hs, i) })
            &&& forall|i: int| n <= i < hs.len() ==> #[trigger] slot_at(w, hs, i) == slot_at(v, hs, i)
        }),
    decreases n,
{
    if n > 0 {
        lemma_polled_in_turn(v, hs, n - 1, wakers);
        let m = task::all_polled(v, hs, n - 1, wakers);
        let w = task::all_polled(v, hs, n, wakers);
        let h = hs[n - 1].inner;
        assert(v.has(hs[n - 1].inner.id));
        assert(slot_at(m, hs, n - 1) == slot_at(v, hs, n - 1));
        laws::joining_gives_the_result(m, h);
        assert(runs_at(v, hs, n - 1));
        assert forall|i: int| 0 <= i < n implies #[trigger] slot_at(w, hs, i) == (TaskSlot {
            join_waker: Some(wakers[i]),
            ..slot_at(v, hs, i)
        }) by {
            if i < n - 1 {
                assert(hs[i].inner.id != hs[n - 1].inner.id);
                assert(v.has(hs[i].inner.id));
                assert(slot_at(m, hs, i) == slot_at(w, hs, i));
            }
        }
        assert forall|i: int| n <= i < hs.len() implies #[trigger] slot_at(w, hs, i) == slot_at(v, hs, i) by {
            assert(hs[n - 1].inner.id != hs[i].inner.id);
            assert(v.has(hs[i].inner.id));
            assert(slot_at(m, hs, i) == slot_at(v, hs, i));
        }
    }
}

/// Waiting for a task ends exactly when it runs no more: with its result if there is one, and else with an
/// error that says that it was cancelled.
pub proof fn a_join_ends_with_the_task<P, W>(v: ExecState<P, W>, h: join::JoinHandle, r: Poll<Result<P, task::JoinError>>)
    requires
        task::outcome_of(join::joined(v, h), r),
    ensures
        r is Pending <==> laws::still_runs(v, h.id, h.gen),
        laws::result_is_there(v, h.id, h.gen) && v.slots[h.id as int].storage is Some ==> r == Poll::Ready(
            Ok::<P, task::JoinError>(v.slots[h.id as int].storage->0),
        ),
        !laws::result_is_there(v, h.id, h.gen) && !laws::still_runs(v, h.id, h.gen) ==> (r matches Poll::Ready(Err(e))
            && e.was_cancelled()),
{
    laws::joining_gives_the_result(v, h);
}

/// Whoever waits for a task that still runs is woken when it is done, and nobody else's wait ends by that; the
/// result that ends a wait leaves its slot.
pub proof fn a_waiter_is_kept_with_the_task<P, W>(v: ExecState<P, W>, h: join::JoinHandle, waker: W, i: int)
    requires
        0 <= i < v.slots.len(),
    ensures
        ({
            let after = task::polled(v, h, waker);
            &&& after.slots.len() == v.slots.len()
            &&& i != h.id ==> after.slots[i] == v.slots[i]
            &&& i == h.id && laws::still_runs(v, h.id, h.gen) ==> after.slots[i] == (TaskSlot {
                join_waker: Some(waker),
                ..v.slots[i]
            }) && after.free == v.free
            &&& i == h.id && laws::result_is_there(v, h.id, h.gen) ==> after.slots[i].state == STATE_EMPTY && after.free == v.free
                + seq![h.id]
            &&& i == h.id && !laws::still_runs(v, h.id, h.gen) && !laws::result_is_there(v, h.id, h.gen) ==> after == v
            &&& after.ready == v.ready && after.hot == v.hot && after.timers == v.timers && after.remote == v.remote
        }),
{
    laws::joining_gives_the_result(v, h);
    assert(v.free.push(h.id) =~= v.free + seq![h.id]);
}

/// Waiting for a set gives what became of the first task that is over; all before it still run, and each
/// of them wakes the waiter when it is done. Nobody waits if one is over, and whoever waits is
/// woken by whichever task is done first.
pub proof fn the_first_that_is_over_is_joined<P, W>(
    v: ExecState<P, W>,
    hs: Seq<JoinHandle>,
    wakers: Seq<W>,
    after: ExecState<P, W>,
    left: Seq<JoinHandle>,
    r: Poll<Option<Result<P, task::JoinError>>>,
)
    requires
        task::known(v, hs),
        apart(hs),
        task::joined_next(v, hs, wakers, after, left, r),
    ensures
        r == Poll::Ready(None::<Result<P, task::JoinError>>) <==> hs.len() == 0,
        r is Pending ==> left == hs && forall|i: int|
            0 <= i < hs.len() ==> #[trigger] runs_at(v, hs, i) && slot_at(after, hs, i).join_waker == Some(wakers[i]),
        r matches Poll::Ready(Some(x)) ==> exists|k: int|
            {
                &&& 0 <= k < hs.len()
                &&& !#[trigger] runs_at(v, hs, k)
                &&& forall|i: int|
                    0 <= i < k ==> #[trigger] runs_at(v, hs, i) && slot_at(after, hs, i).join_waker == Some(wakers[i])
                &&& result_at(v, hs, k) && slot_at(v, hs, k).storage is Some ==> x == Ok::<P, task::JoinError>(
                    slot_at(v, hs, k).storage->0,
                )
                &&& !result_at(v, hs, k) ==> x is Err && x->Err_0.was_cancelled()
                &&& result_at(v, hs, k) ==> slot_at(after, hs, k).state == STATE_EMPTY
                &&& left.len() == hs.len() - 1
                &&& forall|i: int| 0 <= i < left.len() && i != k ==> #[trigger] left[i] == hs[i]
                &&& k < left.len() ==> left[k] == hs.last()
            },
{
    match r {
        Poll::Pending => {
            lemma_polled_in_turn(v, hs, hs.len() as int, wakers);
            assert forall|i: int| 0 <= i < hs.len() implies #[trigger] runs_at(v, hs, i) && slot_at(after, hs, i).join_waker
                == Some(wakers[i]) by {
                assert(slot_at(after, hs, i) == (TaskSlot { join_waker: Some(wakers[i]), ..slot_at(v, hs, i) }));
            }
        },
        Poll::Ready(None) => {},
        Poll::Ready(Some(x)) => {
            let k = choose|k: int|
                {
                    &&& 0 <= k < hs.len()
                    &&& wakers.len() == k + 1
                    &&& left == task::swap_removed(hs, k)
                    &&& after == #[trigger] task::all_polled(v, hs, k + 1, wakers)
                    &&& task::outcome_of(join::joined(task::all_polled(v, hs, k, wakers), hs[k].inner), Poll::Ready(x))
                    &&& task::none_over(v, hs, k, wakers)
                };
            lemma_polled_in_turn(v, hs, k, wakers);
            let m = task::all_polled(v, hs, k, wakers);
            assert(v.has(hs[k].inner.id));
            assert(slot_at(m, hs, k) == slot_at(v, hs, k));
            laws::joining_gives_the_result(m, hs[k].inner);
            assert(!runs_at(v, hs, k));
            assert forall|i: int| 0 <= i < k implies #[trigger] runs_at(v, hs, i) && slot_at(after, hs, i).join_waker == Some(
                wakers[i],
            ) by {
                assert(hs[i].inner.id != hs[k].inner.id);
                assert(v.has(hs[i].inner.id));
                assert(slot_at(m, hs, i) == (TaskSlot { join_waker: Some(wakers[i]), ..slot_at(v, hs, i) }));
                assert(slot_at(after, hs, i) == slot_at(m, hs, i));
            }
            a_join_ends_with_the_task(m, hs[k].inner, Poll::Ready(x));
            assert(result_at(m, hs, k) == result_at(v, hs, k));
            assert(result_at(v, hs, k) && slot_at(v, hs, k).storage is Some ==> x == Ok::<P, task::JoinError>(
                slot_at(v, hs, k).storage->0,
            ));
            assert(!result_at(v, hs, k) ==> x is Err && x->Err_0.was_cancelled());
            assert(after == task::polled(m, hs[k].inner, wakers[k]));
            assert(result_at(v, hs, k) ==> slot_at(after, hs, k).state == STATE_EMPTY);
            assert(left.len() == hs.len() - 1);
            assert(forall|i: int| 0 <= i < left.len() && i != k ==> #[trigger] left[i] == hs[i]);
            assert(k < left.len() ==> left[k] == hs.last());
        },
    }
}

/// Is this what has to be dropped of the `i`th task of a set?
pub open spec fn rest_at<P, W>(c: Cleanup<P>, v: ExecState<P, W>, hs: Seq<JoinHandle>, i: int) -> bool {
    laws::is_rest_of(c, v.slots, hs[i].inner.id as int)
}

/// Is this what has to be dropped of one of the first `n` tasks, which runs or has a result?
pub open spec fn rest_of_a_task<P, W>(c: Cleanup<P>, v: ExecState<P, W>, hs: Seq<JoinHandle>, n: int) -> bool {
    exists|i: int| 0 <= i < n && holds_at(v, hs, i) && #[trigger] rest_at(c, v, hs, i)
}

/// Is this a result that nobody has taken, of one of the first `n` tasks?
pub open spec fn untaken_result<P, W>(c: Cleanup<P>, v: ExecState<P, W>, hs: Seq<JoinHandle>, n: int) -> bool {
    exists|i: int| 0 <= i < n && !hs[i].inner.taken && result_at(v, hs, i) && #[trigger] rest_at(c, v, hs, i)
}

proof fn lemma_aborted_in_turn<P, W>(v: ExecState<P, W>, hs: Seq<JoinHandle>, n: int)
    requires
        task::known(v, hs),
        apart(hs),
        0 <= n <= hs.len(),
    ensures
        ({
            let w = task::all_aborted(v, hs, n);
            let r = task::abort_cleanups(v, hs, n);
            &&& w.slots.len() == v.slots.len()
            &&& forall|i: int| n <= i < hs.len() ==> #[trigger] slot_at(w, hs, i) == slot_at(v, hs, i)
            &&& forall|i: int|
                0 <= i < n && #[trigger] holds_at(v, hs, i) ==> exists|k: int|
                    0 <= k < r.len() && rest_at(#[trigger] r[k], v, hs, i)
            &&& forall|k: int| 0 <= k < r.len() ==> rest_of_a_task(#[trigger] r[k], v, hs, n)
            &&& r.len() <= n
        }),
    decreases n,
{
    if n > 0 {
        lemma_aborted_in_turn(v, hs, n - 1);
        let m = task::all_aborted(v, hs, n - 1);
        let w = task::all_aborted(v, hs, n);
        let r = task::abort_cleanups(v, hs, n);
        let before = task::abort_cleanups(v, hs, n - 1);
        let h = hs[n - 1].inner;
        assert(v.has(hs[n - 1].inner.id));
        assert(slot_at(m, hs, n - 1) == slot_at(v, hs, n - 1));
        laws::cancelling_touches_one_task(m, h.id, h.gen);
        assert forall|i: int| n <= i < hs.len() implies #[trigger] slot_at(w, hs, i) == slot_at(v, hs, i) by {
            assert(hs[n - 1].inner.id != hs[i].inner.id);
            assert(v.has(hs[i].inner.id));
            assert(slot_at(m, hs, i) == slot_at(v, hs, i));
        }
        assert forall|i: int| 0 <= i < n && #[trigger] holds_at(v, hs, i) implies exists|k: int|
            0 <= k < r.len() && rest_at(#[trigger] r[k], v, hs, i) by {
            if i < n - 1 {
                let k = choose|k: int| 0 <= k < before.len() && rest_at(#[trigger] before[k], v, hs, i);
                assert(r[k] == before[k]);
                assert(rest_at(r[k], v, hs, i));
            } else {
                assert(slot_at(m, hs, i) == slot_at(v, hs, i));
                assert(r == before.push(executor::cleanup_of(h.id, m.slot(h.id))));
                assert(rest_at(r[before.len() as int], v, hs, i));
            }
        }
        assert forall|k: int| 0 <= k < r.len() implies rest_of_a_task(#[trigger] r[k], v, hs, n) by {
            if k < before.len() {
                assert(r[k] == before[k]);
                assert(rest_of_a_task(before[k], v, hs, n - 1));
                let i = choose|i: int|
                    0 <= i < n - 1 && holds_at(v, hs, i) && #[trigger] rest_at(before[k], v, hs, i);
                assert(rest_at(r[k], v, hs, i));
            } else {
                assert(rest_at(r[k], v, hs, n - 1));
            }
        }
    }
}

/// When a whole set is cancelled, the payload of every task of it that still runs, or has a result, is
/// handed out to be dropped, and nothing else.
pub proof fn a_cancelled_set_is_handed_out<P, W>(v: ExecState<P, W>, hs: Seq<JoinHandle>)
    requires
        task::known(v, hs),
        apart(hs),
    ensures
        ({
            let r = task::abort_cleanups(v, hs, hs.len() as int);
            &&& forall|i: int|
                0 <= i < hs.len() && #[trigger] holds_at(v, hs, i) ==> exists|k: int|
                    0 <= k < r.len() && rest_at(#[trigger] r[k], v, hs, i)
            &&& forall|k: int| 0 <= k < r.len() ==> rest_of_a_task(#[trigger] r[k], v, hs, hs.len() as int)
            &&& r.len() <= hs.len()
        }),
{
    lemma_aborted_in_turn(v, hs, hs.len() as int);
}

proof fn lemma_detached_in_turn<P, W>(v: ExecState<P, W>, hs: Seq<JoinHandle>, n: int)
    requires
        task::known(v, hs),
        apart(hs),
        0 <= n <= hs.len(),
    ensures
        ({
            let w = task::all_detached(v, hs, n);
            let r = task::detach_cleanups(v, hs, n);
            &&& w.slots.len() == v.slots.len()
            &&& forall|i: int| n <= i < hs.len() ==> #[trigger] slot_at(w, hs, i) == slot_at(v, hs, i)
            &&& forall|i: int|
                0 <= i < n && !hs[i].inner.taken && #[trigger] result_at(v, hs, i) ==> exists|k: int|
                    0 <= k < r.len() && rest_at(#[trigger] r[k], v, hs, i)
            &&& forall|k: int| 0 <= k < r.len() ==> untaken_result(#[trigger] r[k], v, hs, n)
            &&& r.len() <= n
        }),
    decreases n,
{
    if n > 0 {
        lemma_detached_in_turn(v, hs, n - 1);
        let m = task::all_detached(v, hs, n - 1);
        let w = task::all_detached(v, hs, n);
        let r = task::detach_cleanups(v, hs, n);
        let before = task::detach_cleanups(v, hs, n - 1);
        let h = hs[n - 1].inner;
        assert(v.has(hs[n - 1].inner.id));
        assert(slot_at(m, hs, n - 1) == slot_at(v, hs, n - 1));
        assert forall|i: int| n <= i < hs.len() implies #[trigger] slot_at(w, hs, i) == slot_at(v, hs, i) by {
            assert(hs[n - 1].inner.id != hs[i].inner.id);
            assert(v.has(hs[i].inner.id));
            assert(slot_at(m, hs, i) == slot_at(v, hs, i));
        }
        assert forall|i: int| 0 <= i < n && !hs[i].inner.taken && #[trigger] result_at(v, hs, i) implies exists|k: int|
            0 <= k < r.len() && rest_at(#[trigger] r[k], v, hs, i) by {
            if i < n - 1 {
                let k = choose|k: int| 0 <= k < before.len() && rest_at(#[trigger] before[k], v, hs, i);
                assert(r[k] == before[k]);
                assert(rest_at(r[k], v, hs, i));
            } else {
                assert(slot_at(m, hs, i) == slot_at(v, hs, i));
                assert(r == before.push(executor::cleanup_of(h.id, m.slot(h.id))));
                assert(rest_at(r[before.len() as int], v, hs, i));
            }
        }
        assert forall|k: int| 0 <= k < r.len() implies untaken_result(#[trigger] r[k], v, hs, n) by {
            if k < before.len() {
                assert(r[k] == before[k]);
                assert(untaken_result(before[k], v, hs, n - 1));
                let i = choose|i: int|
                    0 <= i < n - 1 && !hs[i].inner.taken && result_at(v, hs, i) && #[trigger] rest_at(before[k], v, hs, i);
                assert(rest_at(r[k], v, hs, i));
            } else {
                assert(rest_at(r[k], v, hs, n - 1));
            }
        }
    }
}

/// When a whole set is let go, the results that nobody has taken are handed out to be dropped, and
/// nothing else.
pub proof fn results_of_a_set_are_handed_out<P, W>(v: ExecState<P, W>, hs: Seq<JoinHandle>)
    requires
        task::known(v, hs),
        apart(hs),
    ensures
        ({
            let r = task::detach_cleanups(v, hs, hs.len() as int);
            &&& forall|i: int|
                0 <= i < hs.len() && !hs[i].inner.taken && #[trigger] result_at(v, hs, i) ==> exists|k: int|
                    0 <= k < r.len() && rest_at(#[trigger] r[k], v, hs, i)
            &&& forall|k: int| 0 <= k < r.len() ==> untaken_result(#[trigger] r[k], v, hs, hs.len() as int)
        }),
{
    lemma_detached_in_turn(v, hs, hs.len() as int);
}

// ---------------------------------------------------------------------------
// Readers and writers
// ---------------------------------------------------------------------------

/// What a writer took in an attempt.
pub open spec fn took(e: WriteEvent) -> Seq<u8> {
    match e {
        WriteEvent::Wrote(bytes, Poll::Ready(Ok(n))) => bytes.take(n as int),
        _ => Seq::empty(),
    }
}

/// What a writer took in all, in order.
pub open spec fn took_in_all(events: Seq<WriteEvent>) -> Seq<u8>
    decreases events.len(),
{
    if events.len() == 0 {
        Seq::empty()
    } else {
        took_in_all(events.drop_last()) + took(events.last())
    }
}

proof fn lemma_took_push(events: Seq<WriteEvent>, e: WriteEvent)
    ensures
        took_in_all(events.push(e)) == took_in_all(events) + took(e),
{
    assert(events.push(e).drop_last() =~= events);
}

proof fn lemma_took_offered(before: Seq<WriteEvent>, ps: Seq<int>, buf: Seq<u8>, from: int)
    requires
        io::rising(ps, buf, from),
        0 <= from,
        buf.len() <= usize::MAX,
    ensures
        took_in_all(before + io::offered(ps, buf)) == took_in_all(before) + buf.subrange(from, ps.last()),
    decreases ps.len(),
{
    if ps.len() == 1 {
        assert(before + io::offered(ps, buf) =~= before);
        assert(took_in_all(before) + buf.subrange(from, ps.last()) =~= took_in_all(before));
    } else {
        let d = ps.drop_last();
        assert(ps[ps.len() - 2] < ps[ps.len() - 1]);
        assert forall|i: int, j: int| 0 <= i < j < d.len() implies d[i] < d[j] by {
            assert(ps[i] < ps[j]);
        }
        assert(d[0] == ps[0]);
        assert(from <= d.last()) by {
            if d.len() > 1 {
                assert(ps[0] < ps[d.len() - 1]);
            }
        }
        lemma_took_offered(before, d, buf, from);
        let k = ps.len() - 2;
        let e = WriteEvent::Wrote(buf.skip(ps[k]), Poll::Ready(Ok((ps[k + 1] - ps[k]) as usize)));
        assert(before + io::offered(ps, buf) =~= (before + io::offered(d, buf)).push(e));
        lemma_took_push(before + io::offered(d, buf), e);
        assert(took(e) =~= buf.subrange(ps[k], ps[k + 1]));
        assert(took_in_all(before) + buf.subrange(from, d.last()) + buf.subrange(ps[k], ps[k + 1]) =~= took_in_all(before)
            + buf.subrange(from, ps.last()));
    }
}

/// Writing everything writes each byte once and in order: what the writer took is the part of the buffer
/// that counts as written, however small the parts in which it took it; and it is all of the
/// buffer when that is reported.
pub proof fn everything_is_written_once(
    before: Seq<WriteEvent>,
    after: Seq<WriteEvent>,
    buf: Seq<u8>,
    from: int,
    to: int,
    r: Poll<Result<(), IoError>>,
)
    requires
        io::all_offered(before, after, buf, from, to, r),
        0 <= from <= buf.len() <= usize::MAX,
    ensures
        from <= to <= buf.len(),
        took_in_all(after) == took_in_all(before) + buf.subrange(from, to),
        r == Poll::Ready(Ok::<(), IoError>(())) <==> to == buf.len(),
{
    if from == buf.len() {
        assert(took_in_all(before) + buf.subrange(from, to) =~= took_in_all(before));
    } else {
        let (ps, end) = choose|ps: Seq<int>, end: Poll<Result<usize, IoError>>|
            {
                &&& #[trigger] io::rising(ps, buf, from)
                &&& after == (before + io::offered(ps, buf)).push(WriteEvent::Wrote(buf.skip(ps.last()), end))
                &&& #[trigger] io::comes_to(buf.len() as int, ps.last(), end, to, r)
            };
        let p = ps.last();
        assert(from <= p) by {
            if ps.len() > 1 {
                assert(ps[0] < ps[ps.len() - 1]);
            }
        }
        lemma_took_offered(before, ps, buf, from);
        let e = WriteEvent::Wrote(buf.skip(p), end);
        lemma_took_push(before + io::offered(ps, buf), e);
        assert(took(e) =~= buf.subrange(p, to));
        assert(took_in_all(before) + buf.subrange(from, p) + buf.subrange(p, to) =~= took_in_all(before) + buf.subrange(from, to));
    }
}

/// A piece ends behind the first delimiter, or where the bytes end if there is none.
pub proof fn a_piece_ends_at_the_delimiter(bytes: Seq<u8>, byte: u8)
    ensures
        ({
            let n = io::piece_end(bytes, byte);
            &&& 0 <= n <= bytes.len()
            &&& bytes.contains(byte) ==> n > 0 && bytes[n - 1] == byte && forall|i: int| 0 <= i < n - 1 ==> bytes[i] != byte
            &&& !bytes.contains(byte) ==> n == bytes.len()
        }),
    decreases bytes.len(),
{
    if bytes.len() > 0 && bytes[0] != byte {
        let rest = bytes.skip(1);
        a_piece_ends_at_the_delimiter(rest, byte);
        if bytes.contains(byte) {
            let k = choose|k: int| 0 <= k < bytes.len() && bytes[k] == byte;
            assert(rest[k - 1] == byte);
            let n = io::piece_end(bytes, byte);
            assert forall|i: int| 0 <= i < n - 1 implies bytes[i] != byte by {
                if i > 0 {
                    assert(rest[i - 1] == bytes[i]);
                }
            }
        }
        if rest.contains(byte) {
            let k = choose|k: int| 0 <= k < rest.len() && rest[k] == byte;
            assert(bytes[k + 1] == byte);
        }
    }
}

/// Of several buffers the first that holds something is used.
pub proof fn the_first_filled_buffer_is_used(bufs: Seq<&[u8]>, k: int)
    requires
        0 <= k < bufs.len(),
        forall|i: int| 0 <= i < k ==> (#[trigger] bufs[i])@.len() == 0,
    ensures
        bufs[k]@.len() > 0 ==> io::first_filled(bufs) == bufs[k]@,
        k == bufs.len() - 1 && bufs[k]@.len() == 0 ==> io::first_filled(bufs).len() == 0,
    decreases bufs.len(),
{
    if k > 0 {
        let rest = bufs.skip(1);
        assert forall|i: int| 0 <= i < k - 1 implies (#[trigger] rest[i])@.len() == 0 by {
            assert(rest[i] == bufs[i + 1]);
        }
        assert(bufs[0]@.len() == 0);
        the_first_filled_buffer_is_used(rest, k - 1);
    } else if bufs[0]@.len() == 0 {
        assert(io::first_filled(bufs.skip(1)) == io::first_filled(bufs));
    }
}

/// Bytes go as far as there is room, and no byte that fits is left out.
pub proof fn as_much_as_fits_is_taken(len: nat, room: int)
    requires
        room >= 0,
    ensures
        0 <= io::fitting(len, room) <= room,
        io::fitting(len, room) <= len,
        io::fitting(len, room) == len || io::fitting(len, room) == room,
{
}

/// An operation that was done, that failed, or that would block, is reported as such.
pub proof fn attempts_are_reported(n: usize, code: i32)
    ensures
        net::outcome(Attempt::Done(n)) == Poll::Ready(Ok::<usize, IoError>(n)),
        net::outcome(Attempt::Failed(code)) == Poll::Ready(Err::<usize, IoError>(IoError::Os(code))),
        net::outcome(Attempt::WouldBlock) is Pending,
{
}

// ---------------------------------------------------------------------------
// Values that are watched, children, descriptors
// ---------------------------------------------------------------------------

/// To send a value to those who watch replaces the value and nothing else: whether the sender is there, and
/// how many receivers there are, stays as it is.
pub proof fn a_new_value_changes_the_value_alone<T, W>(ch: WatchView<T, W>, value: T)
    requires
        ch.version < u64::MAX,
    ensures
        ch.replaced(value).value == value,
        ch.replaced(value).version == ch.version + 1,
        ch.replaced(value).closed == ch.closed,
        ch.replaced(value).receivers == ch.receivers,
{
}

/// Sending a value, giving up and receiving do not touch what the other side waits for: who waits for the
/// receiver to go waits on, and the receiver is there until it goes.
pub proof fn each_side_keeps_its_wait<T, W>(ch: Inner<T, W>, value: T, waker: W)
    ensures
        ch.sent(value).closed_waker == ch.closed_waker,
        ch.sent(value).receiver_alive == ch.receiver_alive,
        ch.given_up().closed_waker == ch.closed_waker,
        ch.given_up().receiver_alive == ch.receiver_alive,
        ch.given_up().value == ch.value,
        ch.polled(waker).0.closed_waker == ch.closed_waker,
        ch.polled(waker).0.receiver_alive == ch.receiver_alive,
        ch.polled(waker).0.sender_alive == ch.sender_alive,
        !ch.sent(value).sender_alive && !ch.given_up().sender_alive,
{
}

/// A child that was seen to exit has exited for good, and only one that was seen to; nothing else of it
/// changes.
pub proof fn exits_are_final(child: Child, first: TryWait, second: TryWait)
    ensures
        process::asked(child, first).exited <==> child.exited || first is Exited,
        process::asked(process::asked(child, first), second).exited <==> child.exited || first is Exited || second is Exited,
        process::asked(child, first).pid == child.pid,
        process::asked(child, first).kill_on_drop == child.kill_on_drop,
{
}

/// Whoever asks for a descriptor that is not ready in a direction is kept as the one who waits in that
/// direction; who waits in the other one waits on, and so do those of all other descriptors. A descriptor that
/// is ready keeps everything as it is.
pub proof fn who_asks_waits_in_one_direction<W>(
    at: Map<usize, IoState<W>>,
    token: usize,
    direction: u8,
    other: u8,
    waker: W,
    t: usize,
)
    requires
        at.dom().contains(t),
        direction == DIR_READ || direction == DIR_WRITE,
        other == DIR_READ || other == DIR_WRITE,
        other != direction,
    ensures
        ({
            let asked = net::asked(at, token, direction, waker);
            let waiting = net::waiting(at, token, direction, waker);
            let ready = at[token].readiness & reactor::mask_of(direction) != 0;
            &&& asked.dom() == at.dom() && waiting.dom() == at.dom()
            &&& t != token ==> asked[t] == at[t] && waiting[t] == at[t]
            &&& t == token && ready ==> asked[t] == at[t]
            &&& t == token && !ready ==> reactor::waker_of(asked[t], direction) == Some(waker)
            &&& reactor::waker_of(asked[t], other) == reactor::waker_of(at[t], other)
            &&& reactor::waker_of(waiting[t], other) == reactor::waker_of(at[t], other)
            &&& t == token ==> reactor::waker_of(waiting[t], direction) == Some(waker)
            &&& asked[t].readiness == at[t].readiness
            &&& asked[t].interest == at[t].interest && asked[t].fd == at[t].fd
            &&& waiting[t].interest == at[t].interest && waiting[t].fd == at[t].fd
            &&& waiting[t].readiness & reactor::mask_of(other) == at[t].readiness & reactor::mask_of(other)
        }),
{
    let asked = net::asked(at, token, direction, waker);
    let waiting = net::waiting(at, token, direction, waker);
    assert(asked.dom() =~= at.dom());
    assert(waiting.dom() =~= at.dom());
    let a = at[t].readiness;
    assert((a & !1u8) & 2u8 == a & 2u8) by (bit_vector);
    assert((a & !2u8) & 1u8 == a & 1u8) by (bit_vector);
}

/// Writing all of a buffer ends as its last attempt did: with its error, or with waiting, and then no more is
/// written than before; a writer that takes nothing is an error. It ends well exactly if everything is written.
pub proof fn writing_ends_as_its_last_attempt(
    len: int,
    p: int,
    end: Poll<Result<usize, IoError>>,
    to: int,
    r: Poll<Result<(), IoError>>,
)
    requires
        0 <= p < len,
        io::comes_to(len, p, end, to, r),
    ensures
        end is Pending <==> r is Pending,
        end matches Poll::Ready(Err(e)) ==> r == Poll::Ready(Err::<(), IoError>(e)),
        end == Poll::Ready(Ok::<usize, IoError>(0)) ==> r == Poll::Ready(Err::<(), IoError>(IoError::WriteZero)),
        r == Poll::Ready(Ok::<(), IoError>(())) <==> to == len,
        !(r is Ready && r->Ready_0 is Ok) ==> to == p,
{
}

} // verus!
