//! Notifying tasks that wait.

use vstd::prelude::*;
use crate::tokio::poll::Poll;

verus! {

/// Notifies one or all of those who wait. `waiting` are those who do, each with a number of its
/// own; `granted` are the numbers of those who have been notified and do not know it yet;
/// `notified` is a notification that came when nobody waited.
pub struct Notify<W> {
    pub notified: bool,
    pub waiting: Vec<(u64, W)>,
    pub granted: Vec<u64>,
    pub next: u64,
}

/// Someone who waits to be notified, under this number once it does.
pub struct Notified {
    pub id: Option<u64>,
}

/// The numbers of those who wait.
pub open spec fn ids<W>(waiting: Seq<(u64, W)>) -> Seq<u64> {
    waiting.map_values(|w: (u64, W)| w.0)
}

/// The wakers of those who wait.
pub open spec fn wakers<W>(waiting: Seq<(u64, W)>) -> Seq<W> {
    waiting.map_values(|w: (u64, W)| w.1)
}

impl<W> Notify<W> {
    /// A notification is kept only while nobody waits; numbers are not used twice.
    pub open spec fn wf(&self) -> bool {
        &&& self.notified ==> self.waiting@.len() == 0
        &&& forall|i: int| 0 <= i < self.waiting@.len() ==> (#[trigger] self.waiting@[i]).0 < self.next
        &&& forall|i: int| 0 <= i < self.granted@.len() ==> #[trigger] self.granted@[i] < self.next
    }

    pub fn new() -> (r: Self)
        ensures
            r.wf(),
            !r.notified,
            r.waiting@.len() == 0,
            r.granted@.len() == 0,
            r.next == 0,
    {
        Notify { notified: false, waiting: Vec::new(), granted: Vec::new(), next: 0 }
    }

    /// Notifies one who waits, the one that came last; it is to be woken. If nobody waits, the
    /// next one will not have to.
    pub fn notify_one(&mut self) -> (wake: Option<W>)
        requires
            old(self).wf(),
        ensures
            final(self).wf(),
            final(self).next == old(self).next,
            old(self).waiting@.len() == 0 ==> {
                &&& wake is None
                &&& final(self).notified
                &&& final(self).waiting@ == old(self).waiting@
                &&& final(self).granted@ == old(self).granted@
            },
            old(self).waiting@.len() > 0 ==> {
                &&& wake == Some(old(self).waiting@.last().1)
                &&& final(self).notified == old(self).notified
                &&& final(self).waiting@ == old(self).waiting@.drop_last()
                &&& final(self).granted@ == old(self).granted@.push(old(self).waiting@.last().0)
            },
    {
        match self.waiting.pop() {
            Some((id, waker)) => {
                assert(old(self).waiting@.last() == (id, waker));
                self.granted.push(id);
                Some(waker)
            },
            None => {
                self.notified = true;
                None
            },
        }
    }

    /// Notifies all who wait; they are to be woken. If nobody waits, the next one will not have
    /// to.
    pub fn notify_waiters(&mut self) -> (wake: Vec<W>)
        requires
            old(self).wf(),
        ensures
            final(self).wf(),
            final(self).next == old(self).next,
            final(self).notified == (old(self).notified || old(self).waiting@.len() == 0),
            final(self).waiting@.len() == 0,
            final(self).granted@ == old(self).granted@ + ids(old(self).waiting@),
            wake@ == wakers(old(self).waiting@),
    {
        if self.waiting.len() == 0 {
            self.notified = true;
        }
        let mut waiting = Vec::new();
        std::mem::swap(&mut waiting, &mut self.waiting);
        let ghost all = waiting@;
        let ghost granted = self.granted@;
        let mut rest = waiting;
        let mut wake: Vec<W> = Vec::new();
        assert(wakers(all.take(0)) =~= Seq::<W>::empty());
        assert(granted + ids(all.take(0)) =~= granted);
        let n: usize = rest.len();
        let mut i: usize = 0;
        // the first is at the end, so that each can be popped
        let mut turned: Vec<(u64, W)> = Vec::new();
        while i < n
            invariant
                i <= n == all.len(),
                rest@ == all.take(n - i),
                turned@ == all.skip(n - i).reverse(),
            decreases n - i,
        {
            if let Some(w) = rest.pop() {
                turned.push(w);
                assert(turned@ =~= all.skip(n - i - 1).reverse());
                assert(rest@ =~= all.take(n - i - 1));
            }
            i = i + 1;
        }
        assert(all.skip(0) =~= all);
        let mut j: usize = 0;
        assert(turned@ =~= all.skip(0).reverse());
        while j < n
            invariant
                j <= n == all.len(),
                turned@ == all.skip(j as int).reverse(),
                wake@ == wakers(all.take(j as int)),
                self.granted@ == granted + ids(all.take(j as int)),
                self.waiting@.len() == 0,
                self.next == old(self).next,
                self.notified == (old(self).notified || all.len() == 0),
                all == old(self).waiting@,
                granted == old(self).granted@,
            decreases n - j,
        {
            if let Some((id, waker)) = turned.pop() {
                assert((id, waker) == all[j as int]);
                wake.push(waker);
                self.granted.push(id);
                assert(turned@ =~= all.skip(j as int + 1).reverse());
                assert(wake@ =~= wakers(all.take(j as int + 1)));
                assert(self.granted@ =~= granted + ids(all.take(j as int + 1)));
            }
            j = j + 1;
        }
        assert(all.take(n as int) =~= all);
        assert forall|k: int| 0 <= k < self.granted@.len() implies #[trigger] self.granted@[k] < self.next by {
            if k >= granted.len() {
                assert(self.granted@[k] == all[k - granted.len()].0);
            }
        }
        wake
    }

    /// Someone who is about to wait.
    pub fn notified(&self) -> (r: Notified)
        ensures
            r.id is None,
    {
        Notified { id: None }
    }
}

/// Index of the first occurrence, or the length.
fn position(v: &Vec<u64>, id: u64) -> (r: usize)
    ensures
        r <= v@.len(),
        r < v@.len() ==> v@[r as int] == id,
        r < v@.len() <==> v@.contains(id),
{
    let mut i: usize = 0;
    while i < v.len()
        invariant
            i <= v@.len(),
            forall|j: int| 0 <= j < i ==> v@[j] != id,
        decreases v.len() - i,
    {
        if v[i] == id {
            return i;
        }
        i = i + 1;
    }
    i
}

/// `s` with one occurrence of `id` taken out.
pub open spec fn one_less(s: Seq<u64>, id: u64, r: Seq<u64>) -> bool {
    exists|k: int| 0 <= k < s.len() && s[k] == id && r == #[trigger] s.remove(k)
}

impl Notified {
    /// Ready if notified; otherwise it waits, under a number of its own.
    pub fn poll<W>(&mut self, notify: &mut Notify<W>, waker: W) -> (r: Poll<()>)
        requires
            old(notify).wf(),
            old(notify).next < u64::MAX,
        ensures
            final(notify).wf(),
            match old(self).id {
                None => {
                    &&& final(notify).granted@ == old(notify).granted@
                    &&& if old(notify).notified {
                        &&& r is Ready
                        &&& !final(notify).notified
                        &&& final(notify).waiting@ == old(notify).waiting@
                        &&& final(notify).next == old(notify).next
                        &&& final(self).id is None
                    } else {
                        &&& r is Pending
                        &&& !final(notify).notified
                        &&& final(self).id == Some(old(notify).next)
                        &&& final(notify).waiting@ == old(notify).waiting@.push((old(notify).next, waker))
                        &&& final(notify).next == old(notify).next + 1
                    }
                },
                Some(id) => {
                    &&& final(self).id == Some(id)
                    &&& final(notify).notified == old(notify).notified
                    &&& final(notify).waiting@ == old(notify).waiting@
                    &&& final(notify).next == old(notify).next
                    &&& r is Ready <==> old(notify).granted@.contains(id)
                    &&& if old(notify).granted@.contains(id) {
                        one_less(old(notify).granted@, id, final(notify).granted@)
                    } else {
                        final(notify).granted@ == old(notify).granted@
                    }
                },
            },
    {
        match self.id {
            Some(id) => {
                let at: usize = position(&notify.granted, id);
                if at < notify.granted.len() {
                    let ghost before = notify.granted@;
                    let gone: u64 = notify.granted.remove(at);
                    assert(notify.granted@ =~= before.remove(at as int));
                    Poll::Ready(())
                } else {
                    Poll::Pending
                }
            },
            None => if notify.notified {
                notify.notified = false;
                Poll::Ready(())
            } else {
                let id: u64 = notify.next;
                notify.waiting.push((id, waker));
                notify.next = id + 1;
                self.id = Some(id);
                Poll::Pending
            },
        }
    }
}

/// Whoever waits is notified by `notify_waiters`, and the one that came last by `notify_one`: its
/// number is among the granted ones, so it will be ready.
pub proof fn those_who_wait_are_notified<W>(waiting: Seq<(u64, W)>, granted: Seq<u64>, i: int)
    requires
        0 <= i < waiting.len(),
    ensures
        (granted + ids(waiting)).contains(waiting[i].0),
        granted.push(waiting.last().0).contains(waiting.last().0),
{
    assert((granted + ids(waiting))[granted.len() + i] == waiting[i].0);
    assert(granted.push(waiting.last().0)[granted.len() as int] == waiting.last().0);
}

} // verus!
