//! Event bus: named channels, with subscriptions that belong to plugins.

use vstd::prelude::*;
use crate::text::same;

verus! {

/// A subscription to a channel. `C` is what is called for an event.
pub struct Subscription<C> {
    pub channel: String,
    pub id: u64,
    pub plugin_id: u64,
    pub callback: C,
}

/// All subscriptions, in the order in which they were made.
pub struct EventBus<C> {
    pub subs: Vec<Subscription<C>>,
    pub next: u64,
}

/// Somebody to be called for an event, with the plugin that is then the current one.
pub struct Call<C> {
    pub callback: C,
    pub plugin_id: u64,
}

impl<C> EventBus<C> {
    /// Ids were given out in order, so no two subscriptions share one.
    pub open spec fn wf(&self) -> bool {
        &&& self.next >= 1
        &&& forall|i: int| 0 <= i < self.subs@.len() ==> 1 <= (#[trigger] self.subs@[i]).id < self.next
        &&& forall|i: int, j: int| 0 <= i < j < self.subs@.len() ==> self.subs@[i].id < self.subs@[j].id
    }

    pub fn new() -> (r: Self)
        ensures
            r.wf(),
            r.subs@.len() == 0,
            r.next == 1,
    {
        EventBus { subs: Vec::new(), next: 1 }
    }
}

/// Who is to be called for an event on a channel: its subscribers, in order.
pub open spec fn calls_for<C>(subs: Seq<Subscription<C>>, channel: Seq<char>) -> Seq<Call<C>>
    decreases subs.len(),
{
    if subs.len() == 0 {
        Seq::empty()
    } else {
        let before = calls_for(subs.drop_last(), channel);
        let s = subs.last();
        if s.channel@ == channel {
            before.push(Call { callback: s.callback, plugin_id: s.plugin_id })
        } else {
            before
        }
    }
}

/// The subscriptions of the other plugins.
pub open spec fn subs_without<C>(subs: Seq<Subscription<C>>, plugin_id: u64) -> Seq<Subscription<C>>
    decreases subs.len(),
{
    if subs.len() == 0 {
        subs
    } else if subs.last().plugin_id == plugin_id {
        subs_without(subs.drop_last(), plugin_id)
    } else {
        subs_without(subs.drop_last(), plugin_id).push(subs.last())
    }
}

/// The subscriptions of one plugin.
pub open spec fn subs_of<C>(subs: Seq<Subscription<C>>, plugin_id: u64) -> Seq<Subscription<C>>
    decreases subs.len(),
{
    if subs.len() == 0 {
        subs
    } else if subs.last().plugin_id == plugin_id {
        subs_of(subs.drop_last(), plugin_id).push(subs.last())
    } else {
        subs_of(subs.drop_last(), plugin_id)
    }
}

/// Subscribes to a channel. Returns the handle of the subscription.
pub fn tau_event_subscribe<C>(bus: &mut EventBus<C>, channel: &str, callback: C, plugin_id: u64) -> (id: u64)
    requires
        old(bus).wf(),
        old(bus).next < u64::MAX,
    ensures
        final(bus).wf(),
        id == old(bus).next,
        final(bus).next == id + 1,
        final(bus).subs@.len() == old(bus).subs@.len() + 1,
        final(bus).subs@.drop_last() == old(bus).subs@,
        final(bus).subs@.last().channel@ == channel@,
        final(bus).subs@.last().id == id,
        final(bus).subs@.last().plugin_id == plugin_id,
        final(bus).subs@.last().callback == callback,
{
    let ghost before = bus.subs@;
    let id: u64 = bus.next;
    bus.next = id + 1;
    bus.subs.push(Subscription { channel: channel.to_owned(), id, plugin_id, callback });
    assert(bus.subs@.drop_last() =~= before);
    id
}

/// Ends a subscription by its handle, and hands it out to be dropped. `None` if there is none.
pub fn tau_event_unsubscribe<C>(bus: &mut EventBus<C>, handle: u64) -> (r: Option<Subscription<C>>)
    requires
        old(bus).wf(),
    ensures
        final(bus).wf(),
        final(bus).next == old(bus).next,
        r is None <==> forall|i: int| 0 <= i < old(bus).subs@.len() ==> (#[trigger] old(bus).subs@[i]).id != handle,
        r is None ==> final(bus).subs@ == old(bus).subs@,
        forall|i: int|
            0 <= i < old(bus).subs@.len() && (#[trigger] old(bus).subs@[i]).id == handle ==> final(bus).subs@
                == old(bus).subs@.remove(i) && r == Some(old(bus).subs@[i]),
{
    let mut i: usize = 0;
    while i < bus.subs.len()
        invariant
            *bus == *old(bus),
            bus.wf(),
            i <= bus.subs@.len(),
            forall|k: int| 0 <= k < i ==> (#[trigger] bus.subs@[k]).id != handle,
        decreases bus.subs.len() - i,
    {
        if bus.subs[i].id == handle {
            let sub = bus.subs.remove(i);
            return Some(sub);
        }
        i = i + 1;
    }
    None
}

/// Emits an event: who is to be called, in order. The number of them is what the emitter is
/// told.
pub fn tau_event_emit<C: Copy>(bus: &EventBus<C>, channel: &str) -> (r: Vec<Call<C>>)
    ensures
        r@ == calls_for(bus.subs@, channel@),
{
    let mut r: Vec<Call<C>> = Vec::new();
    let mut i: usize = 0;
    assert(bus.subs@.take(0) =~= Seq::empty());
    while i < bus.subs.len()
        invariant
            i <= bus.subs@.len(),
            r@ == calls_for(bus.subs@.take(i as int), channel@),
        decreases bus.subs.len() - i,
    {
        assert(bus.subs@.take(i as int + 1).drop_last() =~= bus.subs@.take(i as int));
        let s = &bus.subs[i];
        if same(s.channel.as_str(), channel) {
            r.push(Call { callback: s.callback, plugin_id: s.plugin_id });
        }
        i = i + 1;
    }
    assert(bus.subs@.take(i as int) =~= bus.subs@);
    r
}

proof fn lemma_subs_without<C>(subs: Seq<Subscription<C>>, plugin_id: u64, next: u64)
    requires
        forall|i: int| 0 <= i < subs.len() ==> 1 <= (#[trigger] subs[i]).id < next,
        forall|i: int, j: int| 0 <= i < j < subs.len() ==> subs[i].id < subs[j].id,
    ensures
        ({
            let r = subs_without(subs, plugin_id);
            &&& r.len() <= subs.len()
            &&& forall|i: int| 0 <= i < r.len() ==> 1 <= (#[trigger] r[i]).id < next && r[i].plugin_id != plugin_id
            &&& forall|i: int, j: int| 0 <= i < j < r.len() ==> r[i].id < r[j].id
            &&& r.len() > 0 ==> r.last().id <= subs.last().id
        }),
    decreases subs.len(),
{
    if subs.len() > 0 {
        let d = subs.drop_last();
        lemma_subs_without(d, plugin_id, next);
        let q = subs_without(d, plugin_id);
        let r = subs_without(subs, plugin_id);
        if d.len() > 0 {
            assert(d.last().id < subs.last().id);
        }
        assert forall|i: int, j: int| 0 <= i < j < r.len() implies r[i].id < r[j].id by {
            if j == q.len() {
                assert(q[i].id <= q.last().id);
            }
        }
    }
}

/// Ends all subscriptions of a plugin, and hands them out to be dropped.
pub fn drop_plugin_events<C>(bus: &mut EventBus<C>, plugin_id: u64) -> (r: Vec<Subscription<C>>)
    requires
        old(bus).wf(),
    ensures
        final(bus).wf(),
        final(bus).next == old(bus).next,
        final(bus).subs@ == subs_without(old(bus).subs@, plugin_id),
        r@ == subs_of(old(bus).subs@, plugin_id),
{
    let ghost t = bus.subs@;
    let n: usize = bus.subs.len();
    let mut dropped: Vec<Subscription<C>> = Vec::new();
    let mut i: usize = 0;
    let mut k: usize = 0;
    proof {
        assert(t.take(0) =~= Seq::empty());
        assert(t.skip(0) =~= t);
        assert(Seq::<Subscription<C>>::empty() + t =~= t);
    }
    while k < n
        invariant
            i <= k <= n == t.len(),
            bus.next == old(bus).next,
            i == subs_without(t.take(k as int), plugin_id).len(),
            bus.subs@ == subs_without(t.take(k as int), plugin_id) + t.skip(k as int),
            dropped@ == subs_of(t.take(k as int), plugin_id),
        decreases n - k,
    {
        let ghost kept = subs_without(t.take(k as int), plugin_id);
        proof {
            assert(t.take(k as int + 1).drop_last() =~= t.take(k as int));
            assert(bus.subs@[i as int] == t[k as int]);
        }
        if bus.subs[i].plugin_id == plugin_id {
            let sub = bus.subs.remove(i);
            dropped.push(sub);
            assert(bus.subs@ =~= kept + t.skip(k as int + 1));
        } else {
            i = i + 1;
            assert(bus.subs@ =~= kept.push(t[k as int]) + t.skip(k as int + 1));
        }
        k = k + 1;
    }
    proof {
        assert(t.take(n as int) =~= t);
        assert(bus.subs@ =~= subs_without(t, plugin_id));
        lemma_subs_without(t, plugin_id, bus.next);
    }
    dropped
}

/// Who subscribes to a channel is called on it, after all others, and on no other channel; nobody
/// else is called otherwise than before.
pub proof fn who_subscribes_is_called<C>(subs: Seq<Subscription<C>>, sub: Subscription<C>, channel: Seq<char>)
    ensures
        calls_for(subs.push(sub), channel) == if sub.channel@ == channel {
            calls_for(subs, channel).push(Call { callback: sub.callback, plugin_id: sub.plugin_id })
        } else {
            calls_for(subs, channel)
        },
{
    assert(subs.push(sub).drop_last() =~= subs);
}

/// Who ends a subscription is not called by it any more, and the others are called as before, in
/// the same order.
pub proof fn who_unsubscribed_is_not_called<C>(subs: Seq<Subscription<C>>, i: int, channel: Seq<char>)
    requires
        0 <= i < subs.len(),
    ensures
        calls_for(subs.take(i), channel).len() <= calls_for(subs, channel).len(),
        subs[i].channel@ == channel ==> {
            let place = calls_for(subs.take(i), channel).len() as int;
            &&& place < calls_for(subs, channel).len()
            &&& calls_for(subs, channel)[place] == (Call { callback: subs[i].callback, plugin_id: subs[i].plugin_id })
            &&& calls_for(subs.remove(i), channel) == calls_for(subs, channel).remove(place)
        },
        subs[i].channel@ != channel ==> calls_for(subs.remove(i), channel) == calls_for(subs, channel),
    decreases subs.len(),
{
    let d = subs.drop_last();
    let before = calls_for(subs.take(i), channel);
    if i == subs.len() - 1 {
        assert(subs.take(i) =~= d);
        assert(subs.remove(i) =~= d);
        if subs[i].channel@ == channel {
            assert(calls_for(subs, channel).remove(before.len() as int) =~= before);
        }
    } else {
        who_unsubscribed_is_not_called(d, i, channel);
        assert(d.take(i) =~= subs.take(i));
        assert(subs.remove(i).drop_last() =~= d.remove(i));
        assert(subs.remove(i).last() == subs.last());
        if subs[i].channel@ == channel && subs.last().channel@ == channel {
            let call = Call { callback: subs.last().callback, plugin_id: subs.last().plugin_id };
            assert(calls_for(subs, channel).remove(before.len() as int) =~= calls_for(d, channel).remove(before.len() as int).push(
                call,
            ));
        }
    }
}

/// A plugin that has gone is called no more, and the others are called as before.
pub proof fn dropped_plugin_is_not_called<C>(subs: Seq<Subscription<C>>, plugin_id: u64, channel: Seq<char>)
    ensures
        forall|i: int|
            0 <= i < calls_for(subs_without(subs, plugin_id), channel).len() ==> (#[trigger] calls_for(
                subs_without(subs, plugin_id),
                channel,
            )[i]).plugin_id != plugin_id,
        (forall|i: int| 0 <= i < subs.len() ==> (#[trigger] subs[i]).plugin_id != plugin_id) ==> subs_without(
            subs,
            plugin_id,
        ) == subs,
    decreases subs.len(),
{
    if subs.len() > 0 {
        let d = subs.drop_last();
        dropped_plugin_is_not_called(d, plugin_id, channel);
        let q = subs_without(d, plugin_id);
        if subs.last().plugin_id != plugin_id {
            let all = q.push(subs.last());
            assert(all.drop_last() =~= q);
            assert forall|i: int| 0 <= i < calls_for(all, channel).len() implies (#[trigger] calls_for(all, channel)[i]).plugin_id
                != plugin_id by {
                if i < calls_for(q, channel).len() {
                    assert(calls_for(all, channel)[i] == calls_for(q, channel)[i]);
                }
            }
        }
        if forall|i: int| 0 <= i < subs.len() ==> (#[trigger] subs[i]).plugin_id != plugin_id {
            assert forall|i: int| 0 <= i < d.len() implies (#[trigger] d[i]).plugin_id != plugin_id by {
                assert(d[i] == subs[i]);
            }
            assert(subs.last() == subs[subs.len() - 1]);
            assert(d.push(subs.last()) =~= subs);
        }
    }
}

} // verus!
