//! Readiness of file descriptors, and who waits for it.

use std::collections::HashMap;
use vstd::prelude::*;
use vstd::std_specs::hash::*;

verus! {

broadcast use group_hash_axioms;

pub const READABLE: u8 = 0b01;

pub const WRITABLE: u8 = 0b10;

pub const DIR_READ: u8 = 0;
pub const DIR_WRITE: u8 = 1;

/// A file descriptor, what it is watched for, what it is ready for, and who waits.
pub struct IoState<W> {
    pub fd: i32,
    pub interest: u8,
    pub readiness: u8,
    pub read_waker: Option<W>,
    pub write_waker: Option<W>,
}

/// What the operating system reports of a token.
#[derive(Clone, Copy)]
pub struct IoEvent {
    pub key: usize,
    pub readable: bool,
    pub writable: bool,
}

/// What the poller has to be told: watch this descriptor, level-triggered.
#[derive(Clone, Copy)]
pub struct Watch {
    pub fd: i32,
    pub token: usize,
    pub readable: bool,
    pub writable: bool,
}

/// Tokens start at 1; 0 is kept free.
pub struct Reactor<W> {
    io_states: HashMap<usize, IoState<W>>,
    next_token: usize,
}

pub open spec fn watch_of(fd: i32, token: usize, interest: u8) -> Watch {
    Watch { fd, token, readable: interest & READABLE != 0, writable: interest & WRITABLE != 0 }
}

pub open spec fn mask_of(direction: u8) -> u8 {
    if direction == DIR_READ {
        READABLE
    } else {
        WRITABLE
    }
}

/// A descriptor after an event: its readiness has grown, and whoever waited for that is no
/// longer kept.
pub open spec fn after_event<W>(s: IoState<W>, ev: IoEvent) -> IoState<W> {
    let r1 = if ev.readable {
        s.readiness | READABLE
    } else {
        s.readiness
    };
    IoState {
        readiness: if ev.writable {
            r1 | WRITABLE
        } else {
            r1
        },
        read_waker: if ev.readable {
            None
        } else {
            s.read_waker
        },
        write_waker: if ev.writable {
            None
        } else {
            s.write_waker
        },
        ..s
    }
}

/// Who is woken by an event: the reader first.
pub open spec fn woken_by<W>(s: IoState<W>, ev: IoEvent) -> Seq<W> {
    let r = match s.read_waker {
        Some(w) => if ev.readable {
            seq![w]
        } else {
            Seq::empty()
        },
        None => Seq::empty(),
    };
    match s.write_waker {
        Some(w) => if ev.writable {
            r.push(w)
        } else {
            r
        },
        None => r,
    }
}

/// All descriptors after a sequence of events; events of unknown tokens are passed over.
pub open spec fn after_events<W>(at: Map<usize, IoState<W>>, evs: Seq<IoEvent>) -> Map<usize, IoState<W>>
    decreases evs.len(),
{
    if evs.len() == 0 {
        at
    } else {
        let m = after_events(at, evs.drop_last());
        let ev = evs.last();
        if m.dom().contains(ev.key) {
            m.insert(ev.key, after_event(m[ev.key], ev))
        } else {
            m
        }
    }
}

/// Who is woken by a sequence of events.
pub open spec fn woken_by_all<W>(at: Map<usize, IoState<W>>, evs: Seq<IoEvent>) -> Seq<W>
    decreases evs.len(),
{
    if evs.len() == 0 {
        Seq::empty()
    } else {
        let m = after_events(at, evs.drop_last());
        let ev = evs.last();
        let before = woken_by_all(at, evs.drop_last());
        if m.dom().contains(ev.key) {
            before + woken_by(m[ev.key], ev)
        } else {
            before
        }
    }
}

/// What the poller has to be told after a sequence of events: every known descriptor that had
/// one is watched again.
pub open spec fn rearmed<W>(at: Map<usize, IoState<W>>, evs: Seq<IoEvent>) -> Seq<Watch>
    decreases evs.len(),
{
    if evs.len() == 0 {
        Seq::empty()
    } else {
        let m = after_events(at, evs.drop_last());
        let ev = evs.last();
        let before = rearmed(at, evs.drop_last());
        if m.dom().contains(ev.key) {
            before.push(watch_of(m[ev.key].fd, ev.key, m[ev.key].interest))
        } else {
            before
        }
    }
}

impl<W> Reactor<W> {
    pub closed spec fn at(&self) -> Map<usize, IoState<W>> {
        self.io_states@
    }

    pub closed spec fn next(&self) -> usize {
        self.next_token
    }

    /// Tokens have all been given out.
    pub open spec fn wf(&self) -> bool {
        &&& self.next() >= 1
        &&& forall|t: usize| #[trigger] self.at().dom().contains(t) ==> 1 <= t < self.next()
    }

    pub fn new() -> (r: Self)
        ensures
            r.wf(),
            r.at() == Map::<usize, IoState<W>>::empty(),
            r.next() == 1,
    {
        Reactor { io_states: HashMap::new(), next_token: 1 }
    }

    /// Is there a token left to be given out?
    pub fn has_token(&self) -> (r: bool)
        ensures
            r == (self.next() < usize::MAX),
    {
        self.next_token < usize::MAX
    }

    /// Registers a descriptor, first half: gives out a token, and what the poller has to watch.
    /// The token is used up even if the poller fails.
    pub fn register(&mut self, fd: i32, interest: u8) -> (r: Watch)
        requires
            old(self).wf(),
            old(self).next() < usize::MAX,
        ensures
            final(self).wf(),
            final(self).at() == old(self).at(),
            final(self).next() == old(self).next() + 1,
            r == watch_of(fd, old(self).next(), interest),
    {
        let ghost before = self.at();
        let token: usize = self.next_token;
        self.next_token = token + 1;
        assert(self.at() == before);
        Watch { fd, token, readable: (interest & READABLE) != 0, writable: (interest & WRITABLE) != 0 }
    }

    /// Registers a descriptor, second half, once the poller watches it.
    pub fn registered(&mut self, token: usize, fd: i32, interest: u8)
        requires
            old(self).wf(),
            1 <= token < old(self).next(),
        ensures
            final(self).wf(),
            final(self).next() == old(self).next(),
            final(self).at() == old(self).at().insert(
                token,
                IoState { fd, interest, readiness: 0, read_waker: None, write_waker: None },
            ),
    {
        let ghost before = self.at();
        let state = IoState { fd, interest, readiness: 0, read_waker: None, write_waker: None };
        self.io_states.insert(token, state);
        assert(self.at() == before.insert(token, state));
    }

    /// Forgets a descriptor. Returns it, for the poller to forget too; `None` if it is unknown.
    pub fn deregister(&mut self, token: usize) -> (r: Option<i32>)
        requires
            old(self).wf(),
        ensures
            final(self).wf(),
            final(self).next() == old(self).next(),
            final(self).at() == old(self).at().remove(token),
            r is Some <==> old(self).at().dom().contains(token),
            r matches Some(fd) ==> fd == old(self).at()[token].fd,
    {
        let ghost before = self.at();
        match self.io_states.remove(&token) {
            Some(state) => Some(state.fd),
            None => {
                assert(before.remove(token) =~= before);
                None
            },
        }
    }

    /// Is the descriptor ready in a direction? If not, the waker is kept. An unknown one counts
    /// as ready.
    pub fn poll_ready(&mut self, token: usize, direction: u8, waker: W) -> (r: bool)
        requires
            old(self).wf(),
        ensures
            final(self).wf(),
            final(self).next() == old(self).next(),
            ({
                let at = old(self).at();
                let s = at[token];
                if !at.dom().contains(token) || s.readiness & mask_of(direction) != 0 {
                    r && final(self).at() == at
                } else {
                    &&& !r
                    &&& final(self).at() == at.insert(
                        token,
                        if direction == DIR_READ {
                            IoState { read_waker: Some(waker), ..s }
                        } else {
                            IoState { write_waker: Some(waker), ..s }
                        },
                    )
                }
            }),
    {
        let ghost at = self.at();
        match self.io_states.remove(&token) {
            None => {
                assert(self.at() =~= at);
                true
            },
            Some(mut state) => {
                let mask: u8 = if direction == DIR_READ {
                    READABLE
                } else {
                    WRITABLE
                };
                let ready: bool = (state.readiness & mask) != 0;
                if !ready {
                    if direction == DIR_READ {
                        state.read_waker = Some(waker);
                    } else {
                        state.write_waker = Some(waker);
                    }
                }
                let ghost end = state;
                self.io_states.insert(token, state);
                assert(self.at() =~= at.insert(token, end));
                assert(ready ==> self.at() =~= at);
                ready
            },
        }
    }

    /// The descriptor is not ready in a direction after all.
    pub fn clear_ready(&mut self, token: usize, direction: u8)
        requires
            old(self).wf(),
        ensures
            final(self).wf(),
            final(self).next() == old(self).next(),
            !old(self).at().dom().contains(token) ==> final(self).at() == old(self).at(),
            old(self).at().dom().contains(token) ==> final(self).at() == old(self).at().insert(
                token,
                IoState {
                    readiness: old(self).at()[token].readiness & !mask_of(direction),
                    ..old(self).at()[token]
                },
            ),
    {
        let ghost at = self.at();
        match self.io_states.remove(&token) {
            None => {
                assert(self.at() =~= at);
            },
            Some(mut state) => {
                let mask: u8 = if direction == DIR_READ {
                    READABLE
                } else {
                    WRITABLE
                };
                state.readiness = state.readiness & !mask;
                let ghost end = state;
                self.io_states.insert(token, state);
                assert(self.at() =~= at.insert(token, end));
            },
        }
    }

    /// Takes in what the operating system reported. Returns who is to be woken, and what the
    /// poller has to watch again.
    pub fn poll(&mut self, events: &Vec<IoEvent>) -> (r: (Vec<W>, Vec<Watch>))
        requires
            old(self).wf(),
        ensures
            final(self).wf(),
            final(self).next() == old(self).next(),
            final(self).at() == after_events(old(self).at(), events@),
            r.0@ == woken_by_all(old(self).at(), events@),
            r.1@ == rearmed(old(self).at(), events@),
    {
        let ghost start = self.at();
        let mut wakers: Vec<W> = Vec::new();
        let mut watches: Vec<Watch> = Vec::new();
        let mut i: usize = 0;
        assert(events@.take(0) =~= Seq::empty());
        while i < events.len()
            invariant
                i <= events@.len(),
                self.wf(),
                self.next() == old(self).next(),
                self.at() == after_events(start, events@.take(i as int)),
                wakers@ == woken_by_all(start, events@.take(i as int)),
                watches@ == rearmed(start, events@.take(i as int)),
            decreases events.len() - i,
        {
            let ev = events[i];
            let ghost at = self.at();
            let ghost woken = wakers@;
            proof {
                assert(events@.take(i as int + 1).drop_last() =~= events@.take(i as int));
                assert(events@.take(i as int + 1).last() == ev);
            }
            match self.io_states.remove(&ev.key) {
                None => {
                    assert(self.at() =~= at);
                },
                Some(mut state) => {
                    let ghost s = state;
                    if ev.readable {
                        state.readiness = state.readiness | READABLE;
                    }
                    if ev.writable {
                        state.readiness = state.readiness | WRITABLE;
                    }
                    if ev.readable {
                        if let Some(w) = state.read_waker.take() {
                            wakers.push(w);
                        }
                    }
                    if ev.writable {
                        if let Some(w) = state.write_waker.take() {
                            wakers.push(w);
                        }
                    }
                    assert(wakers@ =~= woken + woken_by(s, ev));
                    watches.push(
                        Watch {
                            fd: state.fd,
                            token: ev.key,
                            readable: (state.interest & READABLE) != 0,
                            writable: (state.interest & WRITABLE) != 0,
                        },
                    );
                    assert(state == after_event(s, ev));
                    let ghost end = state;
                    self.io_states.insert(ev.key, state);
                    assert(self.at() =~= at.insert(ev.key, end));
                },
            }
            i = i + 1;
        }
        assert(events@.take(i as int) =~= events@);
        (wakers, watches)
    }
}

/// A reported readiness is seen: once an event in a direction has come in, a poll in that
/// direction finds the descriptor ready, and nobody waits for it any more.
pub proof fn readiness_is_seen<W>(s: IoState<W>, ev: IoEvent)
    ensures
        ev.readable ==> after_event(s, ev).readiness & READABLE != 0 && after_event(s, ev).read_waker is None,
        ev.writable ==> after_event(s, ev).readiness & WRITABLE != 0 && after_event(s, ev).write_waker is None,
{
    let x = s.readiness;
    assert((x | 1u8) & 1u8 != 0) by (bit_vector);
    assert((x | 2u8) & 2u8 != 0) by (bit_vector);
    assert(((x | 1u8) | 2u8) & 1u8 != 0) by (bit_vector);
    assert(((x | 1u8) | 2u8) & 2u8 != 0) by (bit_vector);
}

/// The waker that waits for a direction of a descriptor.
pub open spec fn waker_of<W>(s: IoState<W>, direction: u8) -> Option<W> {
    if direction == DIR_READ {
        s.read_waker
    } else {
        s.write_waker
    }
}

/// Does the event tell of this direction?
pub open spec fn tells_of(ev: IoEvent, direction: u8) -> bool {
    if direction == DIR_READ {
        ev.readable
    } else {
        ev.writable
    }
}

proof fn lemma_waits_or_was_woken<W>(at: Map<usize, IoState<W>>, evs: Seq<IoEvent>, token: usize, direction: u8, w: W)
    requires
        at.dom().contains(token),
        waker_of(at[token], direction) == Some(w),
    ensures
        after_events(at, evs).dom().contains(token),
        waker_of(after_events(at, evs)[token], direction) == Some(w) || woken_by_all(at, evs).contains(w),
    decreases evs.len(),
{
    if evs.len() > 0 {
        let t = evs.drop_last();
        let ev = evs.last();
        lemma_waits_or_was_woken(at, t, token, direction, w);
        let m = after_events(at, t);
        let before = woken_by_all(at, t);
        if m.dom().contains(ev.key) {
            let now = woken_by(m[ev.key], ev);
            if before.contains(w) {
                let k = choose|k: int| 0 <= k < before.len() && before[k] == w;
                assert((before + now)[k] == w);
            } else if ev.key == token && tells_of(ev, direction) {
                let k: int = if direction == DIR_READ {
                    0
                } else {
                    now.len() - 1
                };
                assert(now[k] == w);
                assert((before + now)[before.len() + k] == w);
            }
        }
    }
}

/// Who waits is woken: if a waker waits for a direction of a descriptor, and the poller reports an
/// event that tells of it, the waker is among those that are woken.
pub proof fn who_waits_is_woken<W>(at: Map<usize, IoState<W>>, evs: Seq<IoEvent>, i: int, direction: u8, w: W)
    requires
        0 <= i < evs.len(),
        at.dom().contains(evs[i].key),
        waker_of(at[evs[i].key], direction) == Some(w),
        tells_of(evs[i], direction),
    ensures
        woken_by_all(at, evs).contains(w),
    decreases evs.len(),
{
    let t = evs.drop_last();
    let ev = evs.last();
    let m = after_events(at, t);
    let before = woken_by_all(at, t);
    lemma_waits_or_was_woken(at, t, evs[i].key, direction, w);
    if i < t.len() {
        who_waits_is_woken(at, t, i, direction, w);
    }
    if before.contains(w) {
        if m.dom().contains(ev.key) {
            let k = choose|k: int| 0 <= k < before.len() && before[k] == w;
            assert((before + woken_by(m[ev.key], ev))[k] == w);
        }
    } else {
        let now = woken_by(m[ev.key], ev);
        let k: int = if direction == DIR_READ {
            0
        } else {
            now.len() - 1
        };
        assert(now[k] == w);
        assert((before + now)[before.len() + k] == w);
    }
}

/// Clearing a direction is seen, and leaves the other alone.
pub proof fn clearing_is_seen(readiness: u8)
    ensures
        (readiness & !READABLE) & READABLE == 0,
        (readiness & !WRITABLE) & WRITABLE == 0,
        (readiness & !READABLE) & WRITABLE == readiness & WRITABLE,
        (readiness & !WRITABLE) & READABLE == readiness & READABLE,
{
    assert((readiness & !1u8) & 1u8 == 0) by (bit_vector);
    assert((readiness & !2u8) & 2u8 == 0) by (bit_vector);
    assert((readiness & !1u8) & 2u8 == readiness & 2u8) by (bit_vector);
    assert((readiness & !2u8) & 1u8 == readiness & 1u8) by (bit_vector);
}

/// An event touches what it tells of and nothing else: readiness is never lost by an event, and whoever
/// waits for a direction that it does not tell of waits on.
pub proof fn an_event_touches_what_it_tells_of<W>(s: IoState<W>, ev: IoEvent)
    ensures
        ({
            let t = after_event(s, ev);
            &&& t.fd == s.fd && t.interest == s.interest
            &&& t.readiness & READABLE != 0 <==> ev.readable || s.readiness & READABLE != 0
            &&& t.readiness & WRITABLE != 0 <==> ev.writable || s.readiness & WRITABLE != 0
            &&& !ev.readable ==> t.read_waker == s.read_waker
            &&& !ev.writable ==> t.write_waker == s.write_waker
        }),
{
    readiness_is_seen(s, ev);
    let x = s.readiness;
    assert((x | 1u8) & 2u8 == x & 2u8) by (bit_vector);
    assert((x | 2u8) & 1u8 == x & 1u8) by (bit_vector);
}

/// What the poller is told to watch is what there is interest in.
pub proof fn what_is_watched(fd: i32, token: usize, interest: u8)
    ensures
        watch_of(fd, token, interest).fd == fd,
        watch_of(fd, token, interest).token == token,
        watch_of(fd, token, interest).readable <==> interest % 2 == 1,
        watch_of(fd, token, interest).writable <==> interest % 4 >= 2,
        mask_of(DIR_READ) == 1,
        mask_of(DIR_WRITE) == 2,
{
    assert(interest & 1u8 != 0 <==> interest % 2 == 1) by (bit_vector);
    assert(interest & 2u8 != 0 <==> interest % 4 >= 2) by (bit_vector);
}

/// Events touch only the descriptors that they are of: no descriptor comes or goes, and one without an
/// event is as it was.
pub proof fn events_touch_their_descriptors<W>(at: Map<usize, IoState<W>>, evs: Seq<IoEvent>, token: usize)
    ensures
        after_events(at, evs).dom() == at.dom(),
        at.dom().contains(token) ==> {
            &&& after_events(at, evs)[token].fd == at[token].fd
            &&& after_events(at, evs)[token].interest == at[token].interest
        },
        (forall|i: int| 0 <= i < evs.len() ==> (#[trigger] evs[i]).key != token) ==> after_events(at, evs)[token] == at[token],
    decreases evs.len(),
{
    if evs.len() > 0 {
        let d = evs.drop_last();
        events_touch_their_descriptors(at, d, token);
        if forall|i: int| 0 <= i < evs.len() ==> (#[trigger] evs[i]).key != token {
            assert forall|i: int| 0 <= i < d.len() implies (#[trigger] d[i]).key != token by {
                assert(d[i] == evs[i]);
            }
            assert(evs[evs.len() - 1].key != token);
        }
        let m = after_events(at, d);
        if m.dom().contains(evs.last().key) {
            assert(m.insert(evs.last().key, after_event(m[evs.last().key], evs.last())).dom() =~= m.dom());
        }
    }
}

/// Every known descriptor that had an event is watched again, once for each event, in their order.
pub proof fn who_had_an_event_is_watched_again<W>(at: Map<usize, IoState<W>>, evs: Seq<IoEvent>)
    ensures
        rearmed(at, evs) == evs.filter(|ev: IoEvent| at.dom().contains(ev.key)).map_values(
            |ev: IoEvent| watch_of(at[ev.key].fd, ev.key, at[ev.key].interest),
        ),
    decreases evs.len(),
{
    reveal(Seq::filter);
    let known = |ev: IoEvent| at.dom().contains(ev.key);
    let watch = |ev: IoEvent| watch_of(at[ev.key].fd, ev.key, at[ev.key].interest);
    if evs.len() > 0 {
        let d = evs.drop_last();
        who_had_an_event_is_watched_again(at, d);
        events_touch_their_descriptors(at, d, evs.last().key);
        if known(evs.last()) {
            assert(evs.filter(known) == d.filter(known).push(evs.last()));
            assert(evs.filter(known).map_values(watch) =~= d.filter(known).map_values(watch).push(watch(evs.last())));
        }
    } else {
        assert(evs.filter(known).map_values(watch) =~= Seq::<Watch>::empty());
    }
}

/// Is this waker one that waits?
pub open spec fn waits_for<W>(at: Map<usize, IoState<W>>, token: usize, direction: u8, w: W) -> bool {
    at.dom().contains(token) && waker_of(at[token], direction) == Some(w)
}

/// Nobody is woken who did not wait for what an event told of.
pub proof fn nobody_else_is_woken<W>(at: Map<usize, IoState<W>>, evs: Seq<IoEvent>, k: int)
    requires
        0 <= k < woken_by_all(at, evs).len(),
    ensures
        exists|i: int, direction: u8|
            0 <= i < evs.len() && direction <= DIR_WRITE && #[trigger] tells_of(evs[i], direction) && waits_for(
                at,
                evs[i].key,
                direction,
                woken_by_all(at, evs)[k],
            ),
    decreases evs.len(),
{
    if evs.len() > 0 {
        let d = evs.drop_last();
        let ev = evs.last();
        let n = evs.len() - 1;
        let before = woken_by_all(at, d);
        let m = after_events(at, d);
        if k < before.len() {
            nobody_else_is_woken(at, d, k);
            let (i, direction) = choose|i: int, direction: u8|
                0 <= i < d.len() && direction <= DIR_WRITE && #[trigger] tells_of(d[i], direction) && waits_for(
                    at,
                    d[i].key,
                    direction,
                    before[k],
                );
            assert(d[i] == evs[i]);
            assert(tells_of(evs[i], direction));
        } else {
            let now = woken_by(m[ev.key], ev);
            let j = k - before.len();
            assert(woken_by_all(at, evs)[k] == now[j]);
            lemma_waker_stays(at, d, ev.key);
            if j == 0 && m[ev.key].read_waker is Some && ev.readable {
                assert(tells_of(evs[n], DIR_READ));
            } else {
                assert(tells_of(evs[n], DIR_WRITE));
            }
        }
    }
}

/// Events bring no new wakers.
proof fn lemma_waker_stays<W>(at: Map<usize, IoState<W>>, evs: Seq<IoEvent>, token: usize)
    ensures
        after_events(at, evs).dom() == at.dom(),
        at.dom().contains(token) ==> {
            let s = after_events(at, evs)[token];
            &&& s.read_waker is None || s.read_waker == at[token].read_waker
            &&& s.write_waker is None || s.write_waker == at[token].write_waker
        },
    decreases evs.len(),
{
    events_touch_their_descriptors(at, evs, token);
    if evs.len() > 0 {
        lemma_waker_stays(at, evs.drop_last(), token);
    }
}

} // verus!
