//! Bounded streams with an inline ring buffer, known by their handles.

use std::collections::HashMap;
use vstd::prelude::*;
use vstd::std_specs::hash::*;

verus! {

broadcast use group_hash_axioms;

pub const PUSH_OK: u8 = 0;

pub const PUSH_FULL: u8 = 1;

pub const PUSH_CLOSED: u8 = 2;

pub const NEXT_PENDING: u8 = 0;

pub const NEXT_READY: u8 = 1;

pub const NEXT_DONE: u8 = 2;

pub const FLUSH_PENDING: u8 = 0;

pub const FLUSH_SPACE: u8 = 1;

pub const FLUSH_CLOSED: u8 = 2;

/// One stream: a ring of `capacity` places, of which `count` from `head` on are taken.
pub struct StreamState<T, W> {
    buffer: Vec<Option<T>>,
    head: usize,
    tail: usize,
    count: usize,
    receiver_waker: Option<W>,
    sender_waker: Option<W>,
    sender_closed: bool,
    receiver_dropped: bool,
}

/// What a stream holds: its items, the oldest first, and who waits for what.
pub struct StreamModel<T, W> {
    pub items: Seq<T>,
    pub capacity: nat,
    pub receiver_waker: Option<W>,
    pub sender_waker: Option<W>,
    pub sender_closed: bool,
    pub receiver_dropped: bool,
}

impl<T, W> StreamState<T, W> {
    /// The place of the `i`-th item.
    spec fn place(&self, i: int) -> int {
        if self.head + i < self.buffer@.len() {
            self.head + i
        } else {
            self.head + i - self.buffer@.len()
        }
    }

    /// The taken places, and only those, hold an item; `tail` is the next free one.
    pub closed spec fn wf(&self) -> bool {
        &&& self.buffer@.len() > 0
        &&& self.head < self.buffer@.len()
        &&& self.count <= self.buffer@.len()
        &&& self.tail == self.place(self.count as int)
            || self.count == self.buffer@.len() && self.tail == self.head
        &&& self.tail < self.buffer@.len()
        &&& forall|i: int| 0 <= i < self.count ==> (#[trigger] self.buffer@[self.place(i)]) is Some
    }

    pub closed spec fn items(&self) -> Seq<T> {
        Seq::new(self.count as nat, |i: int| self.buffer@[self.place(i)]->0)
    }
}

impl<T, W> View for StreamState<T, W> {
    type V = StreamModel<T, W>;

    closed spec fn view(&self) -> StreamModel<T, W> {
        StreamModel {
            items: self.items(),
            capacity: self.buffer@.len(),
            receiver_waker: self.receiver_waker,
            sender_waker: self.sender_waker,
            sender_closed: self.sender_closed,
            receiver_dropped: self.receiver_dropped,
        }
    }
}

impl<T, W> StreamState<T, W> {
    fn new(capacity: usize) -> (r: Self)
        requires
            capacity > 0,
        ensures
            r.wf(),
            r@ == fresh_stream::<T, W>(capacity as nat),
    {
        let mut buffer: Vec<Option<T>> = Vec::new();
        while buffer.len() < capacity
            invariant
                buffer@.len() <= capacity,
            decreases capacity - buffer@.len(),
        {
            buffer.push(None);
        }
        let r = StreamState {
            buffer,
            head: 0,
            tail: 0,
            count: 0,
            receiver_waker: None,
            sender_waker: None,
            sender_closed: false,
            receiver_dropped: false,
        };
        assert(r.items() =~= Seq::empty());
        r
    }

    /// Puts an item behind all others.
    fn push_item(&mut self, item: T)
        requires
            old(self).wf(),
            old(self)@.items.len() < old(self)@.capacity,
        ensures
            final(self).wf(),
            final(self)@ == (StreamModel { items: old(self)@.items.push(item), ..old(self)@ }),
    {
        let ghost before = *self;
        let tail: usize = self.tail;
        self.buffer[tail] = Some(item);
        self.tail = if tail == self.buffer.len() - 1 {
            0
        } else {
            tail + 1
        };
        self.count = self.count + 1;
        proof {
            assert(before.tail == before.place(before.count as int));
            assert forall|i: int| 0 <= i < self.count implies (#[trigger] self.buffer@[self.place(i)]) is Some by {
                assert(self.place(i) == before.place(i));
                if i < before.count {
                    assert(before.place(i) != before.tail);
                    assert(before.buffer@[before.place(i)] is Some);
                }
            }
            assert(self.items() =~= before.items().push(item)) by {
                assert forall|i: int| 0 <= i < self.count implies self.items()[i] == before.items().push(item)[i] by {
                    assert(self.place(i) == before.place(i));
                    if i < before.count {
                        assert(before.place(i) != before.tail);
                    }
                }
            }
        }
    }

    /// Takes the oldest item out.
    fn pop_item(&mut self) -> (r: T)
        requires
            old(self).wf(),
            old(self)@.items.len() > 0,
        ensures
            final(self).wf(),
            r == old(self)@.items[0],
            final(self)@ == (StreamModel { items: old(self)@.items.drop_first(), ..old(self)@ }),
    {
        let ghost before = *self;
        let head: usize = self.head;
        proof {
            assert(before.place(0) == head);
            assert(before.buffer@[before.place(0)] is Some);
        }
        let item = self.buffer[head].take().unwrap();
        self.head = if head == self.buffer.len() - 1 {
            0
        } else {
            head + 1
        };
        self.count = self.count - 1;
        proof {
            assert forall|i: int| 0 <= i < self.count implies (#[trigger] self.buffer@[self.place(i)]) is Some && self.buffer@[self.place(i)]
                == before.buffer@[before.place(i + 1)] by {
                assert(self.place(i) == before.place(i + 1));
                assert(before.place(i + 1) != before.head);
                assert(before.buffer@[before.place(i + 1)] is Some);
            }
            assert(self.items() =~= before.items().drop_first());
        }
        item
    }

    fn is_full(&self) -> (r: bool)
        requires
            self.wf(),
        ensures
            r == (self@.items.len() >= self@.capacity),
    {
        self.count >= self.buffer.len()
    }
}

/// Wakers and flags do not matter to the ring.
proof fn lemma_same_ring<T, W>(a: StreamState<T, W>, b: StreamState<T, W>)
    requires
        a.wf(),
        a.buffer == b.buffer,
        a.head == b.head,
        a.tail == b.tail,
        a.count == b.count,
    ensures
        b.wf(),
        b.items() == a.items(),
{
    assert forall|i: int| b.place(i) == a.place(i) by {}
    assert forall|i: int| 0 <= i < b.count implies (#[trigger] b.buffer@[b.place(i)]) is Some by {
        assert(a.buffer@[a.place(i)] is Some);
    }
    assert(b.items() =~= a.items());
}

impl<T, W> StreamModel<T, W> {
    /// Is the next item taken?
    pub open spec fn takes(self) -> bool {
        !self.receiver_dropped && self.items.len() < self.capacity
    }

    /// The stream with an item behind the others; who waits for one waits no more.
    pub open spec fn pushed(self, item: T) -> Self {
        StreamModel { items: self.items.push(item), receiver_waker: None, ..self }
    }

    /// The stream without its first item; who waits for room waits no more.
    pub open spec fn popped(self) -> Self {
        StreamModel { items: self.items.drop_first(), sender_waker: None, ..self }
    }

    /// The stream after a poll.
    pub open spec fn polled(self, waker: W) -> Self {
        if self.items.len() > 0 {
            self.popped()
        } else if self.sender_closed {
            self
        } else {
            StreamModel { receiver_waker: Some(waker), ..self }
        }
    }

    /// The stream after a sender has asked for room.
    pub open spec fn asked(self, waker: W) -> Self {
        if self.receiver_dropped || self.items.len() < self.capacity {
            self
        } else {
            StreamModel { sender_waker: Some(waker), ..self }
        }
    }

    /// The sender has no more items.
    pub open spec fn closed(self) -> Self {
        StreamModel { sender_closed: true, receiver_waker: None, ..self }
    }

    /// The receiver is gone.
    pub open spec fn dropped(self) -> Self {
        StreamModel { receiver_dropped: true, sender_waker: None, ..self }
    }

    /// Whoever waits has a reason to: a receiver for there being nothing yet, a sender for there
    /// being no room yet.
    pub open spec fn patient(self) -> bool {
        &&& self.receiver_waker is Some ==> self.items.len() == 0 && !self.sender_closed
        &&& self.sender_waker is Some ==> self.items.len() >= self.capacity && !self.receiver_dropped
    }
}

/// A stream as it is made.
pub open spec fn fresh_stream<T, W>(capacity: nat) -> StreamModel<T, W> {
    StreamModel {
        items: Seq::empty(),
        capacity,
        receiver_waker: None,
        sender_waker: None,
        sender_closed: false,
        receiver_dropped: false,
    }
}

/// All streams.
pub struct Streams<T, W> {
    map: HashMap<u64, StreamState<T, W>>,
    next: u64,
}

impl<T, W> Streams<T, W> {
    pub closed spec fn wf(&self) -> bool {
        &&& self.next >= 1
        &&& forall|h: u64| #[trigger] self.map@.dom().contains(h) ==> h < self.next && self.map@[h].wf() && self.map@[h]@.items.len()
            <= self.map@[h]@.capacity
    }

    /// The handle of the next stream to be made.
    pub closed spec fn next_handle(&self) -> u64 {
        self.next
    }

    /// The streams by their handles.
    pub closed spec fn at(&self) -> Map<u64, StreamModel<T, W>> {
        self.map@.map_values(|s: StreamState<T, W>| s@)
    }

    pub fn new() -> (r: Self)
        ensures
            r.wf(),
            r.at() == Map::<u64, StreamModel<T, W>>::empty(),
            r.next_handle() == 1,
    {
        let r = Streams { map: HashMap::new(), next: 1 };
        assert(r.at() =~= Map::<u64, StreamModel<T, W>>::empty());
        r
    }

    fn put(&mut self, handle: u64, state: StreamState<T, W>)
        requires
            old(self).wf(),
            handle < old(self).next_handle(),
            state.wf(),
            state@.items.len() <= state@.capacity,
        ensures
            final(self).wf(),
            final(self).at() == old(self).at().insert(handle, state@),
            final(self).next_handle() == old(self).next_handle(),
    {
        let ghost before = *self;
        self.map.insert(handle, state);
        assert(self.at() =~= before.at().insert(handle, state@));
    }

    fn take(&mut self, handle: u64) -> (r: Option<StreamState<T, W>>)
        requires
            old(self).wf(),
        ensures
            final(self).wf(),
            final(self).at() == old(self).at().remove(handle),
            final(self).next_handle() == old(self).next_handle(),
            r is Some <==> old(self).at().dom().contains(handle),
            r matches Some(s) ==> s.wf() && s@ == old(self).at()[handle] && handle < old(self).next_handle() && s@.items.len()
                <= s@.capacity,
    {
        let ghost before = *self;
        let r = self.map.remove(&handle);
        assert(self.at() =~= before.at().remove(handle));
        r
    }
}

/// No stream holds more items than its capacity.
pub proof fn streams_are_bounded<T, W>(s: &Streams<T, W>, handle: u64)
    requires
        s.wf(),
        s.at().dom().contains(handle),
    ensures
        s.at()[handle].items.len() <= s.at()[handle].capacity,
        handle < s.next_handle(),
{
}

/// Makes a stream for at most `capacity` items, but at least one.
pub fn tau_stream_create<T, W>(streams: &mut Streams<T, W>, capacity: u32) -> (handle: u64)
    requires
        old(streams).wf(),
        old(streams).next_handle() < u64::MAX,
    ensures
        final(streams).wf(),
        handle == old(streams).next_handle(),
        final(streams).next_handle() == handle + 1,
        final(streams).at() == old(streams).at().insert(
            handle,
            fresh_stream::<T, W>(
                if capacity == 0 {
                    1
                } else {
                    capacity as nat
                },
            ),
        ),
{
    let id: u64 = streams.next;
    let ghost before = *streams;
    streams.next = id + 1;
    assert(streams.at() == before.at());
    let cap: usize = if capacity == 0 {
        1
    } else {
        capacity as usize
    };
    streams.put(id, StreamState::new(cap));
    id
}

/// What came of a push: its code, the item if it was not taken, and who is to be woken.
pub struct Pushed<T, W> {
    pub code: u8,
    pub rejected: Option<T>,
    pub wake: Option<W>,
}

/// Pushes an item: `PUSH_OK`; `PUSH_FULL`; `PUSH_CLOSED` if the receiver is gone or the stream
/// is unknown. A receiver that waits is woken.
pub fn tau_stream_push<T, W>(streams: &mut Streams<T, W>, handle: u64, item: T) -> (r: Pushed<T, W>)
    requires
        old(streams).wf(),
    ensures
        final(streams).wf(),
        final(streams).next_handle() == old(streams).next_handle(),
        ({
            let at = old(streams).at();
            let s = at[handle];
            if !at.dom().contains(handle) || s.receiver_dropped {
                &&& r == (Pushed { code: PUSH_CLOSED, rejected: Some(item), wake: None::<W> })
                &&& final(streams).at() == at
            } else if s.items.len() >= s.capacity {
                &&& r == (Pushed { code: PUSH_FULL, rejected: Some(item), wake: None::<W> })
                &&& final(streams).at() == at
            } else {
                &&& r == (Pushed { code: PUSH_OK, rejected: None::<T>, wake: s.receiver_waker })
                &&& final(streams).at() == at.insert(handle, s.pushed(item))
            }
        }),
{
    let ghost at = streams.at();
    match streams.take(handle) {
        None => {
            assert(streams.at() =~= at);
            Pushed { code: PUSH_CLOSED, rejected: Some(item), wake: None }
        },
        Some(mut state) => {
            let closed: bool = state.receiver_dropped;
            let full: bool = state.is_full();
            if closed || full {
                streams.put(handle, state);
                assert(streams.at() =~= at);
                let code: u8 = if closed {
                    PUSH_CLOSED
                } else {
                    PUSH_FULL
                };
                return Pushed { code, rejected: Some(item), wake: None };
            }
            state.push_item(item);
            let ghost pushed = state;
            let wake = state.receiver_waker.take();
            proof {
                lemma_same_ring(pushed, state);
            }
            let ghost end = state@;
            streams.put(handle, state);
            assert(streams.at() =~= at.insert(handle, end));
            Pushed { code: PUSH_OK, rejected: None, wake }
        },
    }
}

/// What came of a poll: its code, the item if there was one, and who is to be woken.
pub struct Polled<T, W> {
    pub code: u8,
    pub item: Option<T>,
    pub wake: Option<W>,
}

/// Polls for the next item: `NEXT_READY` with the oldest one (a sender that waits is woken);
/// `NEXT_DONE` if there is none and the sender has closed, or the stream is unknown; else
/// `NEXT_PENDING`, and the waker is kept.
pub fn tau_stream_poll_next<T, W>(streams: &mut Streams<T, W>, handle: u64, waker: W) -> (r: Polled<T, W>)
    requires
        old(streams).wf(),
    ensures
        final(streams).wf(),
        final(streams).next_handle() == old(streams).next_handle(),
        ({
            let at = old(streams).at();
            let s = at[handle];
            if !at.dom().contains(handle) {
                &&& r == (Polled { code: NEXT_DONE, item: None::<T>, wake: None::<W> })
                &&& final(streams).at() == at
            } else if s.items.len() > 0 {
                &&& r == (Polled { code: NEXT_READY, item: Some(s.items[0]), wake: s.sender_waker })
                &&& final(streams).at() == at.insert(handle, s.polled(waker))
            } else if s.sender_closed {
                &&& r == (Polled { code: NEXT_DONE, item: None::<T>, wake: None::<W> })
                &&& final(streams).at() == at
            } else {
                &&& r == (Polled { code: NEXT_PENDING, item: None::<T>, wake: None::<W> })
                &&& final(streams).at() == at.insert(handle, s.polled(waker))
            }
        }),
{
    let ghost at = streams.at();
    match streams.take(handle) {
        None => {
            assert(streams.at() =~= at);
            Polled { code: NEXT_DONE, item: None, wake: None }
        },
        Some(mut state) => {
            if state.count > 0 {
                let item = state.pop_item();
                let ghost popped = state;
                let wake = state.sender_waker.take();
                proof {
                    lemma_same_ring(popped, state);
                }
                let ghost end = state@;
                streams.put(handle, state);
                assert(streams.at() =~= at.insert(handle, end));
                Polled { code: NEXT_READY, item: Some(item), wake }
            } else if state.sender_closed {
                streams.put(handle, state);
                assert(streams.at() =~= at);
                Polled { code: NEXT_DONE, item: None, wake: None }
            } else {
                let ghost before = state;
                state.receiver_waker = Some(waker);
                proof {
                    lemma_same_ring(before, state);
                }
                let ghost end = state@;
                streams.put(handle, state);
                assert(streams.at() =~= at.insert(handle, end));
                Polled { code: NEXT_PENDING, item: None, wake: None }
            }
        },
    }
}

/// What came of the end of one side: who is to be woken, and the items that nobody will read
/// any more.
pub struct Ended<T, W> {
    pub wake: Option<W>,
    pub dropped: Vec<T>,
}

/// The items of a stream that is gone.
fn drain<T, W>(state: StreamState<T, W>) -> (r: Vec<T>)
    requires
        state.wf(),
    ensures
        r@ == state@.items,
{
    let ghost all = state@.items;
    let mut s = state;
    let mut r: Vec<T> = Vec::new();
    while s.count > 0
        invariant
            s.wf(),
            r@ + s@.items == all,
        decreases s.count,
    {
        let ghost left = s@.items;
        let item = s.pop_item();
        r.push(item);
        assert(left =~= seq![left[0]] + left.drop_first());
        assert(r@ + s@.items =~= all);
    }
    assert(r@ =~= all);
    r
}

/// The sender has no more items. A receiver that waits is woken; it still gets the items that
/// are there. If the receiver is gone, so is the stream.
pub fn tau_stream_close<T, W>(streams: &mut Streams<T, W>, handle: u64) -> (r: Ended<T, W>)
    requires
        old(streams).wf(),
    ensures
        final(streams).wf(),
        final(streams).next_handle() == old(streams).next_handle(),
        ({
            let at = old(streams).at();
            let s = at[handle];
            if !at.dom().contains(handle) {
                final(streams).at() == at && r.wake is None && r.dropped@.len() == 0
            } else if s.receiver_dropped {
                final(streams).at() == at.remove(handle) && r.wake == s.receiver_waker && r.dropped@ == s.items
            } else {
                &&& r.wake == s.receiver_waker
                &&& r.dropped@.len() == 0
                &&& final(streams).at() == at.insert(handle, s.closed())
            }
        }),
{
    let ghost at = streams.at();
    match streams.take(handle) {
        None => {
            assert(streams.at() =~= at);
            Ended { wake: None, dropped: Vec::new() }
        },
        Some(mut state) => {
            let ghost before = state;
            state.sender_closed = true;
            let wake = state.receiver_waker.take();
            proof {
                lemma_same_ring(before, state);
            }
            if state.receiver_dropped {
                let dropped = drain(state);
                Ended { wake, dropped }
            } else {
                let ghost end = state@;
                streams.put(handle, state);
                assert(streams.at() =~= at.insert(handle, end));
                Ended { wake, dropped: Vec::new() }
            }
        },
    }
}

/// The receiver is gone. A sender that waits is woken. If the sender has closed, the stream is
/// gone too, with the items that are left.
pub fn tau_stream_drop<T, W>(streams: &mut Streams<T, W>, handle: u64) -> (r: Ended<T, W>)
    requires
        old(streams).wf(),
    ensures
        final(streams).wf(),
        final(streams).next_handle() == old(streams).next_handle(),
        ({
            let at = old(streams).at();
            let s = at[handle];
            if !at.dom().contains(handle) {
                final(streams).at() == at && r.wake is None && r.dropped@.len() == 0
            } else if s.sender_closed {
                final(streams).at() == at.remove(handle) && r.wake == s.sender_waker && r.dropped@ == s.items
            } else {
                &&& r.wake == s.sender_waker
                &&& r.dropped@.len() == 0
                &&& final(streams).at() == at.insert(handle, s.dropped())
            }
        }),
{
    let ghost at = streams.at();
    match streams.take(handle) {
        None => {
            assert(streams.at() =~= at);
            Ended { wake: None, dropped: Vec::new() }
        },
        Some(mut state) => {
            let ghost before = state;
            state.receiver_dropped = true;
            let wake = state.sender_waker.take();
            proof {
                lemma_same_ring(before, state);
            }
            if state.sender_closed {
                let dropped = drain(state);
                Ended { wake, dropped }
            } else {
                let ghost end = state@;
                streams.put(handle, state);
                assert(streams.at() =~= at.insert(handle, end));
                Ended { wake, dropped: Vec::new() }
            }
        },
    }
}

/// A sender asks for room: `FLUSH_SPACE` if there is some; `FLUSH_CLOSED` if the receiver is
/// gone or the stream is unknown; else `FLUSH_PENDING`, and the waker is kept.
pub fn tau_stream_poll_flush<T, W>(streams: &mut Streams<T, W>, handle: u64, waker: W) -> (code: u8)
    requires
        old(streams).wf(),
    ensures
        final(streams).wf(),
        final(streams).next_handle() == old(streams).next_handle(),
        ({
            let at = old(streams).at();
            let s = at[handle];
            if !at.dom().contains(handle) || s.receiver_dropped {
                code == FLUSH_CLOSED && final(streams).at() == at
            } else if s.items.len() < s.capacity {
                code == FLUSH_SPACE && final(streams).at() == at
            } else {
                code == FLUSH_PENDING && final(streams).at() == at.insert(handle, s.asked(waker))
            }
        }),
{
    let ghost at = streams.at();
    match streams.take(handle) {
        None => {
            assert(streams.at() =~= at);
            FLUSH_CLOSED
        },
        Some(mut state) => {
            let closed: bool = state.receiver_dropped;
            let full: bool = state.is_full();
            if !closed && full {
                let ghost before = state;
                state.sender_waker = Some(waker);
                proof {
                    lemma_same_ring(before, state);
                }
                let ghost end = state@;
                streams.put(handle, state);
                assert(streams.at() =~= at.insert(handle, end));
                return FLUSH_PENDING;
            }
            streams.put(handle, state);
            assert(streams.at() =~= at);
            if closed {
                FLUSH_CLOSED
            } else {
                FLUSH_SPACE
            }
        },
    }
}

/// One use of a stream.
pub enum StreamOp<T, W> {
    Push(T),
    Poll(W),
    Flush(W),
    Close,
    Drop,
}

/// A stream after some uses of it, the items that it took meanwhile, and those that came out.
pub open spec fn used<T, W>(s: StreamModel<T, W>, ops: Seq<StreamOp<T, W>>) -> (StreamModel<T, W>, Seq<T>, Seq<T>)
    decreases ops.len(),
{
    if ops.len() == 0 {
        (s, Seq::empty(), Seq::empty())
    } else {
        let (now, went_in, came_out) = used(s, ops.drop_last());
        match ops.last() {
            StreamOp::Push(item) => if now.takes() {
                (now.pushed(item), went_in.push(item), came_out)
            } else {
                (now, went_in, came_out)
            },
            StreamOp::Poll(waker) => (
                now.polled(waker),
                went_in,
                if now.items.len() > 0 {
                    came_out.push(now.items[0])
                } else {
                    came_out
                },
            ),
            StreamOp::Flush(waker) => (now.asked(waker), went_in, came_out),
            StreamOp::Close => (now.closed(), went_in, came_out),
            StreamOp::Drop => (now.dropped(), went_in, came_out),
        }
    }
}

/// Items come out in the order in which they went in, however the two sides take turns: nothing is
/// lost, added or reordered, and there is never more in a stream than it has room for.
pub proof fn items_keep_their_order<T, W>(s: StreamModel<T, W>, ops: Seq<StreamOp<T, W>>)
    requires
        s.items.len() <= s.capacity,
    ensures
        ({
            let (now, went_in, came_out) = used(s, ops);
            &&& s.items + went_in == came_out + now.items
            &&& now.items.len() <= now.capacity
            &&& now.capacity == s.capacity
        }),
    decreases ops.len(),
{
    let (now, went_in, came_out) = used(s, ops);
    if ops.len() == 0 {
        assert(s.items + went_in =~= came_out + now.items);
    } else {
        items_keep_their_order(s, ops.drop_last());
        let (now0, in0, out0) = used(s, ops.drop_last());
        match ops.last() {
            StreamOp::Push(item) => {
                if now0.takes() {
                    assert(s.items + went_in =~= (s.items + in0).push(item));
                    assert(came_out + now.items =~= (out0 + now0.items).push(item));
                }
            },
            StreamOp::Poll(_) => {
                assert(came_out + now.items =~= out0 + now0.items);
            },
            _ => {},
        }
    }
}

/// No wake-up is lost: whoever waits at a stream has a reason to, from its making on, whatever is
/// done to it. When the reason goes, so does the waker: it has been handed out to be woken.
pub proof fn no_wake_up_is_lost<T, W>(capacity: nat, ops: Seq<StreamOp<T, W>>)
    ensures
        used(fresh_stream::<T, W>(capacity), ops).0.patient(),
    decreases ops.len(),
{
    if ops.len() > 0 {
        no_wake_up_is_lost::<T, W>(capacity, ops.drop_last());
    }
}

} // verus!
