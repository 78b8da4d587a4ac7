//! Streams that are made of other streams.
//!
//! What such a stream has answered stands in `out`, for the proofs alone.

use vstd::prelude::*;
use crate::stream;
use crate::stream::count::Count;
use crate::stream::future::Future;
use crate::stream::Stream;
use crate::tokio::poll::Poll;

verus! {

// ---------------------------------------------------------------------------
// Map
// ---------------------------------------------------------------------------

/// A function of each item.
pub struct MapStream<St, F, B> {
    pub stream: St,
    pub f: F,
    pub out: Ghost<Seq<Poll<Option<B>>>>,
}

/// Makes of what the stream came to what its map comes to.
pub fn map_polled<T, B, F: FnMut(T) -> B>(f: &mut F, polled: Poll<Option<T>>) -> (r: Poll<Option<B>>)
    requires
        polled matches Poll::Ready(Some(x)) ==> call_requires(*old(f), (x,)),
    ensures
        match polled {
            Poll::Ready(Some(x)) => r matches Poll::Ready(Some(y)) && call_ensures(*old(f), (x,), y),
            Poll::Ready(None) => r == Poll::Ready(None::<B>) && *final(f) == *old(f),
            Poll::Pending => r is Pending && *final(f) == *old(f),
        },
{
    match polled {
        Poll::Ready(Some(x)) => {
            let y = f(x);
            Poll::Ready(Some(y))
        },
        Poll::Ready(None) => Poll::Ready(None),
        Poll::Pending => Poll::Pending,
    }
}

impl<St, F, B> MapStream<St, F, B> {
    pub fn new(stream: St, f: F) -> (r: Self)
        ensures
            r.stream == stream,
            r.f == f,
            r.out@ == Seq::<Poll<Option<B>>>::empty(),
    {
        MapStream { stream, f, out: Ghost(Seq::empty()) }
    }
}

impl<W: Clone, St: Stream<W>, B, F: FnMut(St::Item) -> B> Stream<W> for MapStream<St, F, B> {
    type Item = B;

    open spec fn sound(&self) -> bool {
        self.stream.sound() && stream::callable::<St::Item, B, F>()
    }

    open spec fn answers(&self) -> Seq<Poll<Option<B>>> {
        self.out@
    }

    open spec fn hint(&self) -> (usize, Option<usize>) {
        self.stream.hint()
    }

    fn poll_next(&mut self, waker: W) -> (r: Poll<Option<B>>)
        ensures
            ({
                let polled = final(self).stream.answers().last();
                &&& final(self).stream.answers() == old(self).stream.answers().push(polled)
                &&& match polled {
                    Poll::Ready(Some(x)) => r matches Poll::Ready(Some(y)) && call_ensures(old(self).f, (x,), y),
                    Poll::Ready(None) => r == Poll::Ready(None::<B>) && final(self).f == old(self).f,
                    Poll::Pending => r is Pending && final(self).f == old(self).f,
                }
            }),
    {
        let polled = self.stream.poll_next(waker);
        let r = map_polled(&mut self.f, polled);
        proof {
            self.out@ = self.out@.push(r);
        }
        r
    }

    fn size_hint(&self) -> (r: (usize, Option<usize>)) {
        self.stream.size_hint()
    }
}

// ---------------------------------------------------------------------------
// Filter
// ---------------------------------------------------------------------------

/// Did the predicate, as it was before each of the items, hold of none of them? The last of `fs`
/// is the predicate as it was after them.
pub open spec fn all_refused<T, F: FnMut(&T) -> bool>(fs: Seq<F>, items: Seq<T>) -> bool {
    &&& fs.len() == items.len() + 1
    &&& forall|i: int| 0 <= i < items.len() ==> call_ensures(#[trigger] fs[i], (&items[i],), false)
}

/// The items of which the predicate holds.
pub struct Filter<St, F, T> {
    pub stream: St,
    pub f: F,
    pub out: Ghost<Seq<Poll<Option<T>>>>,
}

/// The item, if the predicate holds of it.
pub fn keep<T, F: FnMut(&T) -> bool>(f: &mut F, x: T) -> (r: Option<T>)
    requires
        call_requires(*old(f), (&x,)),
    ensures
        match r {
            Some(y) => y == x && call_ensures(*old(f), (&x,), true),
            None => call_ensures(*old(f), (&x,), false),
        },
{
    if f(&x) {
        Some(x)
    } else {
        None
    }
}

impl<St, F, T> Filter<St, F, T> {
    pub fn new(stream: St, f: F) -> (r: Self)
        ensures
            r.stream == stream,
            r.f == f,
            r.out@ == Seq::<Poll<Option<T>>>::empty(),
    {
        Filter { stream, f, out: Ghost(Seq::empty()) }
    }
}

impl<W: Clone, T, St: Stream<W, Item = T>, F: FnMut(&T) -> bool> Stream<W> for Filter<St, F, T> {
    type Item = T;

    open spec fn sound(&self) -> bool {
        self.stream.sound() && stream::testable::<T, F>()
    }

    open spec fn answers(&self) -> Seq<Poll<Option<T>>> {
        self.out@
    }

    open spec fn hint(&self) -> (usize, Option<usize>) {
        (0, self.stream.hint().1)
    }

    /// Goes on until an item is kept, or the stream has none.
    fn poll_next(&mut self, waker: W) -> (r: Poll<Option<T>>)
        ensures
            exists|fs: Seq<F>, skipped: Seq<T>|
                {
                    &&& #[trigger] all_refused::<T, F>(fs, skipped)
                    &&& fs[0] == old(self).f
                    &&& stream::asked(old(self).stream.answers(), final(self).stream.answers(), skipped, r)
                    &&& match r {
                        Poll::Ready(Some(x)) => call_ensures(fs.last(), (&x,), true),
                        _ => final(self).f == fs.last(),
                    }
                },
    {
        let ghost g0 = self.stream.answers();
        let ghost out0 = self.out@;
        let ghost mut fs: Seq<F> = seq![self.f];
        let ghost mut skipped: Seq<T> = Seq::empty();
        proof {
            stream::lemma_none_yet(g0);
        }
        let mut asked = Count::new();
        loop
            invariant
                self.sound(),
                self.out@ == out0,
                g0 == old(self).stream.answers(),
                out0 == old(self).out@,
                fs[0] == old(self).f,
                fs.last() == self.f,
                all_refused::<T, F>(fs, skipped),
                self.stream.answers() == g0 + stream::gave(skipped),
            decreases asked.room(), asked.rest(),
        {
            match self.stream.poll_next(waker.clone()) {
                Poll::Ready(Some(item)) => {
                    let ghost x = item;
                    match keep(&mut self.f, item) {
                        Some(y) => {
                            proof {
                                self.out@ = self.out@.push(Poll::Ready(Some(y)));
                            }
                            return Poll::Ready(Some(y));
                        },
                        None => {
                            proof {
                                stream::lemma_one_more(g0, skipped, x);
                                skipped = skipped.push(x);
                                fs = fs.push(self.f);
                            }
                        },
                    }
                },
                Poll::Ready(None) => {
                    proof {
                        self.out@ = self.out@.push(Poll::Ready(None));
                    }
                    return Poll::Ready(None);
                },
                Poll::Pending => {
                    proof {
                        self.out@ = self.out@.push(Poll::Pending);
                    }
                    return Poll::Pending;
                },
            }
            asked.step();
        }
    }

    fn size_hint(&self) -> (r: (usize, Option<usize>)) {
        let (_, upper) = self.stream.size_hint();
        (0, upper)
    }
}

// ---------------------------------------------------------------------------
// FilterMap
// ---------------------------------------------------------------------------

/// Did the function, as it was before each of the items, give nothing for any of them? The last of
/// `fs` is the function as it was after them.
pub open spec fn all_dropped<T, B, F: FnMut(T) -> Option<B>>(fs: Seq<F>, items: Seq<T>) -> bool {
    &&& fs.len() == items.len() + 1
    &&& forall|i: int| 0 <= i < items.len() ==> call_ensures(#[trigger] fs[i], (items[i],), None::<B>)
}

/// What the function gives for each item, where it gives something.
pub struct FilterMap<St, F, B> {
    pub stream: St,
    pub f: F,
    pub out: Ghost<Seq<Poll<Option<B>>>>,
}

impl<St, F, B> FilterMap<St, F, B> {
    pub fn new(stream: St, f: F) -> (r: Self)
        ensures
            r.stream == stream,
            r.f == f,
            r.out@ == Seq::<Poll<Option<B>>>::empty(),
    {
        FilterMap { stream, f, out: Ghost(Seq::empty()) }
    }
}

impl<W: Clone, T, B, St: Stream<W, Item = T>, F: FnMut(T) -> Option<B>> Stream<W> for FilterMap<St, F, B> {
    type Item = B;

    open spec fn sound(&self) -> bool {
        self.stream.sound() && stream::callable::<T, Option<B>, F>()
    }

    open spec fn answers(&self) -> Seq<Poll<Option<B>>> {
        self.out@
    }

    open spec fn hint(&self) -> (usize, Option<usize>) {
        (0, self.stream.hint().1)
    }

    /// Goes on until the function gives something, or the stream has none.
    fn poll_next(&mut self, waker: W) -> (r: Poll<Option<B>>)
        ensures
            exists|fs: Seq<F>, skipped: Seq<T>, end: Poll<Option<T>>|
                {
                    &&& #[trigger] all_dropped::<T, B, F>(fs, skipped)
                    &&& fs[0] == old(self).f
                    &&& #[trigger] stream::asked(old(self).stream.answers(), final(self).stream.answers(), skipped, end)
                    &&& match end {
                        Poll::Ready(Some(x)) => r matches Poll::Ready(Some(y)) && call_ensures(fs.last(), (x,), Some(y)),
                        Poll::Ready(None) => r == Poll::Ready(None::<B>) && final(self).f == fs.last(),
                        Poll::Pending => r is Pending && final(self).f == fs.last(),
                    }
                },
    {
        let ghost g0 = self.stream.answers();
        let ghost out0 = self.out@;
        let ghost mut fs: Seq<F> = seq![self.f];
        let ghost mut skipped: Seq<T> = Seq::empty();
        proof {
            stream::lemma_none_yet(g0);
        }
        let mut asked = Count::new();
        loop
            invariant
                self.sound(),
                self.out@ == out0,
                g0 == old(self).stream.answers(),
                out0 == old(self).out@,
                fs[0] == old(self).f,
                fs.last() == self.f,
                all_dropped::<T, B, F>(fs, skipped),
                self.stream.answers() == g0 + stream::gave(skipped),
            decreases asked.room(), asked.rest(),
        {
            match self.stream.poll_next(waker.clone()) {
                Poll::Ready(Some(item)) => {
                    let ghost x = item;
                    match (self.f)(item) {
                        Some(y) => {
                            assert(stream::asked(g0, self.stream.answers(), skipped, Poll::Ready(Some(x))));
                            proof {
                                self.out@ = self.out@.push(Poll::Ready(Some(y)));
                            }
                            return Poll::Ready(Some(y));
                        },
                        None => {
                            proof {
                                stream::lemma_one_more(g0, skipped, x);
                                skipped = skipped.push(x);
                                fs = fs.push(self.f);
                            }
                        },
                    }
                },
                Poll::Ready(None) => {
                    assert(stream::asked(g0, self.stream.answers(), skipped, Poll::Ready(None)));
                    proof {
                        self.out@ = self.out@.push(Poll::Ready(None));
                    }
                    return Poll::Ready(None);
                },
                Poll::Pending => {
                    assert(stream::asked(g0, self.stream.answers(), skipped, Poll::Pending));
                    proof {
                        self.out@ = self.out@.push(Poll::Pending);
                    }
                    return Poll::Pending;
                },
            }
            asked.step();
        }
    }

    fn size_hint(&self) -> (r: (usize, Option<usize>)) {
        let (_, upper) = self.stream.size_hint();
        (0, upper)
    }
}

// ---------------------------------------------------------------------------
// TakeWhile
// ---------------------------------------------------------------------------

/// The items up to the first of which the predicate does not hold; `done` once that has come.
pub struct TakeWhile<St, F, T> {
    pub stream: St,
    pub f: F,
    pub done: bool,
    pub out: Ghost<Seq<Poll<Option<T>>>>,
}

impl<St, F, T> TakeWhile<St, F, T> {
    pub fn new(stream: St, f: F) -> (r: Self)
        ensures
            r.stream == stream,
            r.f == f,
            !r.done,
            r.out@ == Seq::<Poll<Option<T>>>::empty(),
    {
        TakeWhile { stream, f, done: false, out: Ghost(Seq::empty()) }
    }
}

impl<W: Clone, T, St: Stream<W, Item = T>, F: FnMut(&T) -> bool> Stream<W> for TakeWhile<St, F, T> {
    type Item = T;

    open spec fn sound(&self) -> bool {
        self.stream.sound() && stream::testable::<T, F>()
    }

    open spec fn answers(&self) -> Seq<Poll<Option<T>>> {
        self.out@
    }

    open spec fn hint(&self) -> (usize, Option<usize>) {
        if self.done {
            (0, Some(0))
        } else {
            (0, self.stream.hint().1)
        }
    }

    /// Once it has come to its end it stays there: the stream below is not asked again.
    fn poll_next(&mut self, waker: W) -> (r: Poll<Option<T>>)
        ensures
            old(self).done ==> {
                &&& r == Poll::Ready(None::<T>)
                &&& final(self).done
                &&& final(self).stream == old(self).stream
                &&& final(self).f == old(self).f
            },
            !old(self).done ==> {
                let polled = final(self).stream.answers().last();
                &&& final(self).stream.answers() == old(self).stream.answers().push(polled)
                &&& match polled {
                    Poll::Ready(Some(x)) => if final(self).done {
                        r == Poll::Ready(None::<T>) && call_ensures(old(self).f, (&x,), false)
                    } else {
                        r == polled && call_ensures(old(self).f, (&x,), true)
                    },
                    _ => r == polled && !final(self).done && final(self).f == old(self).f,
                }
            },
    {
        let r = if self.done {
            Poll::Ready(None)
        } else {
            match self.stream.poll_next(waker) {
                Poll::Ready(Some(item)) => {
                    match keep(&mut self.f, item) {
                        Some(x) => Poll::Ready(Some(x)),
                        None => {
                            self.done = true;
                            Poll::Ready(None)
                        },
                    }
                },
                Poll::Ready(None) => Poll::Ready(None),
                Poll::Pending => Poll::Pending,
            }
        };
        proof {
            self.out@ = self.out@.push(r);
        }
        r
    }

    fn size_hint(&self) -> (r: (usize, Option<usize>)) {
        if self.done {
            (0, Some(0))
        } else {
            let (_, upper) = self.stream.size_hint();
            (0, upper)
        }
    }
}

// ---------------------------------------------------------------------------
// ThenEach
// ---------------------------------------------------------------------------

/// What the future comes to that the function makes of each item; `waiting` is the one that is
/// being waited for.
pub struct ThenEach<St, F, Fut, B> {
    pub stream: St,
    pub f: F,
    pub waiting: Option<Fut>,
    pub out: Ghost<Seq<Poll<Option<B>>>>,
}

/// Can what the function makes be polled?
pub open spec fn makes_futures<T, W: Clone, Fut: Future<W>, F: FnMut(T) -> Fut>() -> bool {
    forall|g: F, x: T, fut: Fut| #[trigger] call_ensures(g, (x,), fut) ==> fut.alive()
}

/// Was the future polled and came to this? It is waited for as long as it came to nothing.
pub open spec fn polled_for<W: Clone, B, Fut: Future<W, Output = B>>(
    before: Fut,
    after: Fut,
    waiting: Option<Fut>,
    r: Poll<Option<B>>,
) -> bool {
    let p = after.answers().last();
    &&& after.answers() == before.answers().push(p)
    &&& match p {
        Poll::Ready(y) => r == Poll::Ready(Some(y)) && waiting is None,
        Poll::Pending => r is Pending && waiting == Some(after),
    }
}

impl<St, F, Fut, B> ThenEach<St, F, Fut, B> {
    pub fn new(stream: St, f: F) -> (r: Self)
        ensures
            r.stream == stream,
            r.f == f,
            r.waiting is None,
            r.out@ == Seq::<Poll<Option<B>>>::empty(),
    {
        ThenEach { stream, f, waiting: None, out: Ghost(Seq::empty()) }
    }
}

impl<W: Clone, T, B, St: Stream<W, Item = T>, Fut: Future<W, Output = B>, F: FnMut(T) -> Fut> Stream<W> for ThenEach<St, F, Fut, B> {
    type Item = B;

    open spec fn sound(&self) -> bool {
        &&& self.stream.sound()
        &&& stream::callable::<T, Fut, F>()
        &&& makes_futures::<T, W, Fut, F>()
        &&& self.waiting matches Some(fut) ==> fut.alive()
    }

    open spec fn answers(&self) -> Seq<Poll<Option<B>>> {
        self.out@
    }

    open spec fn hint(&self) -> (usize, Option<usize>) {
        (0, None)
    }

    /// Takes the next item only when nothing is being waited for, so the order is kept.
    fn poll_next(&mut self, waker: W) -> (r: Poll<Option<B>>)
        ensures
            match old(self).waiting {
                Some(fut) => {
                    &&& final(self).stream == old(self).stream
                    &&& final(self).f == old(self).f
                    &&& exists|after: Fut| #[trigger] polled_for::<W, B, Fut>(fut, after, final(self).waiting, r)
                },
                None => {
                    let polled = final(self).stream.answers().last();
                    &&& final(self).stream.answers() == old(self).stream.answers().push(polled)
                    &&& match polled {
                        Poll::Ready(Some(x)) => exists|fut: Fut, after: Fut|
                            {
                                &&& call_ensures(old(self).f, (x,), fut)
                                &&& #[trigger] polled_for::<W, B, Fut>(fut, after, final(self).waiting, r)
                            },
                        Poll::Ready(None) => {
                            &&& r == Poll::Ready(None::<B>)
                            &&& final(self).waiting is None
                            &&& final(self).f == old(self).f
                        },
                        Poll::Pending => r is Pending && final(self).waiting is None && final(self).f == old(self).f,
                    }
                },
            },
    {
        if self.waiting.is_none() {
            match self.stream.poll_next(waker.clone()) {
                Poll::Ready(Some(item)) => {
                    let fut = (self.f)(item);
                    self.waiting = Some(fut);
                },
                Poll::Ready(None) => {
                    proof {
                        self.out@ = self.out@.push(Poll::Ready(None));
                    }
                    return Poll::Ready(None);
                },
                Poll::Pending => {
                    proof {
                        self.out@ = self.out@.push(Poll::Pending);
                    }
                    return Poll::Pending;
                },
            }
        }
        let ghost before = self.waiting->0;
        let r = match self.waiting.take() {
            Some(mut fut) => {
                match fut.poll(waker) {
                    Poll::Ready(y) => {
                        assert(polled_for::<W, B, Fut>(before, fut, None, Poll::Ready(Some(y))));
                        Poll::Ready(Some(y))
                    },
                    Poll::Pending => {
                        assert(polled_for::<W, B, Fut>(before, fut, Some(fut), Poll::Pending));
                        self.waiting = Some(fut);
                        Poll::Pending
                    },
                }
            },
            None => Poll::Pending,
        };
        proof {
            self.out@ = self.out@.push(r);
        }
        r
    }

    fn size_hint(&self) -> (r: (usize, Option<usize>)) {
        (0, None)
    }
}

// ---------------------------------------------------------------------------
// Merge
// ---------------------------------------------------------------------------

/// The items of two streams. The one that did not give the last item is asked first.
pub struct Merge<A, B, T> {
    pub a: A,
    pub b: B,
    pub a_done: bool,
    pub b_done: bool,
    pub poll_a_first: bool,
    pub out: Ghost<Seq<Poll<Option<T>>>>,
}

/// What two streams come to of which the first had no item: there is one if the second has one,
/// and an end if both are at theirs.
pub open spec fn merged<T>(first_done: bool, second: Poll<Option<T>>) -> Poll<Option<T>> {
    match second {
        Poll::Ready(Some(x)) => Poll::Ready(Some(x)),
        Poll::Ready(None) => if first_done {
            Poll::Ready(None)
        } else {
            Poll::Pending
        },
        Poll::Pending => Poll::Pending,
    }
}

/// As `merged`.
pub fn merge_polled<T>(first_done: bool, second: Poll<Option<T>>) -> (r: Poll<Option<T>>)
    ensures
        r == merged(first_done, second),
{
    match second {
        Poll::Ready(Some(x)) => Poll::Ready(Some(x)),
        Poll::Ready(None) => if first_done {
            Poll::Ready(None)
        } else {
            Poll::Pending
        },
        Poll::Pending => Poll::Pending,
    }
}

impl<A, B, T> Merge<A, B, T> {
    pub fn new(a: A, b: B) -> (r: Self)
        ensures
            r.a == a,
            r.b == b,
            !r.a_done,
            !r.b_done,
            r.poll_a_first,
            r.out@ == Seq::<Poll<Option<T>>>::empty(),
    {
        Merge { a, b, a_done: false, b_done: false, poll_a_first: true, out: Ghost(Seq::empty()) }
    }
}

/// Was a stream asked unless it was done, and answered this? One that has come to its end is done.
pub open spec fn side_asked<W: Clone, S: Stream<W>>(before: S, done: bool, after: S, now_done: bool, p: Poll<Option<S::Item>>) -> bool {
    if done {
        after == before && now_done && p == Poll::Ready(None::<S::Item>)
    } else {
        after.answers() == before.answers().push(p) && now_done == (p == Poll::Ready(None::<S::Item>))
    }
}

/// What two streams came to of which the one was asked first: the other is asked only if the first
/// had no item.
pub open spec fn turn_taken<W: Clone, T, X: Stream<W, Item = T>, Y: Stream<W, Item = T>>(
    x: (X, bool),
    y: (Y, bool),
    x_after: (X, bool),
    y_after: (Y, bool),
    p: Poll<Option<T>>,
    q: Poll<Option<T>>,
    r: Poll<Option<T>>,
) -> bool {
    &&& side_asked::<W, X>(x.0, x.1, x_after.0, x_after.1, p)
    &&& if p is Ready && p->Ready_0 is Some {
        y_after == y && r == p
    } else {
        side_asked::<W, Y>(y.0, y.1, y_after.0, y_after.1, q) && r == merged(x_after.1, q)
    }
}

/// A stream unless it is done; whether it is now.
fn poll_side<W: Clone, S: Stream<W>>(s: &mut S, done: &mut bool, waker: W) -> (r: Poll<Option<S::Item>>)
    requires
        old(s).sound(),
    ensures
        final(s).sound(),
        side_asked::<W, S>(*old(s), *old(done), *final(s), *final(done), r),
{
    if *done {
        return Poll::Ready(None);
    }
    match s.poll_next(waker) {
        Poll::Ready(Some(x)) => Poll::Ready(Some(x)),
        Poll::Ready(None) => {
            *done = true;
            Poll::Ready(None)
        },
        Poll::Pending => Poll::Pending,
    }
}

impl<W: Clone, T, A: Stream<W, Item = T>, B: Stream<W, Item = T>> Stream<W> for Merge<A, B, T> {
    type Item = T;

    open spec fn sound(&self) -> bool {
        self.a.sound() && self.b.sound()
    }

    open spec fn answers(&self) -> Seq<Poll<Option<T>>> {
        self.out@
    }

    open spec fn hint(&self) -> (usize, Option<usize>) {
        (0, None)
    }

    /// An item comes from one of the two, and is gone from that one alone. The end has come when it
    /// has come for both. The next turn begins with the other one if the first gave an item.
    fn poll_next(&mut self, waker: W) -> (r: Poll<Option<T>>)
        ensures
            ({
                let a = (old(self).a, old(self).a_done);
                let b = (old(self).b, old(self).b_done);
                let a_after = (final(self).a, final(self).a_done);
                let b_after = (final(self).b, final(self).b_done);
                if old(self).poll_a_first {
                    exists|p: Poll<Option<T>>, q: Poll<Option<T>>|
                        {
                            &&& #[trigger] turn_taken::<W, T, A, B>(a, b, a_after, b_after, p, q, r)
                            &&& final(self).poll_a_first == !(p is Ready && p->Ready_0 is Some)
                        }
                } else {
                    exists|p: Poll<Option<T>>, q: Poll<Option<T>>|
                        {
                            &&& #[trigger] turn_taken::<W, T, B, A>(b, a, b_after, a_after, p, q, r)
                            &&& final(self).poll_a_first == (p is Ready && p->Ready_0 is Some)
                        }
                }
            }),
    {
        let a_first: bool = self.poll_a_first;
        let first = if a_first {
            poll_side(&mut self.a, &mut self.a_done, waker.clone())
        } else {
            poll_side(&mut self.b, &mut self.b_done, waker.clone())
        };
        let ghost p = first;
        if let Poll::Ready(Some(x)) = first {
            self.poll_a_first = !a_first;
            proof {
                self.out@ = self.out@.push(p);
                let a = (old(self).a, old(self).a_done);
                let b = (old(self).b, old(self).b_done);
                if a_first {
                    assert(turn_taken::<W, T, A, B>(a, b, (self.a, self.a_done), b, p, p, p));
                } else {
                    assert(turn_taken::<W, T, B, A>(b, a, (self.b, self.b_done), a, p, p, p));
                }
            }
            return Poll::Ready(Some(x));
        }
        let first_done: bool = if a_first {
            self.a_done
        } else {
            self.b_done
        };
        let second = if a_first {
            poll_side(&mut self.b, &mut self.b_done, waker)
        } else {
            poll_side(&mut self.a, &mut self.a_done, waker)
        };
        let ghost q = second;
        let r = merge_polled(first_done, second);
        proof {
            self.out@ = self.out@.push(r);
            let a = (old(self).a, old(self).a_done);
            let b = (old(self).b, old(self).b_done);
            let a_after = (self.a, self.a_done);
            let b_after = (self.b, self.b_done);
            if a_first {
                assert(turn_taken::<W, T, A, B>(a, b, a_after, b_after, p, q, r));
            } else {
                assert(turn_taken::<W, T, B, A>(b, a, b_after, a_after, p, q, r));
            }
        }
        r
    }

    fn size_hint(&self) -> (r: (usize, Option<usize>)) {
        (0, None)
    }
}

/// No item is lost where two streams are merged, and none is made up: an item that is given has come from
/// exactly one of the two, as the next that it gave; where none is given, none has come. The end has come
/// exactly if it has come for both.
pub proof fn merging_loses_no_item<W: Clone, T, X: Stream<W, Item = T>, Y: Stream<W, Item = T>>(
    x: (X, bool),
    y: (Y, bool),
    x_after: (X, bool),
    y_after: (Y, bool),
    p: Poll<Option<T>>,
    q: Poll<Option<T>>,
    r: Poll<Option<T>>,
)
    requires
        turn_taken::<W, T, X, Y>(x, y, x_after, y_after, p, q, r),
    ensures
        ({
            let xs = stream::items_of(x.0.answers());
            let ys = stream::items_of(y.0.answers());
            let xs_after = stream::items_of(x_after.0.answers());
            let ys_after = stream::items_of(y_after.0.answers());
            match r {
                Poll::Ready(Some(v)) => (xs_after == xs.push(v) && ys_after == ys) || (xs_after == xs && ys_after == ys.push(v)),
                _ => xs_after == xs && ys_after == ys,
            }
        }),
        r == Poll::Ready(None::<T>) <==> x_after.1 && y_after.1 && !(r is Ready && r->Ready_0 is Some),
        x.1 ==> x_after == x,
        y.1 ==> y_after == y,
        p is Ready && p->Ready_0 is Some ==> r == p && y_after == y,
{
    if !x.1 {
        assert(x_after.0.answers().drop_last() =~= x.0.answers());
    }
    if !y.1 && !(p is Ready && p->Ready_0 is Some) {
        assert(y_after.0.answers().drop_last() =~= y.0.answers());
    }
}

} // verus!
