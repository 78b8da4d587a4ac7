//! What a stream comes to as a whole.

use vstd::prelude::*;
use crate::stream;
use crate::stream::count::Count;
use crate::stream::Stream;
use crate::tokio::poll::Poll;

verus! {

/// The next item.
pub struct Next<'a, St> {
    pub stream: &'a mut St,
}

impl<'a, St> Next<'a, St> {
    pub fn poll<W: Clone>(&mut self, waker: W) -> (r: Poll<Option<St::Item>>) where St: Stream<W>
        requires
            old(self).stream.sound(),
        ensures
            final(self).stream.sound(),
            *final(final(self).stream) == *final(old(self).stream),
            final(self).stream.answers() == old(self).stream.answers().push(r),
    {
        self.stream.poll_next(waker)
    }
}

/// All items.
pub struct Collect<St, T> {
    pub stream: St,
    pub collection: Vec<T>,
}

impl<St, T> Collect<St, T> {
    /// Takes items until the stream has none or has to wait; at its end they are all there, in
    /// order.
    pub fn poll<W: Clone>(&mut self, waker: W) -> (r: Poll<Vec<T>>) where St: Stream<W, Item = T>
        requires
            old(self).stream.sound(),
        ensures
            final(self).stream.sound(),
            exists|taken: Seq<T>, end: Poll<Option<T>>|
                {
                    &&& final(self).stream.answers() == #[trigger] (old(self).stream.answers() + stream::gave(taken)).push(end)
                    &&& match r {
                        Poll::Ready(v) => {
                            &&& end == Poll::Ready(None::<T>)
                            &&& v@ == old(self).collection@ + taken
                            &&& final(self).collection@.len() == 0
                        },
                        Poll::Pending => end is Pending && final(self).collection@ == old(self).collection@ + taken,
                    }
                },
    {
        let ghost g0 = self.stream.answers();
        let ghost c0 = self.collection@;
        let ghost mut taken: Seq<T> = Seq::empty();
        proof {
            stream::lemma_none_yet(g0);
            assert(c0 + taken =~= c0);
        }
        loop
            invariant
                self.stream.sound(),
                g0 == old(self).stream.answers(),
                c0 == old(self).collection@,
                self.stream.answers() == g0 + stream::gave(taken),
                self.collection@ == c0 + taken,
            decreases usize::MAX - self.collection@.len(),
        {
            match self.stream.poll_next(waker.clone()) {
                Poll::Ready(Some(item)) => {
                    let ghost x = item;
                    self.collection.push(item);
                    proof {
                        stream::lemma_one_more(g0, taken, x);
                        assert((c0 + taken).push(x) =~= c0 + taken.push(x));
                        taken = taken.push(x);
                    }
                    let grown: usize = self.collection.len();
                },
                Poll::Ready(None) => {
                    let mut all: Vec<T> = Vec::new();
                    std::mem::swap(&mut all, &mut self.collection);
                    assert(self.stream.answers() == (g0 + stream::gave(taken)).push(Poll::Ready(None)));
                    return Poll::Ready(all);
                },
                Poll::Pending => {
                    assert(self.stream.answers() == (g0 + stream::gave(taken)).push(Poll::Pending));
                    return Poll::Pending;
                },
            }
        }
    }
}

/// Calls a function with each item.
pub struct ForEach<St, F> {
    pub stream: St,
    pub f: F,
}

/// Was the function, as it was before each of the items, called with them? The last of `fs` is the
/// function as it was after them.
pub open spec fn all_called<T, F: FnMut(T)>(fs: Seq<F>, items: Seq<T>) -> bool {
    &&& fs.len() == items.len() + 1
    &&& forall|i: int| 0 <= i < items.len() ==> call_ensures(#[trigger] fs[i], (items[i],), ())
}

impl<St, F> ForEach<St, F> {
    /// Calls the function with the items until the stream has none or has to wait.
    pub fn poll<W: Clone, T>(&mut self, waker: W) -> (r: Poll<()>) where St: Stream<W, Item = T>, F: FnMut(T)
        requires
            old(self).stream.sound(),
            stream::callable::<T, (), F>(),
        ensures
            final(self).stream.sound(),
            exists|fs: Seq<F>, taken: Seq<T>|
                {
                    let end = match r {
                        Poll::Ready(_) => Poll::Ready(None::<T>),
                        Poll::Pending => Poll::Pending,
                    };
                    &&& #[trigger] all_called::<T, F>(fs, taken)
                    &&& fs[0] == old(self).f
                    &&& fs.last() == final(self).f
                    &&& stream::asked(old(self).stream.answers(), final(self).stream.answers(), taken, end)
                },
    {
        let ghost g0 = self.stream.answers();
        let ghost mut fs: Seq<F> = seq![self.f];
        let ghost mut taken: Seq<T> = Seq::empty();
        proof {
            stream::lemma_none_yet(g0);
        }
        let mut asked = Count::new();
        loop
            invariant
                self.stream.sound(),
                stream::callable::<T, (), F>(),
                g0 == old(self).stream.answers(),
                fs[0] == old(self).f,
                fs.last() == self.f,
                all_called::<T, F>(fs, taken),
                self.stream.answers() == g0 + stream::gave(taken),
            decreases asked.room(), asked.rest(),
        {
            match self.stream.poll_next(waker.clone()) {
                Poll::Ready(Some(item)) => {
                    let ghost x = item;
                    (self.f)(item);
                    proof {
                        stream::lemma_one_more(g0, taken, x);
                        taken = taken.push(x);
                        fs = fs.push(self.f);
                    }
                },
                Poll::Ready(None) => {
                    return Poll::Ready(());
                },
                Poll::Pending => {
                    return Poll::Pending;
                },
            }
            asked.step();
        }
    }
}

/// Makes one value of all items.
pub struct Fold<St, B, F> {
    pub stream: St,
    pub acc: Option<B>,
    pub f: F,
}

/// Did the function, as it was before each of the items, make each value of the one before and the
/// item? The last of `fs` is the function as it was after them, the last of `accs` what came of
/// them.
pub open spec fn all_folded<T, B, F: FnMut(B, T) -> B>(fs: Seq<F>, accs: Seq<B>, items: Seq<T>) -> bool {
    &&& fs.len() == items.len() + 1
    &&& accs.len() == items.len() + 1
    &&& forall|i: int| 0 <= i < items.len() ==> call_ensures(#[trigger] fs[i], (accs[i], items[i]), accs[i + 1])
}

impl<St, B, F> Fold<St, B, F> {
    /// Takes items until the stream has none or has to wait; at its end, the value that all of
    /// them make.
    pub fn poll<W: Clone, T>(&mut self, waker: W) -> (r: Poll<B>) where St: Stream<W, Item = T>, F: FnMut(B, T) -> B
        requires
            old(self).stream.sound(),
            old(self).acc is Some,
            stream::foldable::<T, B, F>(),
        ensures
            final(self).stream.sound(),
            exists|fs: Seq<F>, accs: Seq<B>, taken: Seq<T>|
                {
                    let end = match r {
                        Poll::Ready(_) => Poll::Ready(None::<T>),
                        Poll::Pending => Poll::Pending,
                    };
                    &&& #[trigger] all_folded::<T, B, F>(fs, accs, taken)
                    &&& fs[0] == old(self).f
                    &&& fs.last() == final(self).f
                    &&& accs[0] == old(self).acc->0
                    &&& stream::asked(old(self).stream.answers(), final(self).stream.answers(), taken, end)
                    &&& match r {
                        Poll::Ready(b) => b == accs.last() && final(self).acc is None,
                        Poll::Pending => final(self).acc == Some(accs.last()),
                    }
                },
    {
        let ghost g0 = self.stream.answers();
        let ghost mut fs: Seq<F> = seq![self.f];
        let ghost mut accs: Seq<B> = seq![self.acc->0];
        let ghost mut taken: Seq<T> = Seq::empty();
        proof {
            stream::lemma_none_yet(g0);
        }
        let mut asked = Count::new();
        loop
            invariant
                self.stream.sound(),
                stream::foldable::<T, B, F>(),
                g0 == old(self).stream.answers(),
                fs[0] == old(self).f,
                fs.last() == self.f,
                accs[0] == old(self).acc->0,
                self.acc == Some(accs.last()),
                all_folded::<T, B, F>(fs, accs, taken),
                self.stream.answers() == g0 + stream::gave(taken),
            decreases asked.room(), asked.rest(),
        {
            match self.stream.poll_next(waker.clone()) {
                Poll::Ready(Some(item)) => {
                    let ghost x = item;
                    match self.acc.take() {
                        Some(acc) => {
                            let next = (self.f)(acc, item);
                            proof {
                                stream::lemma_one_more(g0, taken, x);
                                taken = taken.push(x);
                                fs = fs.push(self.f);
                                accs = accs.push(next);
                            }
                            self.acc = Some(next);
                        },
                        None => {},
                    }
                },
                Poll::Ready(None) => {
                    match self.acc.take() {
                        Some(acc) => {
                            return Poll::Ready(acc);
                        },
                        None => {
                            return Poll::Pending;
                        },
                    }
                },
                Poll::Pending => {
                    return Poll::Pending;
                },
            }
            asked.step();
        }
    }
}

} // verus!
