//! Values that come one after the other, and may have to be waited for.

use vstd::prelude::*;
use crate::stream::combinators::{Filter, FilterMap, MapStream, Merge, TakeWhile, ThenEach};
use crate::stream::consumers::{Collect, Fold, ForEach, Next};
use crate::stream::future::Future;
use crate::tokio::poll::Poll;

pub mod channel;
pub mod combinators;
pub mod consumers;
pub mod count;
pub mod future;

verus! {

/// Gives items one after the other. `W` is what is woken when there may be another.
pub trait Stream<W: Clone> {
    type Item;

    /// Is the stream in order?
    open spec fn sound(&self) -> bool {
        true
    }

    /// What it has answered, each time that it was asked: every implementation says what.
    open spec fn answers(&self) -> Seq<Poll<Option<Self::Item>>> {
        Seq::empty()
    }

    /// How many items are left: at least so many, and at most so many if that is known.
    open spec fn hint(&self) -> (usize, Option<usize>) {
        (0, None)
    }

    /// The next item; none at the end.
    fn poll_next(&mut self, waker: W) -> (r: Poll<Option<Self::Item>>)
        requires
            old(self).sound(),
        ensures
            final(self).sound(),
            final(self).answers() == old(self).answers().push(r),
    ;

    fn size_hint(&self) -> (r: (usize, Option<usize>))
        requires
            self.sound(),
        ensures
            r == self.hint(),
    ;
}

/// The answers of a stream that gave these items.
pub open spec fn gave<T>(items: Seq<T>) -> Seq<Poll<Option<T>>> {
    Seq::new(items.len(), |i: int| Poll::Ready(Some(items[i])))
}

/// The items among the answers of a stream.
pub open spec fn items_of<T>(answers: Seq<Poll<Option<T>>>) -> Seq<T>
    decreases answers.len(),
{
    if answers.len() == 0 {
        Seq::empty()
    } else {
        match answers.last() {
            Poll::Ready(Some(x)) => items_of(answers.drop_last()).push(x),
            _ => items_of(answers.drop_last()),
        }
    }
}

/// Was a stream asked until it gave these items, and then answered this?
pub open spec fn asked<T>(
    before: Seq<Poll<Option<T>>>,
    after: Seq<Poll<Option<T>>>,
    items: Seq<T>,
    end: Poll<Option<T>>,
) -> bool {
    after == (before + gave(items)).push(end)
}

/// Asking for one item more.
pub proof fn lemma_one_more<T>(before: Seq<Poll<Option<T>>>, items: Seq<T>, x: T)
    ensures
        before + gave(items.push(x)) == (before + gave(items)).push(Poll::Ready(Some(x))),
{
    assert(before + gave(items.push(x)) =~= (before + gave(items)).push(Poll::Ready(Some(x))));
}

/// Nothing has been asked for yet.
pub proof fn lemma_none_yet<T>(before: Seq<Poll<Option<T>>>)
    ensures
        before + gave(Seq::<T>::empty()) == before,
{
    assert(before + gave(Seq::<T>::empty()) =~= before);
}

/// Items that a stream gives one after the other come behind those that it gave before.
proof fn lemma_items_of_gave<T>(before: Seq<Poll<Option<T>>>, items: Seq<T>)
    ensures
        items_of(before + gave(items)) == items_of(before) + items,
    decreases items.len(),
{
    if items.len() == 0 {
        assert(before + gave(items) =~= before);
        assert(items_of(before) + items =~= items_of(before));
    } else {
        lemma_items_of_gave(before, items.drop_last());
        let all = before + gave(items);
        assert(all.drop_last() =~= before + gave(items.drop_last()));
        assert(all.last() == Poll::Ready(Some(items.last())));
        assert(items_of(before) + items =~= (items_of(before) + items.drop_last()).push(items.last()));
    }
}

/// Whoever keeps the items of a stream as they come, over as many turns as it takes, has all of
/// them in order: if those so far were all, then so are they with the ones of this turn.
pub proof fn no_item_is_lost<T>(
    kept: Seq<T>,
    before: Seq<Poll<Option<T>>>,
    after: Seq<Poll<Option<T>>>,
    taken: Seq<T>,
    end: Poll<Option<T>>,
)
    requires
        kept == items_of(before),
        asked(before, after, taken, end),
        !(end is Ready && end->Ready_0 is Some),
    ensures
        kept + taken == items_of(after),
{
    lemma_items_of_gave(before, taken);
    assert(after.drop_last() =~= before + gave(taken));
}

/// Can every function of this type be called, with whatever item comes?
///
/// A function that is called again and again may change with each call, and what it is afterwards
/// nothing tells: all that is known of it then is its type. So whoever calls one more than once asks
/// this of the type; for a single call, that it can be made is enough.
pub open spec fn callable<T, B, F: FnMut(T) -> B>() -> bool {
    forall|g: F, x: T| #[trigger] call_requires(g, (x,))
}

/// Can every predicate of this type be called, with whatever item comes? It is asked of the type for
/// the reason that `callable` is.
pub open spec fn testable<T, F: FnMut(&T) -> bool>() -> bool {
    forall|g: F, x: &T| #[trigger] call_requires(g, (x,))
}

/// Can every folding function of this type be called? It is asked of the type for the reason that
/// `callable` is.
pub open spec fn foldable<T, B, F: FnMut(B, T) -> B>() -> bool {
    forall|g: F, b: B, x: T| #[trigger] call_requires(g, (b, x))
}

/// What can be made of a stream.
pub trait StreamExt<W: Clone>: Stream<W> + Sized {
    /// A function of each item.
    fn map<F, B>(self, f: F) -> (r: MapStream<Self, F, B>) where F: FnMut(Self::Item) -> B
        ensures
            r.stream == self,
            r.f == f,
            r.out@ == Seq::<Poll<Option<B>>>::empty(),
    {
        MapStream::new(self, f)
    }

    /// The items of which the predicate holds.
    fn filter<F>(self, f: F) -> (r: Filter<Self, F, Self::Item>) where F: FnMut(&Self::Item) -> bool
        ensures
            r.stream == self,
            r.f == f,
            r.out@ == Seq::<Poll<Option<Self::Item>>>::empty(),
    {
        Filter::new(self, f)
    }

    /// What the function gives for each item, where it gives something.
    fn filter_map<F, B>(self, f: F) -> (r: FilterMap<Self, F, B>) where F: FnMut(Self::Item) -> Option<B>
        ensures
            r.stream == self,
            r.f == f,
            r.out@ == Seq::<Poll<Option<B>>>::empty(),
    {
        FilterMap::new(self, f)
    }

    /// The items up to the first of which the predicate does not hold.
    fn take_while<F>(self, f: F) -> (r: TakeWhile<Self, F, Self::Item>) where F: FnMut(&Self::Item) -> bool
        ensures
            r.stream == self,
            r.f == f,
            r.out@ == Seq::<Poll<Option<Self::Item>>>::empty(),
            !r.done,
    {
        TakeWhile::new(self, f)
    }

    /// What the future comes to that the function makes of each item, one after the other.
    fn then_each<F, Fut>(self, f: F) -> (r: ThenEach<Self, F, Fut, Fut::Output>) where F: FnMut(Self::Item) -> Fut, Fut: Future<W>
        ensures
            r.stream == self,
            r.f == f,
            r.out@ == Seq::<Poll<Option<Fut::Output>>>::empty(),
            r.waiting is None,
    {
        ThenEach::new(self, f)
    }

    /// The items of both streams, in turn as long as both have some.
    fn merge<S: Stream<W, Item = Self::Item>>(self, other: S) -> (r: Merge<Self, S, Self::Item>)
        ensures
            r.a == self,
            r.b == other,
            r.out@ == Seq::<Poll<Option<Self::Item>>>::empty(),
            !r.a_done,
            !r.b_done,
            r.poll_a_first,
    {
        Merge::new(self, other)
    }

    /// The next item.
    fn next<'a>(&'a mut self) -> (r: Next<'a, Self>)
        ensures
            *r.stream == *old(self),
            *final(self) == *final(r.stream),
    {
        Next { stream: self }
    }

    /// All items.
    fn collect(self) -> (r: Collect<Self, Self::Item>)
        ensures
            r.stream == self,
            r.collection@.len() == 0,
    {
        Collect { stream: self, collection: Vec::new() }
    }

    /// Calls a function with each item.
    fn for_each<F>(self, f: F) -> (r: ForEach<Self, F>) where F: FnMut(Self::Item)
        ensures
            r.stream == self,
            r.f == f,
    {
        ForEach { stream: self, f }
    }

    /// Makes one value of all items.
    fn fold<B, F>(self, init: B, f: F) -> (r: Fold<Self, B, F>) where F: FnMut(B, Self::Item) -> B
        ensures
            r.stream == self,
            r.acc == Some(init),
            r.f == f,
    {
        Fold { stream: self, acc: Some(init), f }
    }
}

impl<W: Clone, S: Stream<W>> StreamExt<W> for S {

}

} // verus!
