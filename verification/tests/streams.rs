//! Streams, what is made of them, and what they come to.

use tau::stream::combinators::{map_polled, merge_polled};
use tau::stream::consumers::{Collect, Fold, ForEach, Next};
use tau::stream::future::{ready, Future};
use tau::stream::{Stream, StreamExt};
use tau::tokio::poll::Poll;

/// Gives the items of a vector.
struct VecStream<T> {
    items: std::collections::VecDeque<T>,
}

impl<T> VecStream<T> {
    fn new(items: Vec<T>) -> Self {
        Self { items: items.into() }
    }
}

impl<T> Stream<u64> for VecStream<T> {
    type Item = T;

    fn poll_next(&mut self, _waker: u64) -> Poll<Option<T>> {
        Poll::Ready(self.items.pop_front())
    }

    fn size_hint(&self) -> (usize, Option<usize>) {
        (self.items.len(), Some(self.items.len()))
    }
}

/// All items of a stream that never has to wait.
fn collect_sync<S: Stream<u64>>(mut stream: S) -> Vec<S::Item> {
    let mut items = Vec::new();
    loop {
        match stream.poll_next(0) {
            Poll::Ready(Some(item)) => items.push(item),
            Poll::Ready(None) => break,
            Poll::Pending => panic!("unexpected Pending in collect_sync"),
        }
    }
    items
}

/// Something that comes to a value.
trait Once {
    type Output;

    fn run(self) -> Poll<Self::Output>;
}

impl<S: Stream<u64>> Once for Next<'_, S> {
    type Output = Option<S::Item>;

    fn run(mut self) -> Poll<Self::Output> {
        self.poll(0)
    }
}

impl<S: Stream<u64>> Once for Collect<S, S::Item> {
    type Output = Vec<S::Item>;

    fn run(mut self) -> Poll<Self::Output> {
        self.poll(0)
    }
}

impl<S: Stream<u64>, F: FnMut(S::Item)> Once for ForEach<S, F> {
    type Output = ();

    fn run(mut self) -> Poll<()> {
        self.poll(0)
    }
}

impl<S: Stream<u64>, B, F: FnMut(B, S::Item) -> B> Once for Fold<S, B, F> {
    type Output = B;

    fn run(mut self) -> Poll<B> {
        self.poll(0)
    }
}

fn poll_once<F: Once>(fut: F) -> F::Output {
    match fut.run() {
        Poll::Ready(val) => val,
        Poll::Pending => panic!("unexpected Pending in poll_once"),
    }
}

// ===========================================================================
// map
// ===========================================================================

#[test]
fn map_transform_items() {
    let stream = VecStream::new(vec![1, 2, 3, 4, 5]);
    let mapped = stream.map(|x| x * 10);
    assert_eq!(collect_sync(mapped), vec![10, 20, 30, 40, 50]);
}

#[test]
fn map_type_change() {
    let stream = VecStream::new(vec![1, 2, 3]);
    let mapped = stream.map(|x| format!("item_{}", x));
    assert_eq!(
        collect_sync(mapped),
        vec!["item_1", "item_2", "item_3"]
    );
}

#[test]
fn map_empty_stream() {
    let stream = VecStream::<i32>::new(vec![]);
    let mapped = stream.map(|x| x * 2);
    assert_eq!(collect_sync(mapped), Vec::<i32>::new());
}

// ===========================================================================
// filter
// ===========================================================================

#[test]
fn filter_keeps_matching() {
    let stream = VecStream::new(vec![1, 2, 3, 4, 5, 6]);
    let filtered = stream.filter(|x| x % 2 == 0);
    assert_eq!(collect_sync(filtered), vec![2, 4, 6]);
}

#[test]
fn filter_drops_all() {
    let stream = VecStream::new(vec![1, 3, 5]);
    let filtered = stream.filter(|_| false);
    assert_eq!(collect_sync(filtered), Vec::<i32>::new());
}

#[test]
fn filter_keeps_all() {
    let stream = VecStream::new(vec![1, 2, 3]);
    let filtered = stream.filter(|_| true);
    assert_eq!(collect_sync(filtered), vec![1, 2, 3]);
}

#[test]
fn filter_empty_stream() {
    let stream = VecStream::<i32>::new(vec![]);
    let filtered = stream.filter(|_| true);
    assert_eq!(collect_sync(filtered), Vec::<i32>::new());
}

// ===========================================================================
// filter_map
// ===========================================================================

#[test]
fn filter_map_combined() {
    let stream = VecStream::new(vec![1, 2, 3, 4, 5]);
    let fm = stream.filter_map(|x| {
        if x % 2 == 0 {
            Some(x * 100)
        } else {
            None
        }
    });
    assert_eq!(collect_sync(fm), vec![200, 400]);
}

#[test]
fn filter_map_all_some() {
    let stream = VecStream::new(vec![1, 2, 3]);
    let fm = stream.filter_map(|x| Some(x + 1));
    assert_eq!(collect_sync(fm), vec![2, 3, 4]);
}

#[test]
fn filter_map_all_none() {
    let stream = VecStream::new(vec![1, 2, 3]);
    let fm = stream.filter_map(|_: i32| -> Option<i32> { None });
    assert_eq!(collect_sync(fm), Vec::<i32>::new());
}

#[test]
fn filter_map_empty_stream() {
    let stream = VecStream::<i32>::new(vec![]);
    let fm = stream.filter_map(|x| Some(x));
    assert_eq!(collect_sync(fm), Vec::<i32>::new());
}

// ===========================================================================
// take_while
// ===========================================================================

#[test]
fn take_while_early_termination() {
    let stream = VecStream::new(vec![1, 2, 3, 4, 5]);
    let tw = stream.take_while(|x| *x < 4);
    assert_eq!(collect_sync(tw), vec![1, 2, 3]);
}

#[test]
fn take_while_all_pass() {
    let stream = VecStream::new(vec![1, 2, 3]);
    let tw = stream.take_while(|_| true);
    assert_eq!(collect_sync(tw), vec![1, 2, 3]);
}

#[test]
fn take_while_none_pass() {
    let stream = VecStream::new(vec![1, 2, 3]);
    let tw = stream.take_while(|_| false);
    assert_eq!(collect_sync(tw), Vec::<i32>::new());
}

#[test]
fn take_while_first_item_fails() {
    let stream = VecStream::new(vec![10, 1, 2]);
    let tw = stream.take_while(|x| *x < 5);
    assert_eq!(collect_sync(tw), Vec::<i32>::new());
}

#[test]
fn take_while_empty_stream() {
    let stream = VecStream::<i32>::new(vec![]);
    let tw = stream.take_while(|_| true);
    assert_eq!(collect_sync(tw), Vec::<i32>::new());
}

// ===========================================================================
// then (async transform)
// ===========================================================================

#[test]
fn then_sync_future() {
    // Use immediately-ready futures (std::future::ready)
    let stream = VecStream::new(vec![1, 2, 3]);
    let then_stream = stream.then_each(|x| ready(x * 10));
    assert_eq!(collect_sync(then_stream), vec![10, 20, 30]);
}

#[test]
fn then_type_change() {
    let stream = VecStream::new(vec![1, 2, 3]);
    let then_stream = stream.then_each(|x| ready(format!("v{}", x)));
    assert_eq!(
        collect_sync(then_stream),
        vec!["v1", "v2", "v3"]
    );
}

#[test]
fn then_ordering_preserved() {
    // Even with async, ordering is sequential (one future at a time)
    let stream = VecStream::new(vec![3, 1, 2]);
    let then_stream = stream.then_each(|x| ready(x));
    assert_eq!(collect_sync(then_stream), vec![3, 1, 2]);
}

#[test]
fn then_empty_stream() {
    let stream = VecStream::<i32>::new(vec![]);
    let then_stream = stream.then_each(|x| ready(x));
    assert_eq!(collect_sync(then_stream), Vec::<i32>::new());
}

// ===========================================================================
// next
// ===========================================================================

#[test]
fn next_consume_one_item() {
    let mut stream = VecStream::new(vec![10, 20, 30]);
    let first = poll_once(stream.next());
    assert_eq!(first, Some(10));
    let second = poll_once(stream.next());
    assert_eq!(second, Some(20));
    let third = poll_once(stream.next());
    assert_eq!(third, Some(30));
    let done = poll_once(stream.next());
    assert_eq!(done, None);
}

#[test]
fn next_empty_stream() {
    let mut stream = VecStream::<i32>::new(vec![]);
    let result = poll_once(stream.next());
    assert_eq!(result, None);
}

// ===========================================================================
// collect
// ===========================================================================

#[test]
fn collect_into_vec() {
    let stream = VecStream::new(vec![1, 2, 3, 4]);
    let collected: Vec<i32> = poll_once(stream.collect());
    assert_eq!(collected, vec![1, 2, 3, 4]);
}

#[test]
fn collect_empty() {
    let stream = VecStream::<i32>::new(vec![]);
    let collected: Vec<i32> = poll_once(stream.collect());
    assert!(collected.is_empty());
}

// ===========================================================================
// for_each
// ===========================================================================

#[test]
fn for_each_visits_all() {
    let stream = VecStream::new(vec![1, 2, 3]);
    let mut seen = Vec::new();
    poll_once(stream.for_each(|x| seen.push(x)));
    assert_eq!(seen, vec![1, 2, 3]);
}

#[test]
fn for_each_empty_stream() {
    let stream = VecStream::<i32>::new(vec![]);
    let mut count = 0;
    poll_once(stream.for_each(|_| count += 1));
    assert_eq!(count, 0);
}

// ===========================================================================
// fold
// ===========================================================================

#[test]
fn fold_sum() {
    let stream = VecStream::new(vec![1, 2, 3, 4]);
    let sum: i32 = poll_once(stream.fold(0, |acc, x| acc + x));
    assert_eq!(sum, 10);
}

#[test]
fn fold_product() {
    let stream = VecStream::new(vec![1, 2, 3, 4]);
    let product: i32 = poll_once(stream.fold(1, |acc, x| acc * x));
    assert_eq!(product, 24);
}

#[test]
fn fold_empty_returns_init() {
    let stream = VecStream::<i32>::new(vec![]);
    let result: i32 = poll_once(stream.fold(42, |acc, x| acc + x));
    assert_eq!(result, 42);
}

#[test]
fn fold_build_string() {
    let stream = VecStream::new(vec!["a", "b", "c"]);
    let result: String = poll_once(stream.fold(String::new(), |mut acc, x| {
        acc.push_str(x);
        acc
    }));
    assert_eq!(result, "abc");
}

// ===========================================================================
// merge
// ===========================================================================

#[test]
fn merge_two_producers_all_items_received() {
    let a = VecStream::new(vec![1, 3, 5]);
    let b = VecStream::new(vec![2, 4, 6]);
    let items = collect_sync(a.merge(b));
    assert_eq!(items.len(), 6);
    let mut sorted = items.clone();
    sorted.sort();
    assert_eq!(sorted, vec![1, 2, 3, 4, 5, 6]);
}

#[test]
fn merge_one_empty() {
    let a = VecStream::new(vec![10, 20]);
    let b = VecStream::<i32>::new(vec![]);
    let items = collect_sync(a.merge(b));
    assert_eq!(items, vec![10, 20]);
}

#[test]
fn merge_both_empty() {
    let a = VecStream::<i32>::new(vec![]);
    let b = VecStream::<i32>::new(vec![]);
    let items = collect_sync(a.merge(b));
    assert!(items.is_empty());
}

#[test]
fn merge_fairness() {
    // With both streams always ready, items should alternate
    let a = VecStream::new(vec![1, 1, 1]);
    let b = VecStream::new(vec![2, 2, 2]);
    let items = collect_sync(a.merge(b));
    // poll_a_first starts true: a,b,a,b,a,b
    assert_eq!(items, vec![1, 2, 1, 2, 1, 2]);
}

// ===========================================================================
// Combinator chaining
// ===========================================================================

#[test]
fn chain_map_filter_collect() {
    let stream = VecStream::new(vec![1, 2, 3, 4, 5, 6, 7, 8, 9, 10]);
    let result: Vec<i32> = poll_once(
        stream
            .map(|x| x * 2)
            .filter(|x| *x > 10)
            .collect(),
    );
    assert_eq!(result, vec![12, 14, 16, 18, 20]);
}

#[test]
fn chain_filter_map_then_fold() {
    let stream = VecStream::new(vec![1, 2, 3, 4, 5]);
    let result: i32 = poll_once(
        stream
            .filter_map(|x| if x % 2 == 1 { Some(x) } else { None })
            .then_each(|x| ready(x * 10))
            .fold(0, |acc, x| acc + x),
    );
    // Odd numbers: 1,3,5 → *10 → 10,30,50 → sum = 90
    assert_eq!(result, 90);
}

#[test]
fn chain_take_while_map_collect() {
    let stream = VecStream::new(vec![1, 2, 3, 10, 4, 5]);
    let result: Vec<String> = poll_once(
        stream
            .take_while(|x| *x < 10)
            .map(|x| format!("#{}", x))
            .collect(),
    );
    assert_eq!(result, vec!["#1", "#2", "#3"]);
}

#[test]
fn chain_merge_filter_collect() {
    let a = VecStream::new(vec![1, 2, 3]);
    let b = VecStream::new(vec![4, 5, 6]);
    let result: Vec<i32> = poll_once(
        a.merge(b)
            .filter(|x| *x > 3)
            .collect(),
    );
    let mut sorted = result.clone();
    sorted.sort();
    assert_eq!(sorted, vec![4, 5, 6]);
}

// ===========================================================================
// waiting
// ===========================================================================

/// Has to wait between any two items.
struct Halting {
    items: Vec<u32>,
    wait: bool,
}

impl Stream<u64> for Halting {
    type Item = u32;

    fn poll_next(&mut self, _waker: u64) -> Poll<Option<u32>> {
        self.wait = !self.wait;
        if self.wait {
            Poll::Pending
        } else if self.items.is_empty() {
            Poll::Ready(None)
        } else {
            Poll::Ready(Some(self.items.remove(0)))
        }
    }

    fn size_hint(&self) -> (usize, Option<usize>) {
        (self.items.len(), None)
    }
}

fn halting(items: Vec<u32>) -> Halting {
    Halting { items, wait: false }
}

#[test]
fn collecting_goes_on_where_it_had_to_wait() {
    let mut c = halting(vec![1, 2]).collect();
    assert_eq!(c.poll(0), Poll::Pending);
    assert_eq!(c.poll(0), Poll::Pending);
    assert_eq!(c.collection, vec![1]);
    assert_eq!(c.poll(0), Poll::Pending);
    assert_eq!(c.poll(0), Poll::Ready(vec![1, 2]));
    assert!(c.collection.is_empty());
}

#[test]
fn folding_keeps_what_it_has() {
    let mut f = halting(vec![5, 6]).fold(10, |a, x| a + x);
    assert_eq!(f.poll(0), Poll::Pending);
    assert_eq!(f.poll(0), Poll::Pending);
    assert_eq!(f.acc, Some(15));
    assert_eq!(f.poll(0), Poll::Pending);
    assert_eq!(f.poll(0), Poll::Ready(21));
    assert_eq!(f.acc, None);
}

#[test]
fn a_filter_waits_where_its_stream_does() {
    let mut f = halting(vec![1, 2]).filter(|x| *x == 2);
    assert_eq!(f.poll_next(0), Poll::Pending);
    assert_eq!(f.poll_next(0), Poll::Pending);
    assert_eq!(f.poll_next(0), Poll::Ready(Some(2)));
}

#[test]
fn a_merge_takes_from_the_side_that_has_something() {
    let mut m = halting(vec![1]).merge(VecStream::new(vec![7, 8]));
    assert_eq!(m.poll_next(0), Poll::Ready(Some(7)));
    assert_eq!(m.poll_next(0), Poll::Ready(Some(1)));
    assert_eq!(m.poll_next(0), Poll::Ready(Some(8)));
    assert_eq!(m.poll_next(0), Poll::Pending);
    assert_eq!(m.poll_next(0), Poll::Ready(None));
}

#[test]
fn nothing_is_asked_of_a_stream_that_was_cut_off() {
    let mut t = VecStream::new(vec![1, 9, 2]).take_while(|x| *x < 5);
    assert_eq!(t.poll_next(0), Poll::Ready(Some(1)));
    assert_eq!(t.poll_next(0), Poll::Ready(None));
    assert_eq!(t.poll_next(0), Poll::Ready(None));
    assert_eq!(t.stream.items.len(), 1);
    assert!(t.done);
}

#[test]
fn hints_say_how_much_is_left() {
    let s = VecStream::new(vec![1, 2, 3]);
    assert_eq!(s.size_hint(), (3, Some(3)));
    assert_eq!(s.map(|x| x + 1).size_hint(), (3, Some(3)));
    assert_eq!(VecStream::new(vec![1, 2]).filter(|_| true).size_hint(), (0, Some(2)));
    assert_eq!(VecStream::new(vec![1, 2]).filter_map(|x| Some(x)).size_hint(), (0, Some(2)));
    let mut t = VecStream::new(vec![1, 2]).take_while(|_| false);
    assert_eq!(t.size_hint(), (0, Some(2)));
    assert_eq!(t.poll_next(0), Poll::Ready(None));
    assert_eq!(t.size_hint(), (0, Some(0)));
    assert_eq!(VecStream::new(vec![1]).merge(VecStream::new(vec![2])).size_hint(), (0, None));
}

#[test]
fn what_a_poll_came_to_is_mapped() {
    let mut f = |x: u32| x + 1;
    assert_eq!(map_polled(&mut f, Poll::Ready(Some(1))), Poll::Ready(Some(2)));
    assert_eq!(map_polled(&mut f, Poll::Ready(None)), Poll::Ready(None));
    assert_eq!(map_polled(&mut f, Poll::Pending), Poll::Pending);
}

#[test]
fn two_streams_end_when_both_do() {
    assert_eq!(merge_polled::<u8>(true, Poll::Ready(None)), Poll::Ready(None));
    assert_eq!(merge_polled::<u8>(false, Poll::Ready(None)), Poll::Pending);
    assert_eq!(merge_polled(true, Poll::<Option<u8>>::Pending), Poll::Pending);
    assert_eq!(merge_polled(false, Poll::Ready(Some(3u8))), Poll::Ready(Some(3)));
}

#[test]
fn a_value_that_is_there_is_ready() {
    let mut r = ready(5u8);
    assert_eq!(Future::<u64>::poll(&mut r, 0), Poll::Ready(5));
}

/// Gives numbers without end, to whoever asks with whatever waker.
struct Numbers {
    next: u64,
}

impl Stream<String> for Numbers {
    type Item = u64;

    fn poll_next(&mut self, _waker: String) -> Poll<Option<u64>> {
        self.next += 1;
        Poll::Ready(Some(self.next))
    }

    fn size_hint(&self) -> (usize, Option<usize>) {
        (usize::MAX, None)
    }
}

#[test]
fn a_filter_goes_on_until_something_is_kept() {
    let mut f = Numbers { next: 0 }.filter(|x| *x % 100_000 == 0);
    assert_eq!(f.poll_next("w".to_string()), Poll::Ready(Some(100_000)));
    assert_eq!(f.poll_next("w".to_string()), Poll::Ready(Some(200_000)));
}
