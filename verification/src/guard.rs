//! Values that keep the plugin they come from loaded.
//!
//! A guard stands for a loaded plugin; as long as one is there the plugin is not unloaded, and what
//! points into it stays valid. The last one to go unloads the plugin.

use std::sync::Arc;
use vstd::prelude::*;

verus! {

/// `Arc::strong_count`: how many there are that point to the same value, this one among them. How
/// many others there are, nothing says.
#[verifier::external_body]
fn strong_count(a: &Arc<PluginBinary>) -> (n: usize)
    ensures
        n >= 1,
{
    Arc::strong_count(a)
}

/// `Arc::into_inner`: the value, if this was the last that pointed to it. Whether it was, nothing
/// says: that depends on what else points to it.
#[verifier::external_body]
fn last_of(a: Arc<PluginBinary>) -> (r: Option<PluginBinary>)
    ensures
        r matches Some(b) ==> b == *a,
{
    Arc::into_inner(a)
}

/// A loaded plugin: the handle it was loaded under, and the address of the function that unloads
/// it. What belongs to the host has none.
pub struct PluginBinary {
    pub handle: u64,
    pub drop_fn: Option<u64>,
    pub plugin_id: u64,
}

impl PluginBinary {
    /// The call that unloads the plugin, for when nothing points to it any more: a function and its
    /// argument. Nothing is called for what belongs to the host.
    pub fn unload(&self) -> (r: Option<(u64, u64)>)
        ensures
            r == unloading(*self),
    {
        match self.drop_fn {
            Some(f) => Some((f, self.handle)),
            None => None,
        }
    }
}

/// The call that unloads a plugin, if it has one.
pub open spec fn unloading(b: PluginBinary) -> Option<(u64, u64)> {
    match b.drop_fn {
        Some(f) => Some((f, b.handle)),
        None => None,
    }
}

/// What is called when something that kept a plugin loaded has gone: if it was the last, the plugin
/// is handed over here, and is unloaded; if it was not, nothing is called.
pub fn after_release(last: Option<PluginBinary>) -> (r: Option<(u64, u64)>)
    ensures
        r == match last {
            Some(b) => unloading(b),
            None => None,
        },
{
    match last {
        Some(b) => b.unload(),
        None => None,
    }
}

/// Keeps a plugin loaded.
pub struct PluginGuard {
    pub inner: Arc<PluginBinary>,
}

/// What is told when a guard has gone: if it was the last, the call that unloads its plugin, if it
/// has one; else nothing.
pub open spec fn told(guard: PluginGuard, r: Option<(u64, u64)>) -> bool {
    r is None || r == unloading(*guard.inner)
}

/// Was the guard's own reference given up, and what is told made of what came of that? The last
/// reference hands the plugin over, and it is unloaded.
pub closed spec fn went(guard: PluginGuard, r: Option<(u64, u64)>) -> bool {
    exists|last: Option<PluginBinary>| #[trigger]
        call_ensures(last_of, (guard.inner,), last) && r == match last {
            Some(b) => unloading(b),
            None => None,
        }
}

/// Is this what there are of references to the guard's plugin, as they were counted?
pub closed spec fn references(guard: PluginGuard, n: usize) -> bool {
    call_ensures(strong_count, (&guard.inner,), n)
}

impl Clone for PluginGuard {
    fn clone(&self) -> (r: Self)
        ensures
            r == *self,
    {
        PluginGuard { inner: self.inner.clone() }
    }
}

/// Where a plugin keeps its own guard, once it has been initialized.
pub struct GuardSlot {
    pub guard: Option<PluginGuard>,
}

/// The plugin's own guard. It has to have been initialized.
pub fn plugin_guard(slot: &GuardSlot) -> (r: PluginGuard)
    requires
        slot.guard is Some,
    ensures
        Some(r) == slot.guard,
{
    match &slot.guard {
        Some(g) => g.clone(),
        None => PluginGuard::host(),
    }
}

impl PluginGuard {
    /// A guard of a plugin that was loaded under `handle`; `drop_fn` unloads it.
    pub fn new(handle: u64, drop_fn: u64, plugin_id: u64) -> (r: Self)
        ensures
            *r.inner == (PluginBinary { handle, drop_fn: Some(drop_fn), plugin_id }),
    {
        PluginGuard { inner: Arc::new(PluginBinary { handle, drop_fn: Some(drop_fn), plugin_id }) }
    }

    /// The plugin's own guard. It has to have been initialized.
    pub fn current(slot: &GuardSlot) -> (r: Self)
        requires
            slot.guard is Some,
        ensures
            Some(r) == slot.guard,
    {
        plugin_guard(slot)
    }

    /// The plugin's own guard, if it has been initialized.
    pub fn try_current(slot: &GuardSlot) -> (r: Option<Self>)
        ensures
            r == slot.guard,
    {
        match &slot.guard {
            Some(g) => Some(g.clone()),
            None => None,
        }
    }

    /// A guard for what belongs to the host; nothing is ever unloaded.
    pub fn host() -> (r: Self)
        ensures
            *r.inner == (PluginBinary { handle: 0, drop_fn: None, plugin_id: 0 }),
    {
        PluginGuard { inner: Arc::new(PluginBinary { handle: 0, drop_fn: None, plugin_id: 0 }) }
    }

    /// How many there are that keep the plugin loaded; this one does.
    pub fn ref_count(&self) -> (r: usize)
        ensures
            r >= 1,
            references(*self, r),
    {
        strong_count(&self.inner)
    }

    /// The guard goes. If it was the last, the call that unloads the plugin: a function and its
    /// argument.
    pub fn release(self) -> (r: Option<(u64, u64)>)
        ensures
            told(self, r),
            went(self, r),
    {
        after_release(last_of(self.inner))
    }

    pub fn plugin_id(&self) -> (r: u64)
        ensures
            r == self.inner.plugin_id,
    {
        self.inner.plugin_id
    }
}

// ---------------------------------------------------------------------------
// Functions
// ---------------------------------------------------------------------------

/// A function that keeps its plugin loaded.
pub struct PluginFn<F: Copy> {
    pub f: F,
    pub guard: PluginGuard,
}

impl<F: Copy> PluginFn<F> {
    pub fn new(f: F, guard: PluginGuard) -> (r: Self)
        ensures
            r.f == f,
            r.guard == guard,
    {
        PluginFn { f, guard }
    }

    /// The function itself, which is of use only while the plugin is loaded.
    pub fn as_ptr(&self) -> (r: F)
        ensures
            r == self.f,
    {
        self.f
    }

    /// Another guard of the same plugin.
    pub fn guard(&self) -> (r: PluginGuard)
        ensures
            r == self.guard,
    {
        self.guard.clone()
    }

    /// The function goes, and its guard. If that was the last, the call that unloads the plugin.
    pub fn release(self) -> (r: Option<(u64, u64)>)
        ensures
            told(self.guard, r),
            went(self.guard, r),
    {
        self.guard.release()
    }

    /// Calls the function with no arguments.
    pub fn call<R>(&self) -> (r: R) where F: Fn() -> R
        requires
            call_requires(self.f, ()),
        ensures
            call_ensures(self.f, (), r),
    {
        (self.f)()
    }

    /// Calls the function with one argument.
    pub fn call1<A, R>(&self, a: A) -> (r: R) where F: Fn(A) -> R
        requires
            call_requires(self.f, (a,)),
        ensures
            call_ensures(self.f, (a,), r),
    {
        (self.f)(a)
    }

    /// Calls the function with two arguments.
    pub fn call2<A, B, R>(&self, a: A, b: B) -> (r: R) where F: Fn(A, B) -> R
        requires
            call_requires(self.f, (a, b)),
        ensures
            call_ensures(self.f, (a, b), r),
    {
        (self.f)(a, b)
    }

    /// Calls the function with three arguments.
    pub fn call3<A, B, C, R>(&self, a: A, b: B, c: C) -> (r: R) where F: Fn(A, B, C) -> R
        requires
            call_requires(self.f, (a, b, c)),
        ensures
            call_ensures(self.f, (a, b, c), r),
    {
        (self.f)(a, b, c)
    }

    /// Calls the function with four arguments.
    pub fn call4<A, B, C, D, R>(&self, a: A, b: B, c: C, d: D) -> (r: R) where F: Fn(A, B, C, D) -> R
        requires
            call_requires(self.f, (a, b, c, d)),
        ensures
            call_ensures(self.f, (a, b, c, d), r),
    {
        (self.f)(a, b, c, d)
    }
}

impl<F: Copy> Clone for PluginFn<F> {
    fn clone(&self) -> (r: Self)
        ensures
            r == *self,
    {
        PluginFn { f: self.f, guard: self.guard.clone() }
    }
}

// ---------------------------------------------------------------------------
// Owned values
// ---------------------------------------------------------------------------

/// A value of its own that keeps its plugin loaded.
pub struct PluginBox<T: ?Sized> {
    pub inner: Box<T>,
    pub guard: PluginGuard,
}

impl<T> PluginBox<T> {
    /// A value of the plugin that has this slot.
    pub fn current(value: T, slot: &GuardSlot) -> (r: Self)
        requires
            slot.guard is Some,
        ensures
            *r.inner == value,
            Some(r.guard) == slot.guard,
    {
        PluginBox { inner: Box::new(value), guard: PluginGuard::current(slot) }
    }

    pub fn as_mut(&mut self) -> (r: &mut T)
        ensures
            *r == *old(self).inner,
            *final(self).inner == *final(r),
            final(self).guard == old(self).guard,
    {
        &mut *self.inner
    }

    /// Calls the function, which is gone then, with no arguments. The plugin stays loaded for the
    /// call; if nothing else keeps it loaded, the call that unloads it comes with the result.
    pub fn call_once<R>(self) -> (r: (R, Option<(u64, u64)>)) where T: FnOnce() -> R
        requires
            call_requires(*self.inner, ()),
        ensures
            call_ensures(*self.inner, (), r.0),
            told(self.guard, r.1),
            went(self.guard, r.1),
    {
        let PluginBox { inner, guard } = self;
        let f = *inner;
        let result = f();
        (result, guard.release())
    }

    /// Calls the function, which is gone then, with one argument.
    pub fn call_once1<A, R>(self, a: A) -> (r: (R, Option<(u64, u64)>)) where T: FnOnce(A) -> R
        requires
            call_requires(*self.inner, (a,)),
        ensures
            call_ensures(*self.inner, (a,), r.0),
            told(self.guard, r.1),
            went(self.guard, r.1),
    {
        let PluginBox { inner, guard } = self;
        let f = *inner;
        let result = f(a);
        (result, guard.release())
    }

    /// Calls the function, which is gone then, with two arguments.
    pub fn call_once2<A, B, R>(self, a: A, b: B) -> (r: (R, Option<(u64, u64)>)) where T: FnOnce(A, B) -> R
        requires
            call_requires(*self.inner, (a, b)),
        ensures
            call_ensures(*self.inner, (a, b), r.0),
            told(self.guard, r.1),
            went(self.guard, r.1),
    {
        let PluginBox { inner, guard } = self;
        let f = *inner;
        let result = f(a, b);
        (result, guard.release())
    }

    /// Calls the function, which is gone then, with three arguments.
    pub fn call_once3<A, B, C, R>(self, a: A, b: B, c: C) -> (r: (R, Option<(u64, u64)>)) where T: FnOnce(A, B, C) -> R
        requires
            call_requires(*self.inner, (a, b, c)),
        ensures
            call_ensures(*self.inner, (a, b, c), r.0),
            told(self.guard, r.1),
            went(self.guard, r.1),
    {
        let PluginBox { inner, guard } = self;
        let f = *inner;
        let result = f(a, b, c);
        (result, guard.release())
    }

    /// Calls the function, which is gone then, with four arguments.
    pub fn call_once4<A, B, C, D, R>(self, a: A, b: B, c: C, d: D) -> (r: (R, Option<(u64, u64)>)) where T: FnOnce(A, B, C, D) -> R
        requires
            call_requires(*self.inner, (a, b, c, d)),
        ensures
            call_ensures(*self.inner, (a, b, c, d), r.0),
            told(self.guard, r.1),
            went(self.guard, r.1),
    {
        let PluginBox { inner, guard } = self;
        let f = *inner;
        let result = f(a, b, c, d);
        (result, guard.release())
    }

    /// Calls the function, which may change, with no arguments.
    pub fn call_mut<R>(&mut self) -> (r: R) where T: FnMut() -> R
        requires
            call_requires(*old(self).inner, ()),
        ensures
            call_ensures(*old(self).inner, (), r),
            final(self).guard == old(self).guard,
    {
        let f = self.as_mut();
        f()
    }

    /// Calls the function, which may change, with one argument.
    pub fn call_mut1<A, R>(&mut self, a: A) -> (r: R) where T: FnMut(A) -> R
        requires
            call_requires(*old(self).inner, (a,)),
        ensures
            call_ensures(*old(self).inner, (a,), r),
            final(self).guard == old(self).guard,
    {
        let f = self.as_mut();
        f(a)
    }

    /// Calls the function, which may change, with two arguments.
    pub fn call_mut2<A, B, R>(&mut self, a: A, b: B) -> (r: R) where T: FnMut(A, B) -> R
        requires
            call_requires(*old(self).inner, (a, b)),
        ensures
            call_ensures(*old(self).inner, (a, b), r),
            final(self).guard == old(self).guard,
    {
        let f = self.as_mut();
        f(a, b)
    }

    /// Calls the function, which may change, with three arguments.
    pub fn call_mut3<A, B, C, R>(&mut self, a: A, b: B, c: C) -> (r: R) where T: FnMut(A, B, C) -> R
        requires
            call_requires(*old(self).inner, (a, b, c)),
        ensures
            call_ensures(*old(self).inner, (a, b, c), r),
            final(self).guard == old(self).guard,
    {
        let f = self.as_mut();
        f(a, b, c)
    }

    /// Calls the function, which may change, with four arguments.
    pub fn call_mut4<A, B, C, D, R>(&mut self, a: A, b: B, c: C, d: D) -> (r: R) where T: FnMut(A, B, C, D) -> R
        requires
            call_requires(*old(self).inner, (a, b, c, d)),
        ensures
            call_ensures(*old(self).inner, (a, b, c, d), r),
            final(self).guard == old(self).guard,
    {
        let f = self.as_mut();
        f(a, b, c, d)
    }

    /// Calls the function with no arguments.
    pub fn call<R>(&self) -> (r: R) where T: Fn() -> R
        requires
            call_requires(*self.inner, ()),
        ensures
            call_ensures(*self.inner, (), r),
    {
        (*self.inner)()
    }

    /// Calls the function with one argument.
    pub fn call1<A, R>(&self, a: A) -> (r: R) where T: Fn(A) -> R
        requires
            call_requires(*self.inner, (a,)),
        ensures
            call_ensures(*self.inner, (a,), r),
    {
        (*self.inner)(a)
    }

    /// Calls the function with two arguments.
    pub fn call2<A, B, R>(&self, a: A, b: B) -> (r: R) where T: Fn(A, B) -> R
        requires
            call_requires(*self.inner, (a, b)),
        ensures
            call_ensures(*self.inner, (a, b), r),
    {
        (*self.inner)(a, b)
    }

    /// Calls the function with three arguments.
    pub fn call3<A, B, C, R>(&self, a: A, b: B, c: C) -> (r: R) where T: Fn(A, B, C) -> R
        requires
            call_requires(*self.inner, (a, b, c)),
        ensures
            call_ensures(*self.inner, (a, b, c), r),
    {
        (*self.inner)(a, b, c)
    }

    /// Calls the function with four arguments.
    pub fn call4<A, B, C, D, R>(&self, a: A, b: B, c: C, d: D) -> (r: R) where T: Fn(A, B, C, D) -> R
        requires
            call_requires(*self.inner, (a, b, c, d)),
        ensures
            call_ensures(*self.inner, (a, b, c, d), r),
    {
        (*self.inner)(a, b, c, d)
    }
}

impl<T: ?Sized> PluginBox<T> {
    pub fn new(value: Box<T>, guard: PluginGuard) -> (r: Self)
        ensures
            r.inner == value,
            r.guard == guard,
    {
        PluginBox { inner: value, guard }
    }

    /// A value of the plugin that has this slot.
    pub fn boxed_current(value: Box<T>, slot: &GuardSlot) -> (r: Self)
        requires
            slot.guard is Some,
        ensures
            r.inner == value,
            Some(r.guard) == slot.guard,
    {
        PluginBox { inner: value, guard: PluginGuard::current(slot) }
    }

    /// The value goes, and then its guard. If that was the last, the call that unloads the plugin.
    pub fn release(self) -> (r: Option<(u64, u64)>)
        ensures
            told(self.guard, r),
            went(self.guard, r),
    {
        let last = {
            let PluginBox { inner, guard } = self;
            guard
        };
        last.release()
    }

    pub fn as_ref(&self) -> (r: &T)
        ensures
            r == self.inner,
    {
        &self.inner
    }

    /// Another guard of the same plugin.
    pub fn guard(&self) -> (r: PluginGuard)
        ensures
            r == self.guard,
    {
        self.guard.clone()
    }
}

impl<T: ?Sized> std::ops::Deref for PluginBox<T> {
    type Target = T;

    fn deref(&self) -> (r: &T)
        ensures
            r == self.inner,
    {
        &self.inner
    }
}

// ---------------------------------------------------------------------------
// Shared values
// ---------------------------------------------------------------------------

/// A shared value that keeps its plugin loaded.
pub struct PluginArc<T: ?Sized> {
    pub inner: Arc<T>,
    pub guard: PluginGuard,
}

impl<T> PluginArc<T> {
    /// A value of the plugin that has this slot.
    pub fn current(value: T, slot: &GuardSlot) -> (r: Self)
        requires
            slot.guard is Some,
        ensures
            *r.inner == value,
            Some(r.guard) == slot.guard,
    {
        PluginArc { inner: Arc::new(value), guard: PluginGuard::current(slot) }
    }

    pub fn from_value(value: T, guard: PluginGuard) -> (r: Self)
        ensures
            *r.inner == value,
            r.guard == guard,
    {
        PluginArc { inner: Arc::new(value), guard }
    }

    /// Calls the function with no arguments.
    pub fn call<R>(&self) -> (r: R) where T: Fn() -> R
        requires
            call_requires(*self.inner, ()),
        ensures
            call_ensures(*self.inner, (), r),
    {
        (*self.inner)()
    }

    /// Calls the function with one argument.
    pub fn call1<A, R>(&self, a: A) -> (r: R) where T: Fn(A) -> R
        requires
            call_requires(*self.inner, (a,)),
        ensures
            call_ensures(*self.inner, (a,), r),
    {
        (*self.inner)(a)
    }

    /// Calls the function with two arguments.
    pub fn call2<A, B, R>(&self, a: A, b: B) -> (r: R) where T: Fn(A, B) -> R
        requires
            call_requires(*self.inner, (a, b)),
        ensures
            call_ensures(*self.inner, (a, b), r),
    {
        (*self.inner)(a, b)
    }

    /// Calls the function with three arguments.
    pub fn call3<A, B, C, R>(&self, a: A, b: B, c: C) -> (r: R) where T: Fn(A, B, C) -> R
        requires
            call_requires(*self.inner, (a, b, c)),
        ensures
            call_ensures(*self.inner, (a, b, c), r),
    {
        (*self.inner)(a, b, c)
    }

    /// Calls the function with four arguments.
    pub fn call4<A, B, C, D, R>(&self, a: A, b: B, c: C, d: D) -> (r: R) where T: Fn(A, B, C, D) -> R
        requires
            call_requires(*self.inner, (a, b, c, d)),
        ensures
            call_ensures(*self.inner, (a, b, c, d), r),
    {
        (*self.inner)(a, b, c, d)
    }
}

impl<T: ?Sized> PluginArc<T> {
    pub fn new(value: Arc<T>, guard: PluginGuard) -> (r: Self)
        ensures
            r.inner == value,
            r.guard == guard,
    {
        PluginArc { inner: value, guard }
    }

    /// A value of the plugin that has this slot.
    pub fn arc_current(value: Arc<T>, slot: &GuardSlot) -> (r: Self)
        requires
            slot.guard is Some,
        ensures
            r.inner == value,
            Some(r.guard) == slot.guard,
    {
        PluginArc { inner: value, guard: PluginGuard::current(slot) }
    }

    /// The value goes, and then its guard. If that was the last, the call that unloads the plugin.
    pub fn release(self) -> (r: Option<(u64, u64)>)
        ensures
            told(self.guard, r),
            went(self.guard, r),
    {
        let last = {
            let PluginArc { inner, guard } = self;
            guard
        };
        last.release()
    }

    /// Another guard of the same plugin.
    pub fn guard(&self) -> (r: PluginGuard)
        ensures
            r == self.guard,
    {
        self.guard.clone()
    }
}

impl<T: ?Sized> Clone for PluginArc<T> {
    fn clone(&self) -> (r: Self)
        ensures
            r == *self,
    {
        PluginArc { inner: self.inner.clone(), guard: self.guard.clone() }
    }
}

impl<T: ?Sized> std::ops::Deref for PluginArc<T> {
    type Target = T;

    fn deref(&self) -> (r: &T)
        ensures
            r == self.inner,
    {
        &self.inner
    }
}

/// The calls that are made when everything that kept a plugin loaded goes, one after the other. For
/// each it is given whether it was the last: the last one hands the plugin over.
pub open spec fn calls_made(lasts: Seq<Option<PluginBinary>>) -> Seq<(u64, u64)>
    decreases lasts.len(),
{
    if lasts.len() == 0 {
        Seq::empty()
    } else {
        let before = calls_made(lasts.drop_last());
        match lasts.last() {
            Some(b) => match unloading(b) {
                Some(call) => before.push(call),
                None => before,
            },
            None => before,
        }
    }
}

proof fn lemma_no_calls(lasts: Seq<Option<PluginBinary>>)
    requires
        forall|i: int| 0 <= i < lasts.len() ==> (#[trigger] lasts[i]) is None,
    ensures
        calls_made(lasts).len() == 0,
    decreases lasts.len(),
{
    if lasts.len() > 0 {
        lemma_no_calls(lasts.drop_last());
    }
}

/// A plugin is unloaded once, and by what it was loaded with: of all that kept it loaded exactly one
/// was the last to go, so exactly one call is made. Nothing is ever called for the host.
pub proof fn plugins_are_unloaded_once(b: PluginBinary, lasts: Seq<Option<PluginBinary>>, k: int)
    requires
        0 <= k < lasts.len(),
        lasts[k] == Some(b),
        forall|i: int| 0 <= i < lasts.len() && i != k ==> (#[trigger] lasts[i]) is None,
    ensures
        calls_made(lasts) == match unloading(b) {
            Some(call) => seq![call],
            None => Seq::empty(),
        },
    decreases lasts.len(),
{
    let d = lasts.drop_last();
    if k == lasts.len() - 1 {
        lemma_no_calls(d);
        assert(calls_made(d) =~= Seq::empty());
        if let Some(call) = unloading(b) {
            assert(calls_made(d).push(call) =~= seq![call]);
        }
    } else {
        plugins_are_unloaded_once(b, d, k);
    }
}

/// A plugin is unloaded by the function that it came with, and by its own handle; what belongs to the host is
/// never unloaded.
pub proof fn plugins_are_unloaded_by_their_own_function(b: PluginBinary)
    ensures
        unloading(b) is Some <==> b.drop_fn is Some,
        unloading(b) matches Some((f, h)) ==> b.drop_fn == Some(f) && h == b.handle,
        calls_made(seq![Some(b)]).len() == if b.drop_fn is Some {
            1int
        } else {
            0
        },
        calls_made(seq![None]).len() == 0,
{
    let one = seq![Some(b)];
    let none = seq![None::<PluginBinary>];
    assert(one.drop_last() =~= Seq::empty());
    assert(none.drop_last() =~= Seq::empty());
    assert(calls_made(Seq::empty()).len() == 0);
}

} // verus!
