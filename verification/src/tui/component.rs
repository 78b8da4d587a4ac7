//! Components, and containers of components.

use crossterm::event::KeyEvent;
use vstd::prelude::*;
use crate::text;

verus! {

/// A key event of the terminal (`crossterm::event::KeyEvent`), which is only handed on.
#[verifier::external_type_specification]
#[verifier::external_body]
pub struct ExKeyEvent(KeyEvent);

/// Something that is shown as lines of text.
pub trait Component {
    /// The lines at this width; one that ever shows anything says what.
    open spec fn lines(&self, width: u16) -> Seq<Seq<char>> {
        Seq::empty()
    }

    /// The lines at this width; they may hold escape codes.
    fn render(&self, width: u16) -> (r: Vec<String>)
        ensures
            text::views(r@) == self.lines(width),
    ;

    /// Takes in a key. One that takes in none stays as it is.
    fn handle_input(&mut self, event: &KeyEvent)
        default_ensures
            &*final(self) == &*old(self),
    {
    }

    /// Forgets what it has kept from rendering. One that keeps nothing stays as it is.
    fn invalidate(&mut self)
        default_ensures
            &*final(self) == &*old(self),
    {
    }
}

impl<T: Component + ?Sized> Component for Box<T> {
    open spec fn lines(&self, width: u16) -> Seq<Seq<char>> {
        (**self).lines(width)
    }

    fn render(&self, width: u16) -> (r: Vec<String>) {
        (**self).render(width)
    }

    /// What is in the box is what its own `handle_input` made of it.
    fn handle_input(&mut self, event: &KeyEvent)
        ensures
            exists|c: &mut T|
                {
                    &&& &*c == &**old(self)
                    &&& &*final(c) == &**final(self)
                    &&& #[trigger] call_ensures(T::handle_input, (c, event), ())
                },
    {
        tell_of(T::handle_input, &mut **self, event);
    }

    /// What is in the box is what its own `invalidate` made of it.
    fn invalidate(&mut self)
        ensures
            exists|c: &mut T|
                {
                    &&& &*c == &**old(self)
                    &&& &*final(c) == &**final(self)
                    &&& #[trigger] call_ensures(T::invalidate, (c,), ())
                },
    {
        tell(T::invalidate, &mut **self);
    }
}

/// Calls a method of a component that may change it.
fn tell<C: ?Sized, F: Fn(&mut C)>(f: F, c: &mut C)
    requires
        forall|d: &mut C| #[trigger] call_requires(f, (d,)),
    ensures
        exists|d: &mut C| &*d == &*old(c) && &*final(d) == &*final(c) && #[trigger] call_ensures(f, (d,), ()),
{
    f(c)
}

/// Calls a method of a component that may change it, with an event.
fn tell_of<C: ?Sized, F: Fn(&mut C, &KeyEvent)>(f: F, c: &mut C, event: &KeyEvent)
    requires
        forall|d: &mut C| #[trigger] call_requires(f, (d, event)),
    ensures
        exists|d: &mut C| &*d == &*old(c) && &*final(d) == &*final(c) && #[trigger] call_ensures(f, (d, event), ()),
{
    f(c, event)
}

/// Components one below the other.
pub struct Container<C> {
    pub children: Vec<C>,
}

/// The lines of components one below the other.
pub open spec fn stacked<C: Component>(children: Seq<C>, width: u16) -> Seq<Seq<char>>
    decreases children.len(),
{
    if children.len() == 0 {
        Seq::empty()
    } else {
        stacked(children.drop_last(), width) + children.last().lines(width)
    }
}

/// Is there a component at this place?
pub open spec fn has_child<C>(children: Seq<C>, i: int) -> bool {
    0 <= i < children.len()
}

impl<C> Container<C> {
    pub fn new() -> (r: Self)
        ensures
            r.children@.len() == 0,
    {
        Container { children: Vec::new() }
    }

    /// Adds a component below the others.
    pub fn add_child(&mut self, child: C)
        ensures
            final(self).children@ == old(self).children@.push(child),
    {
        self.children.push(child);
    }

    /// Takes a component out.
    pub fn remove_child(&mut self, index: usize) -> (r: C)
        requires
            index < old(self).children@.len(),
        ensures
            r == old(self).children@[index as int],
            final(self).children@ == old(self).children@.remove(index as int),
    {
        self.children.remove(index)
    }

    pub fn clear(&mut self)
        ensures
            final(self).children@.len() == 0,
    {
        self.children = Vec::new();
    }

    pub fn len(&self) -> (r: usize)
        ensures
            r == self.children@.len(),
    {
        self.children.len()
    }

    pub fn is_empty(&self) -> (r: bool)
        ensures
            r == (self.children@.len() == 0),
    {
        self.children.len() == 0
    }

    /// A component, to change it.
    pub fn child_mut(&mut self, index: usize) -> (r: Option<&mut C>)
        ensures
            r is Some <==> index < old(self).children@.len(),
            r is None ==> *final(self) == *old(self),
            r matches Some(c) ==> *c == old(self).children@[index as int] && final(self).children@ == old(self).children@.update(index as int, *final(c)),
    {
        if index < self.children.len() {
            Some(&mut self.children[index])
        } else {
            None
        }
    }
}

impl<C> Default for Container<C> {
    fn default() -> (r: Self)
        ensures
            r.children@.len() == 0,
    {
        Container::new()
    }
}

impl<C: Component> Component for Container<C> {
    open spec fn lines(&self, width: u16) -> Seq<Seq<char>> {
        stacked(self.children@, width)
    }

    /// The lines of all components, in order.
    fn render(&self, width: u16) -> (r: Vec<String>) {
        let mut lines: Vec<String> = Vec::new();
        let mut i: usize = 0;
        assert(self.children@.take(0) =~= Seq::empty());
        assert(text::views(lines@) =~= Seq::<Seq<char>>::empty());
        while i < self.children.len()
            invariant
                i <= self.children@.len(),
                text::views(lines@) == stacked(self.children@.take(i as int), width),
            decreases self.children.len() - i,
        {
            let mut more = self.children[i].render(width);
            let ghost before = lines@;
            let ghost added = more@;
            lines.append(&mut more);
            proof {
                assert(self.children@.take(i as int + 1).drop_last() =~= self.children@.take(i as int));
                assert(text::views(before + added) =~= text::views(before) + text::views(added));
            }
            i = i + 1;
        }
        assert(self.children@.take(i as int) =~= self.children@);
        lines
    }

    /// Invalidates all components: each of them is what its own `invalidate` made of it.
    fn invalidate(&mut self)
        ensures
            final(self).children@.len() == old(self).children@.len(),
            forall|i: int|
                #[trigger]
                has_child(old(self).children@, i) ==> exists|c: &mut C|
                    {
                        &&& *c == old(self).children@[i]
                        &&& *final(c) == final(self).children@[i]
                        &&& #[trigger] call_ensures(C::invalidate, (c,), ())
                    },
    {
        let mut i: usize = 0;
        while i < self.children.len()
            invariant
                i <= self.children@.len(),
                self.children@.len() == old(self).children@.len(),
                forall|j: int| i <= j < self.children@.len() ==> self.children@[j] == old(self).children@[j],
                forall|j: int|
                    #[trigger]
                    has_child(old(self).children@, j) && j < i ==> exists|c: &mut C|
                        {
                            &&& *c == old(self).children@[j]
                            &&& *final(c) == self.children@[j]
                            &&& #[trigger] call_ensures(C::invalidate, (c,), ())
                        },
            decreases self.children.len() - i,
        {
            tell(C::invalidate, &mut self.children[i]);
            i = i + 1;
        }
    }
}

} // verus!
