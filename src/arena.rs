use vstd::prelude::*;

verus! {

/// A non-owning reference to a value held by an [`Arena`].
///
/// A handle observes its value without keeping it alive: once the value is
/// removed from the arena the handle no longer resolves, and since slots are
/// never reused it never resolves again.
#[derive(Clone, Copy, Debug, PartialEq, Eq, Structural, Hash)]
pub struct Handle {
    index: usize,
}

impl Handle {
    /// The slot this handle refers to.
    pub closed spec fn slot(self) -> int {
        self.index as int
    }
}

/// Sole owner of a set of values, each reachable through a [`Handle`].
pub struct Arena<T> {
    slots: Vec<Option<T>>,
}

impl<T> View for Arena<T> {
    /// The live values, by handle.
    type V = Map<Handle, T>;

    closed spec fn view(&self) -> Map<Handle, T> {
        Map::new(
            |h: Handle| h.index < self.slots@.len() && self.slots@[h.index as int] is Some,
            |h: Handle| self.slots@[h.index as int]->Some_0,
        )
    }
}

impl<T> Arena<T> {
    /// Number of handles issued so far; every issued handle has a slot below it.
    pub closed spec fn issued(&self) -> nat {
        self.slots@.len()
    }

    /// Whether `h` was handed out by this arena.
    pub open spec fn was_issued(&self, h: Handle) -> bool {
        0 <= h.slot() < self.issued()
    }

    pub fn new() -> (r: Arena<T>)
        ensures
            r@ == Map::<Handle, T>::empty(),
            r.issued() == 0,
    {
        let r = Arena { slots: Vec::new() };
        assert(r@ =~= Map::<Handle, T>::empty());
        r
    }

    /// Whether every handle has been handed out, so that `insert` cannot
    /// make a fresh one.
    pub fn is_full(&self) -> (r: bool)
        ensures
            r == (self.issued() >= usize::MAX),
    {
        self.slots.len() == usize::MAX
    }

    /// Takes ownership of `value` and returns a fresh handle to it.
    pub fn insert(&mut self, value: T) -> (h: Handle)
        requires
            old(self).issued() < usize::MAX,
        ensures
            !old(self).was_issued(h),
            !old(self)@.dom().contains(h),
            final(self).was_issued(h),
            final(self).issued() == old(self).issued() + 1,
            final(self)@ == old(self)@.insert(h, value),
    {
        let h = Handle { index: self.slots.len() };
        self.slots.push(Some(value));
        assert(self@ =~= old(self)@.insert(h, value));
        h
    }

    /// Drops the value behind `h`, if it is still live, and hands it back.
    pub fn remove(&mut self, h: Handle) -> (r: Option<T>)
        ensures
            final(self)@ == old(self)@.remove(h),
            final(self).issued() == old(self).issued(),
            r == (if old(self)@.dom().contains(h) {
                Some(old(self)@[h])
            } else {
                None
            }),
    {
        if h.index < self.slots.len() {
            let r = self.slots[h.index].take();
            assert(self@ =~= old(self)@.remove(h));
            r
        } else {
            assert(self@ =~= old(self)@.remove(h));
            None
        }
    }

    /// Resolves `h`: the value when it is still live.
    pub fn get(&self, h: Handle) -> (r: Option<&T>)
        ensures
            r == (if self@.dom().contains(h) {
                Some(&self@[h])
            } else {
                None
            }),
    {
        if h.index < self.slots.len() {
            self.slots[h.index].as_ref()
        } else {
            None
        }
    }

    /// Resolves `h` for mutation: the value when it is still live.
    pub fn get_mut(&mut self, h: Handle) -> (r: Option<&mut T>)
        ensures
            final(self).issued() == old(self).issued(),
            old(self)@.dom().contains(h) ==> {
                &&& r is Some
                &&& *r.unwrap() == old(self)@[h]
                &&& final(self)@ == old(self)@.insert(h, *final(r.unwrap()))
            },
            !old(self)@.dom().contains(h) ==> r is None && final(self)@ == old(self)@,
    {
        if h.index < self.slots.len() {
            self.slots[h.index].as_mut()
        } else {
            None
        }
    }

    /// Whether `h` still resolves.
    pub fn contains(&self, h: Handle) -> (r: bool)
        ensures
            r == self@.dom().contains(h),
    {
        h.index < self.slots.len() && self.slots[h.index].is_some()
    }

    /// Whether `a` and `b` both resolve, to one and the same value.
    pub fn identical(&self, a: Handle, b: Handle) -> (r: bool)
        ensures
            r == (self@.dom().contains(a) && a == b),
    {
        self.contains(a) && a == b
    }
}

} // verus!
