//! A plain mutable cell: one stored value, read and replaced through the cell.
use vstd::prelude::*;

verus! {

/// Storage for one value of `T`. Access needs `&mut` to the cell, so two
/// live mutable views of the contents can never exist at once.
#[derive(Debug)]
pub struct Cell<T> {
    inner: T,
}

impl<T> View for Cell<T> {
    type V = T;

    closed spec fn view(&self) -> T {
        self.inner
    }
}

/// What a cell holds after `set(v)`, whatever it held before.
pub open spec fn stored_after_set<T>(held: T, v: T) -> T {
    v
}

/// The contents of two cells after their values are exchanged.
pub open spec fn swapped<T>(a: T, b: T) -> (T, T) {
    (b, a)
}

impl<T> Cell<T> {
    /// A cell holding `value`.
    pub fn new(value: T) -> (c: Cell<T>)
        ensures
            c@ == value,
    {
        Cell { inner: value }
    }

    /// Returns a copy of the stored value.
    pub fn get(&self) -> (r: T)
        where
            T: Copy,
        ensures
            r == self@,
    {
        self.inner
    }

    /// Stores `value` and returns the value held before.
    pub fn replace(&mut self, value: T) -> (r: T)
        ensures
            r == old(self)@,
            final(self)@ == value,
    {
        let mut v = value;
        std::mem::swap(&mut self.inner, &mut v);
        v
    }

    /// Stores `value`, dropping the value held before.
    pub fn set(&mut self, value: T)
        ensures
            final(self)@ == stored_after_set(old(self)@, value),
    {
        let _ = self.replace(value);
    }

    /// Returns the stored value, leaving `T`'s default in its place.
    pub fn take(&mut self) -> (r: T)
        where
            T: Default,
        ensures
            r == old(self)@,
            call_ensures(T::default, (), final(self)@),
    {
        self.replace(T::default())
    }

    /// Exchanges the contents of two cells.
    pub fn swap(&mut self, other: &mut Cell<T>)
        ensures
            (final(self)@, final(other)@) == swapped(old(self)@, old(other)@),
    {
        std::mem::swap(&mut self.inner, &mut other.inner);
    }

    /// Consumes the cell and returns its value.
    pub fn into_inner(self) -> (r: T)
        ensures
            r == self@,
    {
        self.inner
    }

    /// Direct access to the storage. Writes through the returned reference
    /// land in the cell.
    pub fn as_ptr(&mut self) -> (r: &mut T)
        ensures
            *r == old(self)@,
            final(self)@ == *final(r),
    {
        &mut self.inner
    }

    /// A mutable reference to the stored value, for a caller that already
    /// holds the cell exclusively.
    pub fn get_mut(&mut self) -> (r: &mut T)
        ensures
            *r == old(self)@,
            final(self)@ == *final(r),
    {
        &mut self.inner
    }
}

/// Reading a cell right after `set(v)` yields `v`, whatever the cell held.
pub proof fn lemma_get_after_set<T>(held: T, v: T)
    ensures
        stored_after_set(held, v) == v,
{
}

/// Swapping two cells twice restores both contents; swapping a value with
/// itself changes nothing.
pub proof fn lemma_swap_twice<T>(a: T, b: T)
    ensures
        swapped(swapped(a, b).0, swapped(a, b).1) == (a, b),
        swapped(a, a) == (a, a),
{
}

} // verus!
