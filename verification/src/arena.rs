use vstd::prelude::*;

verus! {

/// A store that owns the values pushed into it and keeps every one of them
/// until the store itself is dropped, so that a value, once pushed, stays
/// where it was put.
#[derive(Debug)]
pub struct OwnedArena<T> {
    values: Vec<T>,
}

impl<T> View for OwnedArena<T> {
    type V = Seq<T>;

    /// The values in the order they were pushed.
    closed spec fn view(&self) -> Seq<T> {
        self.values@
    }
}

impl<T> OwnedArena<T> {
    /// Stores a value and returns the position at which it is kept.
    pub fn push(&mut self, value: T) -> (r: usize)
        requires
            old(self)@.len() < usize::MAX,
        ensures
            final(self)@ == old(self)@.push(value),
            r == old(self)@.len(),
    {
        let position = self.values.len();
        self.values.push(value);
        position
    }

    /// The value kept at a position.
    pub fn get(&self, position: usize) -> (r: &T)
        requires
            position < self@.len(),
        ensures
            *r == self@[position as int],
    {
        &self.values[position]
    }

    /// The number of values stored.
    pub fn len(&self) -> (r: usize)
        ensures
            r == self@.len(),
    {
        self.values.len()
    }
}

impl<T> Default for OwnedArena<T> {
    /// An empty store.
    fn default() -> (r: Self)
        ensures
            r@ == Seq::<T>::empty(),
    {
        OwnedArena { values: Vec::new() }
    }
}

} // verus!
