//! A vector with a capacity fixed at creation, that can only grow.

use vstd::prelude::*;
use crate::containers::ContainerError;

verus! {

/// Fixed capacity vector where items can only be appended; it never holds
/// more items than its capacity.
#[derive(Debug)]
pub struct GrowOnlyVec<T> {
    capacity: usize,
    pool: Vec<T>,
}

impl<T> GrowOnlyVec<T> {
    /// The items held, in order.
    pub closed spec fn view(&self) -> Seq<T> {
        self.pool@
    }

    /// The capacity given on creation.
    pub closed spec fn spec_capacity(&self) -> nat {
        self.capacity as nat
    }

    /// The items never exceed the capacity.
    #[verifier::type_invariant]
    closed spec fn within_capacity(&self) -> bool {
        self.pool.len() <= self.capacity
    }

    /// An empty vector that can hold `capacity` items.
    pub fn new(capacity: usize) -> (r: Self)
        ensures
            r@ == Seq::<T>::empty(),
            r.spec_capacity() == capacity,
    {
        Self { capacity, pool: Vec::new() }
    }

    /// Number of items held, never more than the capacity.
    pub fn len(&self) -> (r: usize)
        ensures
            r == self@.len(),
            r <= self.spec_capacity(),
    {
        proof {
            use_type_invariant(self);
        }
        self.pool.len()
    }

    /// The items held.
    pub fn as_slice(&self) -> (r: &[T])
        ensures
            r@ == self@,
    {
        self.pool.as_slice()
    }

    /// The item at `index`.
    pub fn index(&self, index: usize) -> (r: &T)
        requires
            index < self@.len(),
        ensures
            *r == self@[index as int],
    {
        &self.pool[index]
    }

    /// The item at `index`, to change it.
    pub fn index_mut(&mut self, index: usize) -> (r: &mut T)
        requires
            index < old(self)@.len(),
        ensures
            *r == old(self)@[index as int],
            final(self)@ == old(self)@.update(index as int, *final(r)),
            final(self).spec_capacity() == old(self).spec_capacity(),
    {
        proof {
            use_type_invariant(&*self);
        }
        &mut self.pool[index]
    }

    /// Append an item and return its index, or refuse it, leaving the vector
    /// unchanged, when the capacity is reached.
    pub fn inner_mut_push(&mut self, value: T) -> (r: Result<usize, ContainerError>)
        ensures
            final(self).spec_capacity() == old(self).spec_capacity(),
            old(self)@.len() < old(self).spec_capacity() ==> r == Ok::<usize, ContainerError>(
                old(self)@.len() as usize,
            ) && final(self)@ == old(self)@.push(value),
            old(self)@.len() >= old(self).spec_capacity() ==> r == Err::<usize, ContainerError>(
                ContainerError::SizeExceeded(old(self).spec_capacity() as usize),
            ) && final(self)@ == old(self)@,
    {
        proof {
            use_type_invariant(&*self);
        }
        let index = self.pool.len();
        if index >= self.capacity {
            Err(ContainerError::SizeExceeded(self.capacity))
        } else {
            let mut pool: Vec<T> = Vec::new();
            std::mem::swap(&mut pool, &mut self.pool);
            pool.push(value);
            self.pool = pool;
            Ok(index)
        }
    }
}

} // verus!
