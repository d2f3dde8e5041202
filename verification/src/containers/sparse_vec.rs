//! Large memories of which only a part is used during a simulation.

use vstd::prelude::*;

verus! {

/// Errors of a sparse vector.
#[derive(Debug, Clone, Copy, PartialEq, Eq)]
pub enum SparseVecError {
    /// The size in bytes of the requested memory does not fit in `usize`.
    SizeOverflow,
    /// The initial data (its length first) is longer than the memory (its length second).
    InitTooLong(usize, usize),
}

/// A fixed length memory whose items all start at one default value.
pub struct SparseVec<T> {
    data: Vec<T>,
}

impl<T: Copy + Default> SparseVec<T> {
    /// The items held.
    pub closed spec fn view(&self) -> Seq<T> {
        self.data@
    }

    /// A memory of `len` default items, or `SizeOverflow` when its size in
    /// bytes does not fit in `usize`.
    pub fn new(len: usize) -> (r: Result<Self, SparseVecError>)
        ensures
            len * vstd::layout::size_of::<T>() > usize::MAX ==> r == Err::<Self, SparseVecError>(
                SparseVecError::SizeOverflow,
            ),
            len * vstd::layout::size_of::<T>() <= usize::MAX ==> r is Ok,
            r matches Ok(v) ==> (v@.len() == len && forall|i: int, j: int|
                0 <= i < len && 0 <= j < len ==> v@[i] == v@[j]),
    {
        let size = core::mem::size_of::<T>();
        if len.checked_mul(size).is_none() {
            return Err(SparseVecError::SizeOverflow);
        }
        let dflt = T::default();
        let mut data: Vec<T> = Vec::new();
        let mut i: usize = 0;
        while i < len
            invariant
                0 <= i <= len,
                data.len() == i,
                forall|k: int| 0 <= k < i ==> data@[k] == dflt,
            decreases len - i,
        {
            data.push(dflt);
            i = i + 1;
        }
        Ok(Self { data })
    }

    /// Number of items.
    pub fn len(&self) -> (r: usize)
        ensures
            r == self@.len(),
    {
        self.data.len()
    }

    /// Whether the memory holds no item.
    pub fn is_empty(&self) -> (r: bool)
        ensures
            r == (self@.len() == 0),
    {
        self.data.len() == 0
    }

    /// Overwrite the beginning of the memory with `data`.
    pub fn init_from_vec(&mut self, data: Vec<T>) -> (r: Result<(), SparseVecError>)
        ensures
            data.len() > old(self)@.len() ==> r == Err::<(), SparseVecError>(
                SparseVecError::InitTooLong(data.len(), old(self)@.len() as usize),
            ) && final(self)@ == old(self)@,
            data.len() <= old(self)@.len() ==> r is Ok && final(self)@ == data@ + old(self)@.skip(
                data.len() as int,
            ),
    {
        if data.len() > self.data.len() {
            return Err(SparseVecError::InitTooLong(data.len(), self.data.len()));
        }
        let mut i: usize = 0;
        while i < data.len()
            invariant
                0 <= i <= data.len(),
                data.len() <= old(self)@.len(),
                self.data@.len() == old(self)@.len(),
                forall|k: int| 0 <= k < i ==> self.data@[k] == data@[k],
                forall|k: int| i <= k < old(self)@.len() ==> self.data@[k] == old(self)@[k],
            decreases data.len() - i,
        {
            self.data.set(i, data[i]);
            i = i + 1;
        }
        proof {
            assert(self.data@ =~= data@ + old(self)@.skip(data.len() as int));
        }
        Ok(())
    }

    /// Build a memory holding exactly `value`.
    pub fn try_from(value: Vec<T>) -> (r: Result<Self, SparseVecError>)
        ensures
            value.len() * vstd::layout::size_of::<T>() > usize::MAX ==> r == Err::<
                Self,
                SparseVecError,
            >(SparseVecError::SizeOverflow),
            value.len() * vstd::layout::size_of::<T>() <= usize::MAX ==> (r matches Ok(v) && v@
                == value@),
    {
        let mut sparse = Self::new(value.len())?;
        let _ = sparse.init_from_vec(value);
        proof {
            assert(sparse@ =~= value@);
        }
        Ok(sparse)
    }

    /// The item at `idx`.
    pub fn index(&self, idx: usize) -> (r: &T)
        requires
            idx < self@.len(),
        ensures
            *r == self@[idx as int],
    {
        &self.data[idx]
    }

    /// Replace the item at `idx`.
    pub fn set(&mut self, idx: usize, value: T)
        requires
            idx < old(self)@.len(),
        ensures
            final(self)@ == old(self)@.update(idx as int, value),
    {
        self.data.set(idx, value);
    }

    /// The items held, as a slice.
    pub fn as_slice(&self) -> (r: &[T])
        ensures
            r@ == self@,
    {
        self.data.as_slice()
    }
}

} // verus!
