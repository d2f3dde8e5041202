//! A store with a fixed number of inline slots that switches to a heap
//! vector once they are all used.

use vstd::prelude::*;

verus! {

/// Provides `STATIC_STORE` slots allocated on creation. On overflow it
/// switches to a dynamically allocated space backed by a standard vector.
#[derive(Debug)]
pub enum PreAllocatedStore<T, const STATIC_STORE: usize> {
    /// Inline storage: the number of used slots and the slots.
    Static(usize, [T; STATIC_STORE]),
    /// Heap storage.
    Dynamic(Vec<T>),
}

impl<T, const STATIC_STORE: usize> PreAllocatedStore<T, STATIC_STORE> {
    /// A store is well formed when its inline length fits in its slots.
    pub open spec fn wf(&self) -> bool {
        match self {
            PreAllocatedStore::Static(len, _) => *len <= STATIC_STORE,
            PreAllocatedStore::Dynamic(_) => true,
        }
    }

    /// The items held, in order.
    pub open spec fn view(&self) -> Seq<T> {
        match self {
            PreAllocatedStore::Static(len, array) => array@.take(*len as int),
            PreAllocatedStore::Dynamic(vec) => vec@,
        }
    }

    /// Number of items held.
    pub fn len(&self) -> (r: usize)
        requires
            self.wf(),
        ensures
            r == self@.len(),
    {
        match self {
            PreAllocatedStore::Static(len, _) => *len,
            PreAllocatedStore::Dynamic(vec) => vec.len(),
        }
    }

    /// The items held, as a slice.
    pub fn as_slice(&self) -> (r: &[T])
        requires
            self.wf(),
        ensures
            r@ == self@,
    {
        match self {
            PreAllocatedStore::Static(len, array) => {
                let (head, _tail) = array.as_slice().split_at(*len);
                head
            },
            PreAllocatedStore::Dynamic(vec) => vec.as_slice(),
        }
    }

    /// The items held, as a mutable slice.
    pub fn as_mut_slice(&mut self) -> (r: &mut [T])
        requires
            old(self).wf(),
        ensures
            r@ == old(self)@,
            final(self).wf(),
            final(self)@ == final(r)@,
    {
        match self {
            PreAllocatedStore::Static(len, array) => {
                let l = *len;
                let sl: &mut [T] = array;
                let (head, _tail) = sl.split_at_mut(l);
                head
            },
            PreAllocatedStore::Dynamic(vec) => vec.as_mut_slice(),
        }
    }
}

/// The first `n` items of an array, in a vector.
fn array_prefix_to_vec<T: Copy, const N: usize>(array: &[T; N], n: usize) -> (r: Vec<T>)
    requires
        n <= N,
    ensures
        r@ == array@.take(n as int),
{
    let mut vec: Vec<T> = Vec::new();
    let mut i: usize = 0;
    while i < n
        invariant
            0 <= i <= n,
            n <= N,
            vec@ == array@.take(i as int),
        decreases n - i,
    {
        vec.push(array[i]);
        proof {
            assert(vec@ =~= array@.take((i + 1) as int));
        }
        i = i + 1;
    }
    vec
}

/// Append copies of the items of a slice to a vector.
fn push_all<T: Copy>(vec: &mut Vec<T>, other: &[T])
    ensures
        final(vec)@ == old(vec)@ + other@,
{
    let mut i: usize = 0;
    while i < other.len()
        invariant
            0 <= i <= other.len(),
            vec@ == old(vec)@ + other@.take(i as int),
        decreases other.len() - i,
    {
        vec.push(other[i]);
        proof {
            assert(vec@ =~= old(vec)@ + other@.take((i + 1) as int));
        }
        i = i + 1;
    }
    proof {
        assert(other@.take(other.len() as int) =~= other@);
    }
}

impl<T: Copy + Default, const STATIC_STORE: usize> Default for PreAllocatedStore<T, STATIC_STORE> {
    fn default() -> (r: Self)
        ensures
            r.wf(),
            r@ == Seq::<T>::empty(),
            r is Static,
    {
        let dflt = T::default();
        let static_store: [T; STATIC_STORE] = [dflt; STATIC_STORE];
        PreAllocatedStore::Static(0, static_store)
    }
}

impl<T: Copy, const STATIC_STORE: usize> PreAllocatedStore<T, STATIC_STORE> {
    /// Append an item; the inline slots overflow into a vector.
    pub fn push(&mut self, value: T)
        requires
            old(self).wf(),
            old(self)@.len() < usize::MAX,
        ensures
            final(self).wf(),
            final(self)@ == old(self)@.push(value),
            ((*final(self)) is Static) <==> ((*old(self)) is Static && old(self)@.len() < STATIC_STORE),
    {
        let mut grown: Option<Vec<T>> = None;
        match self {
            PreAllocatedStore::Static(len, array) => {
                if *len < STATIC_STORE {
                    // use static store
                    let l = *len;
                    array[l] = value;
                    *len = l + 1;
                    proof {
                        assert(array@.take(*len as int) =~= old(self)@.push(value));
                    }
                } else {
                    // static store overflow => convert into dynamic
                    let mut vec = array_prefix_to_vec(array, *len);
                    vec.push(value);
                    grown = Some(vec);
                }
            },
            PreAllocatedStore::Dynamic(vec) => {
                vec.push(value);
            },
        }
        if let Some(vec) = grown {
            *self = PreAllocatedStore::Dynamic(vec);
        }
    }

    /// Remove and return the last item, if any.
    pub fn pop(&mut self) -> (r: Option<T>)
        requires
            old(self).wf(),
        ensures
            final(self).wf(),
            old(self)@.len() == 0 ==> r is None && final(self)@ == old(self)@,
            old(self)@.len() > 0 ==> r == Some(old(self)@.last()) && final(self)@
                == old(self)@.drop_last(),
    {
        match self {
            PreAllocatedStore::Static(len, array) => {
                if *len == 0 {
                    None
                } else {
                    let l = *len - 1;
                    *len = l;
                    proof {
                        assert(array@.take(l as int) =~= old(self)@.drop_last());
                    }
                    Some(array[l])
                }
            },
            PreAllocatedStore::Dynamic(vec) => {
                let r = vec.pop();
                proof {
                    if old(self)@.len() > 0 {
                        assert(vec@ =~= old(self)@.drop_last());
                    }
                }
                r
            },
        }
    }

    /// Append copies of the items of a slice.
    pub fn extend_from_slice(&mut self, other: &[T])
        requires
            old(self).wf(),
            old(self)@.len() + other@.len() <= usize::MAX,
        ensures
            final(self).wf(),
            final(self)@ == old(self)@ + other@,
            ((*final(self)) is Static) <==> ((*old(self)) is Static && old(self)@.len() + other@.len()
                <= STATIC_STORE),
    {
        let mut grown: Option<Vec<T>> = None;
        match self {
            PreAllocatedStore::Static(len, array) => {
                if *len + other.len() <= STATIC_STORE {
                    // use static store
                    let mut i: usize = 0;
                    let ghost start = *len;
                    while i < other.len()
                        invariant
                            0 <= i <= other.len(),
                            start + other.len() <= STATIC_STORE,
                            *len == start + i,
                            array@.take(*len as int) == old(self)@ + other@.take(i as int),
                        decreases other.len() - i,
                    {
                        let l = *len;
                        let ghost prev = array@;
                        let x = other[i];
                        array[l] = x;
                        *len = l + 1;
                        proof {
                            assert(array@ == prev.update(l as int, x));
                            assert(array@.take(l + 1) =~= prev.take(l as int).push(x));
                            assert(other@.take((i + 1) as int) =~= other@.take(i as int).push(x));
                            assert(array@.take(*len as int) =~= old(self)@ + other@.take(
                                (i + 1) as int,
                            ));
                        }
                        i = i + 1;
                    }
                    proof {
                        assert(other@.take(other.len() as int) =~= other@);
                    }
                } else {
                    // static store overflow => convert into dynamic
                    let mut vec = array_prefix_to_vec(array, *len);
                    push_all(&mut vec, other);
                    grown = Some(vec);
                }
            },
            PreAllocatedStore::Dynamic(vec) => {
                push_all(vec, other);
            },
        }
        if let Some(vec) = grown {
            *self = PreAllocatedStore::Dynamic(vec);
        }
    }

    /// The items held, in a vector.
    pub fn into_vec(self) -> (r: Vec<T>)
        requires
            self.wf(),
        ensures
            r@ == self@,
    {
        match self {
            PreAllocatedStore::Static(size, array) => array_prefix_to_vec(&array, size),
            PreAllocatedStore::Dynamic(items) => items,
        }
    }
}

/// Popping right after a push gives the pushed item back and leaves the
/// items held before.
pub proof fn law_pop_undoes_push<T>(items: Seq<T>, value: T)
    ensures
        items.push(value).len() > 0,
        items.push(value).last() == value,
        items.push(value).drop_last() == items,
{
    assert(items.push(value).drop_last() =~= items);
}

} // verus!
