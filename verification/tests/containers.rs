use ra2m_sim::containers::growonly::GrowOnlyVec;
use ra2m_sim::containers::preallocatedstore::PreAllocatedStore;
use ra2m_sim::containers::sparse_vec::{SparseVec, SparseVecError};
use ra2m_sim::containers::ContainerError;

#[test]
fn test_preallocatedstore() {
    let mut pas: PreAllocatedStore<usize, 4> = Default::default();
    assert_eq!(pas.as_slice(), []);
    for b in 0..20 {
        pas.push(b);
    }
    assert_eq!(
        *pas.as_slice(),
        [0, 1, 2, 3, 4, 5, 6, 7, 8, 9, 10, 11, 12, 13, 14, 15, 16, 17, 18, 19]
    );
    println!("PreAllocatedStore after overflow {pas:?}");

    for b in pas.as_mut_slice() {
        *b *= 2;
    }
    assert_eq!(
        *pas.as_slice(),
        [0, 2, 4, 6, 8, 10, 12, 14, 16, 18, 20, 22, 24, 26, 28, 30, 32, 34, 36, 38]
    );
    println!("PreAllocatedStore after update {pas:?}");
}

#[test]
fn preallocatedstore_stays_inline_until_full() {
    let mut pas: PreAllocatedStore<u8, 3> = Default::default();
    pas.push(1);
    pas.push(2);
    pas.push(3);
    assert!(matches!(pas, PreAllocatedStore::Static(3, _)));
    pas.push(4);
    assert!(matches!(pas, PreAllocatedStore::Dynamic(_)));
    assert_eq!(pas.len(), 4);
    assert_eq!(pas.as_slice(), [1, 2, 3, 4]);
}

#[test]
fn preallocatedstore_pop_undoes_push() {
    let mut pas: PreAllocatedStore<u32, 2> = Default::default();
    assert_eq!(pas.pop(), None);
    pas.push(7);
    pas.push(9);
    assert_eq!(pas.pop(), Some(9));
    assert_eq!(pas.as_slice(), [7]);
    pas.push(9);
    pas.push(11);
    assert_eq!(pas.pop(), Some(11));
    assert_eq!(pas.as_slice(), [7, 9]);
    assert_eq!(pas.pop(), Some(9));
    assert_eq!(pas.pop(), Some(7));
    assert_eq!(pas.pop(), None);
}

#[test]
fn preallocatedstore_extend_from_slice_appends() {
    let mut pas: PreAllocatedStore<u8, 4> = Default::default();
    pas.extend_from_slice(&[1, 2]);
    assert!(matches!(pas, PreAllocatedStore::Static(2, _)));
    pas.extend_from_slice(&[3, 4]);
    assert!(matches!(pas, PreAllocatedStore::Static(4, _)));
    pas.extend_from_slice(&[5]);
    assert!(matches!(pas, PreAllocatedStore::Dynamic(_)));
    pas.extend_from_slice(&[6, 7]);
    assert_eq!(pas.into_vec(), vec![1, 2, 3, 4, 5, 6, 7]);
}

#[test]
fn preallocatedstore_into_vec_keeps_only_used_slots() {
    let mut pas: PreAllocatedStore<u8, 8> = Default::default();
    pas.push(42);
    assert_eq!(pas.into_vec(), vec![42]);
}

#[test]
fn growonly_refuses_beyond_capacity() {
    let mut gov: GrowOnlyVec<&str> = GrowOnlyVec::new(2);
    assert_eq!(gov.len(), 0);
    assert_eq!(gov.inner_mut_push("a"), Ok(0));
    assert_eq!(gov.inner_mut_push("b"), Ok(1));
    assert_eq!(*gov.index(1), "b");
    assert_eq!(gov.as_slice(), ["a", "b"]);
    assert_eq!(gov.inner_mut_push("c"), Err(ContainerError::SizeExceeded(2)));
    // the refused item leaves the vector unchanged
    assert_eq!(gov.len(), 2);
    assert_eq!(gov.as_slice(), ["a", "b"]);
}

#[test]
fn sparse_vec_starts_with_defaults() {
    let sv: SparseVec<u32> = SparseVec::new(5).unwrap();
    assert_eq!(sv.len(), 5);
    assert!(!sv.is_empty());
    assert_eq!(sv.as_slice(), [0, 0, 0, 0, 0]);
    let empty: SparseVec<u64> = SparseVec::new(0).unwrap();
    assert!(empty.is_empty());
}

#[test]
fn sparse_vec_size_overflow_is_refused() {
    assert!(matches!(SparseVec::<u64>::new(usize::MAX), Err(SparseVecError::SizeOverflow)));
}

#[test]
fn sparse_vec_init_from_vec_overwrites_the_beginning() {
    let mut sv: SparseVec<u8> = SparseVec::new(4).unwrap();
    assert_eq!(sv.init_from_vec(vec![1, 2]), Ok(()));
    assert_eq!(sv.as_slice(), [1, 2, 0, 0]);
    assert_eq!(sv.init_from_vec(vec![1, 2, 3, 4, 5]), Err(SparseVecError::InitTooLong(5, 4)));
    sv.set(3, 9);
    assert_eq!(*sv.index(3), 9);
    let from = SparseVec::try_from(vec![3u16, 4]).unwrap();
    assert_eq!(from.as_slice(), [3, 4]);
}

#[test]
fn growonly_index_mut_changes_one_item() {
    let mut v: GrowOnlyVec<u32> = GrowOnlyVec::new(3);
    v.inner_mut_push(1).unwrap();
    v.inner_mut_push(2).unwrap();
    *v.index_mut(1) = 20;
    assert_eq!(&[1, 20][..], v.as_slice());
    assert_eq!(1, *v.index(0));
}

#[test]
fn preallocated_store_overflows_into_a_vector() {
    let mut pas: PreAllocatedStore<u8, 2> = Default::default();
    pas.push(1);
    pas.push(2);
    assert!(matches!(pas, PreAllocatedStore::Static(2, _)));
    pas.push(3);
    assert!(matches!(pas, PreAllocatedStore::Dynamic(_)));
    assert_eq!(pas.as_slice(), [1, 2, 3]);
    let mut ext: PreAllocatedStore<u8, 2> = Default::default();
    ext.extend_from_slice(&[4, 5]);
    assert!(matches!(ext, PreAllocatedStore::Static(2, _)));
    ext.extend_from_slice(&[6]);
    assert!(matches!(ext, PreAllocatedStore::Dynamic(_)));
    assert_eq!(ext.as_slice(), [4, 5, 6]);
}
