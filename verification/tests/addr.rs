use ra2m_sim::protocol::addr::{Addr, AddrRangeError, AddrRangeMap, Data, Pattern, SubRangeAddr};
use ra2m_sim::protocol::Traceable;

#[test]
fn addr_spaces() {
    assert_eq!(Addr::Phys(4).as_phys(), Some(4));
    assert_eq!(Addr::PhysVirt(4, 8).as_phys(), Some(4));
    assert_eq!(Addr::PhysVirt(4, 8).as_virt(), Some(8));
    assert_eq!(Addr::Virt(8).as_phys(), None);
    assert_eq!(Addr::Unset().as_virt(), None);
    assert_eq!(Addr::Range(0x100, Data::Byte(16)).as_phys(), None);
    assert_eq!(Addr::default(), Addr::Unset());
    assert_eq!(SubRangeAddr::default(), SubRangeAddr::Unset());
}

#[test]
fn addr_with_offset_moves_every_address() {
    assert_eq!(Addr::Phys(4).with_offset(2), Addr::Phys(6));
    assert_eq!(Addr::PhysVirt(4, 8).with_offset(2), Addr::PhysVirt(6, 10));
    assert_eq!(
        Addr::Range(0x100, Data::Byte(16)).with_offset(0x10),
        Addr::Range(0x110, Data::Byte(16))
    );
    assert_eq!(Addr::Unset().with_offset(3), Addr::Unset());
}

#[test]
fn addr_traceable() {
    assert!(matches!(Addr::Phys(3).to_traceable(), Traceable::Scalar(3)));
    match Addr::Range(0x40, Data::Byte(8)).to_traceable() {
        Traceable::Array(v) => assert_eq!(v, vec![0x40, 8]),
        _ => panic!("expected an array"),
    }
}

#[test]
fn pattern_len_and_range() {
    assert_eq!(Pattern::Simple(Data::Byte(12)).len(), Data::Byte(12));
    assert_eq!(Pattern::Simple(Data::Byte(12)).range(), Data::Byte(12));
    let stride = Pattern::Stride(Data::Byte(4), Data::Byte(16), 3);
    assert_eq!(stride.len(), Data::Byte(12));
    assert_eq!(stride.range(), Data::Byte(48));
    assert_eq!(Data::Byte(7).mul_usize(3).into_byte(), 21);
}

#[test]
fn range_map_finds_inserted_ranges() {
    let mut map = AddrRangeMap::new();
    assert!(map.insert_range(0x1000, Data::Byte(0x100), 1).is_ok());
    assert!(map.insert_range(0x2000, Data::Byte(0x100), 2).is_ok());
    assert_eq!(map.find_port(0x1000, Data::Byte(0x100)).unwrap(), (0x1000, 1));
    assert_eq!(map.find_port(0x1080, Data::Byte(0x10)).unwrap(), (0x1000, 1));
    assert_eq!(map.find_port(0x20ff, Data::Byte(1)).unwrap(), (0x2000, 2));
}

#[test]
fn range_map_refuses_overlap_with_lower_range() {
    let mut map = AddrRangeMap::new();
    map.insert_range(0x1000, Data::Byte(0x100), 1).unwrap();
    match map.insert_range(0x10f0, Data::Byte(0x20), 3) {
        Err(AddrRangeError::Overlap { target, overlap }) => {
            assert_eq!(target, (0x10f0, Data::Byte(0x20)));
            assert_eq!(overlap, (0x1000, Data::Byte(0x100)));
        }
        other => panic!("unexpected {other:?}"),
    }
    // the map is unchanged
    assert!(matches!(
        map.find_port(0x10f0, Data::Byte(0x20)),
        Err(AddrRangeError::CrossRange { .. })
    ));
    // a range right after the previous one does not overlap
    assert!(map.insert_range(0x1100, Data::Byte(0x10), 4).is_ok());
}

#[test]
fn range_map_errors() {
    let mut map = AddrRangeMap::default();
    assert!(matches!(
        map.find_port(0x10, Data::Byte(4)),
        Err(AddrRangeError::Unmapped { addr: 0x10, len: Data::Byte(4) })
    ));
    map.insert_range(0x100, Data::Byte(0x10), 7).unwrap();
    assert!(matches!(
        map.find_port(0x80, Data::Byte(4)),
        Err(AddrRangeError::Unmapped { .. })
    ));
    match map.find_port(0x108, Data::Byte(0x10)) {
        Err(AddrRangeError::CrossRange { access, range }) => {
            assert_eq!(access, (0x108, Data::Byte(0x10)));
            assert_eq!(range, vec![(0x100, (0x10, 7))]);
        }
        other => panic!("unexpected {other:?}"),
    }
}

#[test]
fn range_map_refuses_overlap_with_higher_range() {
    let mut map = AddrRangeMap::new();
    assert!(map.insert_range(0x100, Data::Byte(256), 1).is_ok());
    match map.insert_range(0x0, Data::Byte(512), 2) {
        Err(AddrRangeError::Overlap { target, overlap }) => {
            assert_eq!(target, (0x0, Data::Byte(512)));
            assert_eq!(overlap, (0x100, Data::Byte(256)));
        }
        other => panic!("unexpected {other:?}"),
    }
    // the map is unchanged: nothing is mapped below 0x100
    assert!(matches!(
        map.find_port(0x0, Data::Byte(4)),
        Err(AddrRangeError::Unmapped { .. })
    ));
    // a range that ends where the mapped one starts fits
    assert!(map.insert_range(0x0, Data::Byte(0x100), 2).is_ok());
    assert_eq!(map.find_port(0x80, Data::Byte(4)).unwrap(), (0x0, 2));
    assert_eq!(map.find_port(0x100, Data::Byte(4)).unwrap(), (0x100, 1));
}
