use kernel::mem::{Frame, MemorySegment, Page, PhysAddr, VirtAddr};

#[test]
fn virt_addr_canonical() {
    assert!(VirtAddr::try_new(0x0000_7FFF_FFFF_FFFF).is_ok());
    assert!(VirtAddr::try_new(0x0000_8000_0000_0000).is_err());
    assert!(VirtAddr::try_new(0xFFFF_8000_0000_0000).is_ok());
    assert_eq!(VirtAddr::new_truncate(0x0000_8000_0000_0000).as_usize(), 0xFFFF_8000_0000_0000);
    assert_eq!(VirtAddr::new_truncate(0x1234_0000_0000_1000).as_usize(), 0x1000);
}

#[test]
fn memory_segments() {
    assert_eq!(VirtAddr::new(0x1000).memory_segment(), MemorySegment::User);
    assert_eq!(VirtAddr::new(0x0000_7000_0000_0000).memory_segment(), MemorySegment::Untyped);
    assert_eq!(VirtAddr::new(0xFFFF_8000_0000_0000).memory_segment(), MemorySegment::Kernel);
}

#[test]
fn page_index_roundtrip() {
    let p = Page::from_index(5).unwrap();
    assert_eq!(p.base().as_usize(), 5 * 4096);
    assert_eq!(p.index(), 5);
    assert_eq!(Page::containing_address(VirtAddr::new(0x1234)).base().as_usize(), 0x1000);
    assert!(Page::try_from_start_address(VirtAddr::new(0x1001)).is_err());
}

#[test]
fn frames() {
    let f = Frame::within_frame(PhysAddr::new(0x5432));
    assert_eq!(f.base().as_u64(), 0x5000);
    assert_eq!(f.next().base().as_u64(), 0x6000);
    assert!(PhysAddr::try_new(1 << 52).is_err());
    assert_eq!(Frame::from_index(3).unwrap().addr().as_u64(), 3 * 4096);
}
