use kernel::mem::{Frame, PageFlags, PhysAddr, VirtAddr};
use kernel::page_table::{
    AnyPageTable, PageTableEntry, PageTableFlags, PageTableLevel, PageTableOffset, FLAGS_MASK, FRAME_MASK,
};

fn frame(addr: u64) -> Frame {
    Frame::from_start_address(PhysAddr::new(addr))
}

#[test]
fn entry_set_then_get() {
    let mut e = PageTableEntry::new();
    assert!(e.get().is_none());
    let flags = PageTableFlags::from_bits(PageTableFlags::PRESENT | PageTableFlags::WRITABLE).unwrap();
    assert!(e.set(frame(0x5000), flags).is_none());
    assert_eq!(e.get_raw(), 0x5003);
    let (f, fl) = e.get().unwrap();
    assert_eq!(f, frame(0x5000));
    assert_eq!(fl.bits(), 3);
    assert_eq!(e.frame(), Some(frame(0x5000)));
    let old = e.reset().unwrap();
    assert_eq!(old.0, frame(0x5000));
    assert!(e.get().is_none());
}

#[test]
fn entry_try_set_and_flags() {
    let mut e = PageTableEntry::new();
    let p = PageTableFlags::from_bits(PageTableFlags::PRESENT).unwrap();
    assert!(e.try_set(frame(0x7000), p).is_ok());
    let again = e.try_set(frame(0x8000), p);
    assert_eq!(again.unwrap_err().0, frame(0x7000));
    let nx = PageTableFlags::from_bits(PageTableFlags::NO_EXECUTE | PageTableFlags::PRESENT).unwrap();
    let old = e.set_flags(nx);
    assert_eq!(old.bits(), 1);
    assert_eq!(e.get_raw(), 0x8000_0000_0000_7001);
}

#[test]
fn flags_masks() {
    assert!(PageTableFlags::from_bits(0x1000).is_none());
    assert_eq!(PageTableFlags::from_bits_truncate(0x1234).bits(), 0x234);
    assert_eq!(FRAME_MASK | FLAGS_MASK, u64::MAX);
    let f = PageTableFlags::empty().with(PageTableFlags::HUGE_PAGE);
    assert!(f.contains(PageTableFlags::HUGE_PAGE));
    assert!(!f.contains(PageTableFlags::PRESENT));
}

#[test]
fn hardware_flags_from_page_flags() {
    // Readable segments are mapped writable as well; non-executable ones get NO_EXECUTE.
    let readable = PageFlags::from_mem_flags(true, false, false);
    assert_eq!(readable.bits(), 21);
    assert_eq!(PageTableFlags::from_page_flags(readable).bits(), 0x8000_0000_0000_0007);
    let x = PageFlags::from_mem_flags(false, false, true);
    assert_eq!(x.bits(), 25);
    assert_eq!(PageTableFlags::from_page_flags(x).bits(), 0x5);
    assert_eq!(PageTableFlags::from_page_flags(PageFlags::all()).bits(), 0x7);
}

#[test]
fn offsets_and_levels() {
    assert!(PageTableOffset::new(512).is_err());
    assert_eq!(PageTableOffset::new(3).unwrap().as_u16(), 3);
    assert!(PageTableOffset::try_from_usize(600).is_err());
    assert!(PageTableOffset::new(255).unwrap().is_lower_half());
    assert!(!PageTableOffset::new(256).unwrap().is_lower_half());
    assert_eq!(PageTableOffset::new_truncate(513).as_u16(), 1);
    assert!(PageTableLevel::try_new(5).is_err());
    assert!(PageTableLevel::try_new(0).is_err());
    let top = PageTableLevel::top();
    assert_eq!(top.level(), 4);
    let l3 = top.lower().unwrap();
    assert_eq!(l3.level(), 3);
    let l1 = l3.lower().unwrap().lower().unwrap();
    assert!(l1.is_bottom());
    assert!(l1.lower().is_none());
}

#[test]
fn address_indices() {
    let a = VirtAddr::new(0x0000_7FFF_FFFF_F000);
    assert_eq!(a.p4_index().as_u16(), 255);
    assert_eq!(a.p3_index().as_u16(), 511);
    assert_eq!(a.p2_index().as_u16(), 511);
    assert_eq!(a.p1_index().as_u16(), 511);
    let b = VirtAddr::new(0x40_3000);
    assert_eq!(b.p2_index().as_u16(), 2);
    assert_eq!(b.p1_index().as_u16(), 3);
    assert_eq!(b.page_table_index(PageTableLevel::new(2)).as_u16(), 2);
    assert_eq!(b.page_table_index(PageTableLevel::new(1)).as_u16(), 3);
}

#[test]
fn table_map_unmap() {
    let mut t = AnyPageTable::new();
    let off = PageTableOffset::new(7).unwrap();
    let p = PageTableFlags::from_bits(PageTableFlags::PRESENT).unwrap();
    assert!(t.map(off, frame(0x9000), p).is_none());
    assert_eq!(t.get(off).get_raw(), 0x9001);
    assert!(t.try_map(off, frame(0xA000), p).is_err());
    let w = PageTableFlags::from_bits(PageTableFlags::WRITABLE).unwrap();
    assert_eq!(t.set_flags(off, w).bits(), 1);
    assert_eq!(t.get(off).get_raw(), 0x9002);
    assert_eq!(t.unmap(off).unwrap().0, frame(0x9000));
    assert_eq!(t.get(off).get_raw(), 0);
}
