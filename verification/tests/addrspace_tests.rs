use kernel::addrspace::{PageTables, X64Addrspace};
use kernel::boot::bump_alloc::BumpFrameAllocator;
use kernel::mem::{Frame, MapPageError, Page, PageFlags};
use kernel::page_table::{PageTableFlags, PageTableOffset};
use kernel::retyping::bump_alloc::{MemMapEntry, MEMMAP_USABLE};
use kernel::retyping::RetypeTable;

fn setup(bytes: u64) -> (X64Addrspace, PageTables, BumpFrameAllocator) {
    let table = RetypeTable::new(&mut vec![MemMapEntry { base: 0, length: bytes, entry_type: MEMMAP_USABLE }]).unwrap();
    let mut alloc = BumpFrameAllocator::new(table);
    let l4 = alloc.alloc_kernel_frame().unwrap().into_raw();
    let mut tables = PageTables::new();
    tables.insert_table(l4, 4);
    (X64Addrspace::from_frame(l4), tables, alloc)
}

fn user_rw() -> PageFlags {
    PageFlags::from_bits_truncate(PageFlags::PRESENT | PageFlags::WRITABLE | PageFlags::USER_ACCESSIBLE)
}

#[test]
fn map_then_translate() {
    let (space, mut tables, mut alloc) = setup(0x10_0000);
    assert_eq!(space.frame().base().as_u64(), 0x1000);
    let page = Page::from_index(0x400).unwrap();
    let target = Frame::from_index(100).unwrap();
    let flusher = space.map_page(&mut tables, page, target, user_rw(), PageFlags::all(), &mut alloc).unwrap();
    assert_eq!(flusher.page(), page);
    flusher.ignore();
    let (f, fl) = space.translate_page(&tables, page).unwrap();
    assert_eq!(f, target);
    assert_eq!(fl.bits(), 0x8000_0000_0000_0007);
    // The walk created one table per level below the top, from the next free frames.
    assert_eq!(tables.level_of(Frame::from_index(2).unwrap()), 3);
    assert_eq!(tables.level_of(Frame::from_index(3).unwrap()), 2);
    assert_eq!(tables.level_of(Frame::from_index(4).unwrap()), 1);
    assert!(space.translate_page(&tables, Page::from_index(0x401).unwrap()).is_none());
}

#[test]
fn map_twice_is_already_mapped() {
    let (space, mut tables, mut alloc) = setup(0x10_0000);
    let page = Page::from_index(0x400).unwrap();
    let first = Frame::from_index(100).unwrap();
    space.map_page(&mut tables, page, first, user_rw(), PageFlags::all(), &mut alloc).unwrap().ignore();
    let second = space.map_page(&mut tables, page, Frame::from_index(101).unwrap(), user_rw(), PageFlags::all(), &mut alloc);
    match second {
        Err(MapPageError::AlreadyMapped(f)) => assert_eq!(f, first),
        _ => panic!("expected AlreadyMapped"),
    }
}

#[test]
fn earlier_mappings_persist() {
    let (space, mut tables, mut alloc) = setup(0x10_0000);
    let a = Page::from_index(0x400).unwrap();
    let b = Page::from_index(0x8_0000).unwrap();
    space.map_page(&mut tables, a, Frame::from_index(100).unwrap(), user_rw(), PageFlags::all(), &mut alloc).unwrap().ignore();
    space.map_page(&mut tables, b, Frame::from_index(101).unwrap(), user_rw(), PageFlags::all(), &mut alloc).unwrap().ignore();
    assert_eq!(space.translate_page(&tables, a).unwrap().0, Frame::from_index(100).unwrap());
    assert_eq!(space.translate_page(&tables, b).unwrap().0, Frame::from_index(101).unwrap());
}

#[test]
fn huge_parent_refused() {
    let (space, mut tables, mut alloc) = setup(0x10_0000);
    let page = Page::from_index(0x400).unwrap();
    let l3 = Frame::from_index(50).unwrap();
    tables.insert_table(l3, 3);
    let huge = PageTableFlags::from_bits(PageTableFlags::PRESENT | PageTableFlags::HUGE_PAGE).unwrap();
    tables.link_entry(space.frame(), PageTableOffset::new(0).unwrap(), l3, huge);
    let r = space.map_page(&mut tables, page, Frame::from_index(100).unwrap(), user_rw(), PageFlags::all(), &mut alloc);
    assert!(matches!(r, Err(MapPageError::HugeParentEntry)));
}

#[test]
fn out_of_frames_for_tables() {
    // Four frames: one holds the retype table, one the level 4 table, two more are
    // left for intermediate tables, one short of the three needed.
    let (space, mut tables, mut alloc) = setup(0x4000);
    let page = Page::from_index(0x400).unwrap();
    let r = space.map_page(&mut tables, page, Frame::from_index(100).unwrap(), user_rw(), PageFlags::all(), &mut alloc);
    assert!(matches!(r, Err(MapPageError::AllocError(_))));
    assert!(space.translate_page(&tables, page).is_none());
}

#[test]
fn kernel_half_shared() {
    let (space, mut tables, mut alloc) = setup(0x10_0000);
    let kernel_l3 = Frame::from_index(60).unwrap();
    tables.insert_table(kernel_l3, 3);
    let p = PageTableFlags::from_bits(PageTableFlags::PRESENT).unwrap();
    tables.link_entry(space.frame(), PageTableOffset::new(300).unwrap(), kernel_l3, p);
    let user_page = Page::from_index(0x400).unwrap();
    space.map_page(&mut tables, user_page, Frame::from_index(100).unwrap(), user_rw(), PageFlags::all(), &mut alloc).unwrap().ignore();
    let fresh = Frame::from_index(70).unwrap();
    let other = X64Addrspace::new_with_kernel_entries(fresh, &space, &mut tables);
    let entries = tables.entries(other.frame());
    assert_eq!(entries.len(), 512);
    assert_eq!(entries[300], 60 * 4096 + 1);
    assert_eq!(entries[0], 0);
    assert!(other.translate_page(&tables, user_page).is_none());
}
