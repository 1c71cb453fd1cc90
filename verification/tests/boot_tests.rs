use kernel::addrspace::{PageTables, X64Addrspace};
use kernel::boot::bump_alloc::BumpFrameAllocator;
use kernel::boot::{find_init, find_initrd, init_file, BootLayout, InitLoader, InitrdError, LoadPageError, Process, TarFile};
use kernel::mem::MapPageError;
use kernel::mem::{Frame, Page, PageFlags};
use kernel::retyping::bump_alloc::{MemMapEntry, MEMMAP_USABLE};
use kernel::retyping::RetypeTable;

fn loader() -> InitLoader {
    let table = RetypeTable::new(&mut vec![MemMapEntry { base: 0, length: 0x20_0000, entry_type: MEMMAP_USABLE }]).unwrap();
    let mut alloc = BumpFrameAllocator::new(table);
    let l4 = alloc.alloc_kernel_frame().unwrap().into_raw();
    let mut tables = PageTables::new();
    tables.insert_table(l4, 4);
    InitLoader::new(X64Addrspace::from_frame(l4), alloc, tables)
}

#[test]
fn initrd_module_found() {
    let paths = vec![b"/boot/kernel".to_vec(), b"/boot/initrd.tar".to_vec(), b"initrd.tar".to_vec()];
    assert_eq!(find_initrd(&paths), Some(1));
    let none = vec![b"initrd.ta".to_vec(), b"initrd.tar.gz".to_vec(), Vec::new()];
    assert_eq!(find_initrd(&none), None);
}

#[test]
fn requested_pages_are_reused() {
    let mut l = loader();
    let readable = PageFlags::from_mem_flags(true, false, false);
    let page = Page::from_index(0x400).unwrap();
    let f = l.request_page(page, readable).unwrap();
    let g = l.request_page(page, readable).unwrap();
    assert_eq!(f, g);
    let frames = l.map_range(0x40_0800, 0x40_2001, readable).unwrap();
    assert_eq!(frames.len(), 3);
    assert_eq!(frames[0], f);
    let space = l.address_space();
    let (_, tables) = l.into_parts();
    assert_eq!(space.translate_page(&tables, Page::from_index(0x402).unwrap()).unwrap().0, frames[2]);
}

#[test]
fn process_layout() {
    let mut l = loader();
    let memory_map = vec![Frame::from_index(400).unwrap(), Frame::from_index(401).unwrap()];
    let loaded = Process::load(&mut l, 0x40_0100, 0x40_1234, 2, 5000, 48, &memory_map, 4).unwrap();
    let expected = BootLayout {
        stack_bottom: 0x0000_6FFF_FFFF_E000,
        stack_top: 0x0000_7000_0000_0000,
        memory_map_start: 0x40_2000,
        memory_map_end: 0x40_4000,
        initrd_start: 0x40_4000,
        initrd_end: 0x40_4000 + 5000,
        bootargs_start: 0x40_5390,
        bootargs_end: 0x40_53C0,
    };
    assert_eq!(loaded.layout, expected);
    assert_eq!(loaded.stack.len(), 2);
    assert_eq!(loaded.initrd.len(), 2);
    assert_eq!(loaded.bootargs.len(), 1);
    let regs = loaded.process.context.regs();
    assert_eq!(regs.control.rip, 0x40_0100);
    assert_eq!(regs.control.rsp, 0x0000_7000_0000_0000);
    assert_eq!(regs.scratch.rdi, 0x40_5390);
    let space = loaded.process.addrspace;
    let (_, tables) = l.into_parts();
    let untyped = Page::from_index(0x0000_7000_0000_0000 / 4096 + 3).unwrap();
    let (f, flags) = space.translate_page(&tables, untyped).unwrap();
    assert_eq!(f, Frame::from_index(3).unwrap());
    assert_eq!(flags.bits(), 0x8000_0000_0000_0001);
    let (mm, mflags) = space.translate_page(&tables, Page::from_index(0x403).unwrap()).unwrap();
    assert_eq!(mm, Frame::from_index(401).unwrap());
    assert_eq!(mflags.bits(), 0x8000_0000_0000_0005);
    for (k, frame) in loaded.stack.iter().enumerate() {
        let page = Page::from_index(0x0000_6FFF_FFFF_E000 / 4096 + k).unwrap();
        let (f, flags) = space.translate_page(&tables, page).unwrap();
        assert_eq!(f, *frame);
        assert_eq!(flags.bits(), 0x8000_0000_0000_0007);
    }
    for (k, frame) in loaded.initrd.iter().enumerate() {
        let (f, flags) = space.translate_page(&tables, Page::from_index(0x404 + k).unwrap()).unwrap();
        assert_eq!(f, *frame);
        assert_eq!(flags.bits(), 0x8000_0000_0000_0007);
    }
    let (f, flags) = space.translate_page(&tables, Page::from_index(0x405).unwrap()).unwrap();
    assert_eq!(f, loaded.bootargs[0]);
    assert_eq!(flags.bits(), 0x8000_0000_0000_0007);
}

/// A ustar header for a regular file `name` of `size` bytes.
fn tar_header(name: &[u8], size: usize) -> Vec<u8> {
    let mut h = vec![0u8; 512];
    h[..name.len()].copy_from_slice(name);
    let s = format!("{:011o}", size);
    h[124..135].copy_from_slice(s.as_bytes());
    h[156] = b'0';
    h[257..262].copy_from_slice(b"ustar");
    h[263..265].copy_from_slice(b"00");
    h
}

/// A tar archive of `files`, terminated by two zero blocks.
fn tar(files: &[(&[u8], &[u8])]) -> Vec<u8> {
    let mut out = Vec::new();
    for (name, data) in files {
        out.extend(tar_header(name, data.len()));
        let mut block = data.to_vec();
        block.resize(data.len().div_ceil(512) * 512, 0);
        out.extend(block);
    }
    out.extend(vec![0u8; 1024]);
    out
}

#[test]
fn init_is_found_in_the_ramdisk() {
    let image = tar(&[(b"boot", b"abc"), (b"init", b"\x7fELF!"), (b"other", b"zz")]);
    assert_eq!(find_init(&image), Ok(b"\x7fELF!".to_vec()));
}

#[test]
fn ramdisk_without_init() {
    let image = tar(&[(b"boot", b"abc"), (b"initial", b"no")]);
    assert_eq!(find_init(&image), Err(InitrdError::MissingInit));
}

#[test]
fn ramdisk_that_is_no_archive() {
    assert_eq!(find_init(&[0u8; 100]), Err(InitrdError::InvalidImage));
    assert_eq!(find_init(&[0u8; 1024]), Err(InitrdError::InvalidImage));
}

#[test]
fn first_init_among_listed_files() {
    let files = vec![
        TarFile { name: None, data: vec![1] },
        TarFile { name: Some(b"init".to_vec()), data: vec![2] },
        TarFile { name: Some(b"init".to_vec()), data: vec![3] },
    ];
    assert_eq!(init_file(files), Some(vec![2]));
    assert_eq!(init_file(vec![TarFile { name: Some(b"ini".to_vec()), data: vec![4] }]), None);
}

#[test]
fn mapping_fails_only_once_frames_run_out() {
    // Two frames of memory: one holds the level 4 table, the other backs the
    // first page, and nothing is left for its intermediate tables.
    let table = RetypeTable::new(&mut vec![MemMapEntry { base: 0, length: 0x2000, entry_type: MEMMAP_USABLE }]).unwrap();
    let mut alloc = BumpFrameAllocator::new(table);
    let l4 = alloc.alloc_kernel_frame().unwrap().into_raw();
    let mut tables = PageTables::new();
    tables.insert_table(l4, 4);
    let mut l = InitLoader::new(X64Addrspace::from_frame(l4), alloc, tables);
    let readable = PageFlags::from_mem_flags(true, false, false);
    assert!(matches!(
        l.map_range(0x40_0000, 0x40_1000, readable),
        Err(LoadPageError::MapError(MapPageError::AllocError(_))) | Err(LoadPageError::OutOfMemory(_))
    ));
}
