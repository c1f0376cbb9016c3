use nonameos::loader::{self, LoadError};
use nonameos::memory::paging::{self, PageEntry};
use nonameos::memory::phys::{self, FrameAllocator};
use nonameos::memory::ram;
use nonameos::task::TaskIds;
use nonameos::userspace;
use nonameos::win32::pe;
use nonameos::win32::types::NTSTATUS;

const MEMORY: usize = 8 * 1024 * 1024;
const BASE: u64 = 0x1_4000_0000;

/// A machine with an empty address space.
fn machine() -> (Box<FrameAllocator>, Vec<u8>, u64) {
    let mut a = Box::new(FrameAllocator::new());
    phys::init(&mut a, MEMORY, 0x10_0000, 0x10_2000);
    let mut m = vec![0xAAu8; MEMORY];
    let cr3 = phys::alloc_frame(&mut a).unwrap();
    paging::zero_frame(&mut m, cr3);
    (a, m, cr3 as u64)
}

/// The entry of a virtual address, if its page is mapped for user mode.
fn entry(m: &[u8], cr3: u64, virt: u64) -> Option<PageEntry> {
    let mut at = cr3 as usize;
    let mut last = PageEntry(0);
    for i in [
        paging::pml4_index(virt),
        paging::pdpt_index(virt),
        paging::pd_index(virt),
        paging::pt_index(virt),
    ] {
        let e = PageEntry(ram::read_u64(m, at + 8 * i));
        if e.flags() & 5 != 5 {
            return None;
        }
        at = e.address() as usize;
        last = e;
    }
    Some(last)
}

/// The byte at a virtual address, if its page is mapped for user mode.
fn byte(m: &[u8], cr3: u64, virt: u64) -> Option<u8> {
    entry(m, cr3, virt).map(|e| m[e.address() as usize + (virt % 4096) as usize])
}

/// Whether user mode may write to a page, and execute it.
fn rights(m: &[u8], cr3: u64, virt: u64) -> (bool, bool) {
    let flags = entry(m, cr3, virt).unwrap().flags();
    (flags & paging::flags::WRITABLE != 0, flags & paging::flags::NO_EXECUTE == 0)
}

fn put16(d: &mut [u8], at: usize, v: u16) {
    d[at..at + 2].copy_from_slice(&v.to_le_bytes());
}

fn put32(d: &mut [u8], at: usize, v: u32) {
    d[at..at + 4].copy_from_slice(&v.to_le_bytes());
}

fn section(d: &mut [u8], i: usize, name: &[u8], size: u32, at: u32, raw: u32, file: u32) {
    let o = 0x148 + 40 * i;
    d[o..o + name.len()].copy_from_slice(name);
    put32(d, o + 8, size);
    put32(d, o + 12, at);
    put32(d, o + 16, raw);
    put32(d, o + 20, file);
}

/// An image with two sections that imports from one library.
fn image() -> Vec<u8> {
    let mut d = vec![0u8; 0x800];
    put16(&mut d, 0, 0x5A4D);
    put32(&mut d, 60, 0x40);
    put32(&mut d, 0x40, 0x4550);
    put16(&mut d, 0x44, 0x8664);
    put16(&mut d, 0x46, 2);
    put16(&mut d, 0x54, 240);
    put16(&mut d, 0x56, 0x22);
    put16(&mut d, 0x58, 0x20B);
    put32(&mut d, 0x58 + 16, 0x1004);
    d[0x58 + 24..0x58 + 32].copy_from_slice(&BASE.to_le_bytes());
    put32(&mut d, 0x58 + 56, 0x4000);
    put32(&mut d, 0x58 + 60, 0x400);
    put16(&mut d, 0x58 + 68, 3);
    put32(&mut d, 0x58 + 108, 16);
    put32(&mut d, 0x58 + 112 + 8, 0x2040);
    put32(&mut d, 0x58 + 112 + 12, 40);
    section(&mut d, 0, b".text", 0x20, 0x1000, 0x200, 0x400);
    section(&mut d, 1, b".data", 0x1800, 0x2000, 0x200, 0x600);
    for i in 0..0x200 {
        d[0x400 + i] = i as u8;
    }
    d[0x600] = 0x77;
    put32(&mut d, 0x640, 1);
    put32(&mut d, 0x640 + 12, 0x2080);
    d[0x680..0x68C].copy_from_slice(b"KERNEL32.dll");
    d
}

#[test]
fn the_headers_of_an_image_are_read() {
    let p = pe::parse_pe(&image()).ok().unwrap();
    assert_eq!(p.dos.e_lfanew, 0x40);
    assert_eq!(p.coff.machine, pe::IMAGE_FILE_MACHINE_AMD64);
    assert_eq!(p.optional.image_base, BASE);
    assert_eq!(p.optional.size_of_image, 0x4000);
    assert_eq!(p.sections.len(), 2);
    assert_eq!(p.sections[1].virtual_address, 0x2000);
    assert_eq!(loader::section_name(&p.sections[0]), b".text".to_vec());
    assert_eq!(loader::subsystem_name(p.optional.subsystem), "Console");
}

fn refusal(change: &dyn Fn(&mut Vec<u8>)) -> u32 {
    let mut d = image();
    change(&mut d);
    match pe::parse_pe(&d) {
        Ok(_) => 0,
        Err(e) => e.0,
    }
}

#[test]
fn files_that_are_no_images_are_refused() {
    assert_eq!(refusal(&|_| ()), 0);
    assert_eq!(refusal(&|d| d.truncate(63)), 0xC000_007B);
    assert_eq!(refusal(&|d| d[0] = 0), 0xC000_012F);
    assert_eq!(refusal(&|d| put32(d, 60, 0x800)), 0xC000_007B);
    assert_eq!(refusal(&|d| put32(d, 60, 0xFFFF_FFFF)), 0xC000_007B);
    assert_eq!(refusal(&|d| d[0x40] = 0), 0xC000_007B);
    assert_eq!(refusal(&|d| d.truncate(0x50)), 0xC000_007B);
    assert_eq!(refusal(&|d| d.truncate(0x80)), 0xC000_007B);
    assert_eq!(refusal(&|d| put16(d, 0x58, 0x10B)), pe_mismatch());
    assert_eq!(refusal(&|d| put16(d, 0x46, 100)), 0xC000_007B);
}

fn pe_mismatch() -> u32 {
    nonameos::win32::error::STATUS_IMAGE_MACHINE_TYPE_MISMATCH
}

#[test]
fn relative_addresses_are_found_in_the_file() {
    let p = pe::parse_pe(&image()).ok().unwrap();
    assert_eq!(loader::rva_to_offset(0x1004, &p), Some(0x404));
    assert_eq!(loader::rva_to_offset(0x2040, &p), Some(0x640));
    assert_eq!(loader::rva_to_offset(0x1020, &p), None);
    assert_eq!(loader::rva_to_offset(0, &p), None);
}

#[test]
fn imported_libraries_are_listed() {
    let d = image();
    let p = pe::parse_pe(&d).ok().unwrap();
    assert_eq!(loader::log_imports(&d, &p), vec![b"KERNEL32.dll".to_vec()]);
    let mut none = image();
    put32(&mut none, 0x58 + 112 + 8, 0);
    let p = pe::parse_pe(&none).ok().unwrap();
    assert!(loader::log_imports(&none, &p).is_empty());
}

#[test]
fn a_loaded_image_shows_its_sections() {
    let (mut a, mut m, cr3) = machine();
    let d = image();
    let r = loader::load_pe(&mut a, &mut m, cr3, &d, "demo").unwrap();
    assert_eq!(r.entry_point, BASE + 0x1004);
    assert_eq!((r.image_base, r.image_size), (BASE, 0x4000));
    assert_eq!(r.sections_loaded, 2);
    assert_eq!((r.subsystem, r.machine), (3, 0x8664));
    assert_eq!(r.user_stack_top, userspace::USER_STACK_TOP);
    assert_ne!(r.cr3, cr3);
    assert_eq!(byte(&m, r.cr3, BASE), Some(b'M'));
    assert_eq!(byte(&m, r.cr3, BASE + 0x1005), Some(5));
    assert_eq!(byte(&m, r.cr3, BASE + 0x2000), Some(0x77));
    assert_eq!(byte(&m, r.cr3, BASE + 0x2000 + 0x200), Some(0));
    assert_eq!(byte(&m, r.cr3, BASE + 0x3FFF), Some(0));
    assert_eq!(byte(&m, r.cr3, BASE + 0x4000), None);
    assert_eq!(byte(&m, r.cr3, userspace::USER_STACK_TOP - 1), Some(0));
    assert_eq!(byte(&m, r.cr3, userspace::USER_STACK_TOP), None);
    assert_eq!(byte(&m, cr3, BASE), None);
}

#[test]
fn loaded_sections_have_their_rights() {
    let (mut a, mut m, cr3) = machine();
    let mut d = image();
    put32(&mut d, 0x148 + 36, 0x6000_0020);
    put32(&mut d, 0x148 + 40 + 36, 0xC000_0040);
    let r = loader::load_pe(&mut a, &mut m, cr3, &d, "demo").unwrap();
    assert_eq!(rights(&m, r.cr3, BASE + 0x1000), (false, true));
    assert_eq!(rights(&m, r.cr3, BASE + 0x2000), (true, false));
    assert_eq!(rights(&m, r.cr3, BASE + 0x3000), (true, false));
    assert_eq!(rights(&m, r.cr3, BASE), (true, true));
    assert_eq!(rights(&m, r.cr3, userspace::USER_STACK_TOP - 1), (true, true));
    put32(&mut d, 0x148 + 36, 0x4000_0040);
    let r = loader::load_pe(&mut a, &mut m, cr3, &d, "demo").unwrap();
    assert_eq!(rights(&m, r.cr3, BASE + 0x1000), (false, false));
    assert_eq!(byte(&m, r.cr3, BASE + 0x1005), Some(5));
}

#[test]
fn the_entry_of_a_page_tells_its_rights() {
    assert_eq!(paging::rights(true, true), 0x7);
    assert_eq!(paging::rights(false, true), 0x5);
    assert_eq!(paging::rights(true, false), 0x8000_0000_0000_0007);
    assert_eq!(paging::rights(false, false), 0x8000_0000_0000_0005);
}

fn load_error(change: &dyn Fn(&mut Vec<u8>)) -> LoadError {
    let (mut a, mut m, cr3) = machine();
    let mut d = image();
    change(&mut d);
    loader::load_pe(&mut a, &mut m, cr3, &d, "bad").unwrap_err()
}

#[test]
fn images_that_cannot_be_loaded_are_told_apart() {
    assert_eq!(load_error(&|d| d[0] = 0), LoadError::InvalidPe(NTSTATUS(0xC000_012F)));
    assert_eq!(load_error(&|d| put16(d, 0x44, 0x14C)), LoadError::WrongArchitecture);
    assert_eq!(load_error(&|d| put16(d, 0x56, 0x2022)), LoadError::NotExecutable);
    assert_eq!(load_error(&|d| put32(d, 0x58 + 56, 0x100_0001)), LoadError::ImageTooLarge);
    assert_eq!(
        load_error(&|d| put32(d, 0x58 + 60, 0x801)),
        LoadError::InvalidPe(NTSTATUS(0xC000_007B))
    );
    assert_eq!(load_error(&|d| put32(d, 0x148 + 8, 0x40_0001)), LoadError::SectionTooLarge);
    assert_eq!(load_error(&|d| put32(d, 0x148 + 8, 0x40_0000)), LoadError::OutOfMemory);
}

#[test]
fn without_frames_nothing_is_loaded() {
    let (mut a, mut m, cr3) = machine();
    while phys::alloc_frame(&mut a).is_some() {}
    let d = image();
    assert_eq!(loader::load_pe(&mut a, &mut m, cr3, &d, "x").unwrap_err(), LoadError::OutOfMemory);
    assert_eq!(
        loader::load_raw_binary(&mut a, &mut m, cr3, &[0x90], "x").unwrap_err(),
        LoadError::OutOfMemory
    );
    assert_eq!(userspace::create_address_space(&mut a, &mut m, cr3), None);
}

#[test]
fn a_bare_binary_starts_at_its_first_byte() {
    let (mut a, mut m, cr3) = machine();
    let mut code = vec![0x90u8; 5000];
    code[4999] = 0xC3;
    let r = loader::load_raw_binary(&mut a, &mut m, cr3, &code, "raw").unwrap();
    assert_eq!(r.entry_point, 0x40_0000);
    assert_eq!(r.image_size, 8192);
    assert_eq!(byte(&m, r.cr3, 0x40_0000), Some(0x90));
    assert_eq!(byte(&m, r.cr3, 0x40_0000 + 4999), Some(0xC3));
    assert_eq!(byte(&m, r.cr3, 0x40_0000 + 5000), Some(0));
    assert_eq!(byte(&m, r.cr3, 0x40_2000), None);
    let large = vec![0u8; 257 * 4096];
    assert_eq!(
        loader::load_raw_binary(&mut a, &mut m, cr3, &large, "large").unwrap_err(),
        LoadError::OutOfMemory
    );
}

#[test]
fn enough_frames_load_a_binary_and_make_a_process() {
    for n in 0..2 {
        let (mut a, mut m, cr3) = machine();
        // One for the root table, four for each page of the program and the stack.
        while phys::free_count(&a) > 1 + 4 * (1 + 16) {
            phys::alloc_frame(&mut a);
        }
        if n == 0 {
            assert!(loader::load_raw_binary(&mut a, &mut m, cr3, &[0x90], "raw").is_ok());
        } else {
            let mut ids = TaskIds::new();
            let p = userspace::create_process(&mut ids, &mut a, &mut m, cr3, &[0x90], 1, 0, "p");
            assert!(p.is_some());
        }
    }
}

#[test]
fn a_loaded_image_keeps_the_kernel_mapped() {
    let (mut a, mut m, cr3) = machine();
    ram::write_u64(&mut m, cr3 as usize + 8 * 300, 0x5003);
    let d = image();
    let r = loader::load_pe(&mut a, &mut m, cr3, &d, "demo").unwrap();
    assert_eq!(ram::read_u64(&m, r.cr3 as usize + 8 * 300), 0x5003);
    assert_eq!(byte(&m, r.cr3, BASE + 0x40), Some(b'P'));
    assert_eq!(byte(&m, r.cr3, BASE + 0x400), Some(0));
    assert_eq!(byte(&m, r.cr3, userspace::USER_STACK_TOP - 65_536), Some(0));
}

#[test]
fn a_new_space_holds_the_kernel_alone() {
    let (mut a, mut m, cr3) = machine();
    ram::write_u64(&mut m, cr3 as usize + 8, 0x1003);
    ram::write_u64(&mut m, cr3 as usize + 8 * 256, 0x2003);
    ram::write_u64(&mut m, cr3 as usize + 8 * 511, 0x3003);
    let s = userspace::create_address_space(&mut a, &mut m, cr3).unwrap() as usize;
    assert_eq!(ram::read_u64(&m, s + 8), 0);
    assert_eq!(ram::read_u64(&m, s + 8 * 255), 0);
    assert_eq!(ram::read_u64(&m, s + 8 * 256), 0x2003);
    assert_eq!(ram::read_u64(&m, s + 8 * 511), 0x3003);
}

#[test]
fn a_new_process_finds_its_image() {
    let (mut a, mut m, cr3) = machine();
    let mut ids = TaskIds::new();
    let before = phys::free_count(&a);
    let p = userspace::create_process(
        &mut ids,
        &mut a,
        &mut m,
        cr3,
        &userspace::DEMO_USER_CODE,
        userspace::DEMO_IMAGE_SIZE,
        userspace::DEMO_ENTRY_RVA,
        "demo",
    )
    .unwrap();
    assert_eq!((p.pid, p.tid), (1, 1));
    assert_eq!(p.entry_point, 0x40_0000);
    assert_eq!(p.stack_top, 0x7FFF_FFFF_0000);
    assert!(ids == TaskIds { next_pid: 2, next_tid: 2 });
    // The root table, one page with three tables, and 16 pages with three.
    assert_eq!(phys::free_count(&a), before - 1 - 4 - 19);
    for (i, b) in userspace::DEMO_USER_CODE.iter().enumerate() {
        assert_eq!(byte(&m, p.cr3, 0x40_0000 + i as u64), Some(*b));
    }
    assert_eq!(byte(&m, p.cr3, 0x40_0FFF), Some(0));
    assert_eq!(byte(&m, p.cr3, 0x7FFF_FFFE_0000), Some(0));
    assert_eq!(byte(&m, p.cr3, 0x7FFF_FFFD_FFFF), None);
}

#[test]
fn a_process_with_too_large_an_image_is_not_made() {
    let (mut a, mut m, cr3) = machine();
    let mut ids = TaskIds::new();
    let r = userspace::create_process(&mut ids, &mut a, &mut m, cr3, &[], 257 * 4096, 0, "large");
    assert!(r.is_none());
    assert!(ids == TaskIds::new());
}

#[test]
fn pages_and_stacks_are_mapped_for_user_mode() {
    let (mut a, mut m, cr3) = machine();
    assert!(userspace::map_user_pages(&mut a, &mut m, cr3, 0x80_0000, b"abc", 4097));
    assert_eq!(byte(&m, cr3, 0x80_0002), Some(b'c'));
    assert_eq!(byte(&m, cr3, 0x80_0003), Some(0));
    assert_eq!(byte(&m, cr3, 0x80_1FFF), Some(0));
    assert_eq!(byte(&m, cr3, 0x80_2000), None);
    assert!(!userspace::map_user_pages(&mut a, &mut m, cr3, 0x80_0000, b"", 257 * 4096));
    assert_eq!(
        userspace::alloc_user_stack(&mut a, &mut m, cr3),
        Some(userspace::USER_STACK_TOP)
    );
    assert_eq!(byte(&m, cr3, userspace::USER_STACK_TOP - 65_536), Some(0));
}

#[test]
fn user_mode_is_entered_with_its_selectors() {
    assert_eq!(
        userspace::usermode_frame(0x40_0000, 0x7FFF_FFFF_0000),
        [0x1B, 0x7FFF_FFFF_0000, 0x202, 0x23, 0x40_0000]
    );
}
