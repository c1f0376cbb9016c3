use nonameos::memory::paging::{self, PageEntry, PageTable};
use nonameos::memory::paging::flags;
use nonameos::memory::phys::{self, FrameAllocator};
use nonameos::memory::{align_up, ram};

const MEMORY: usize = 4 * 1024 * 1024;

fn frames() -> Box<FrameAllocator> {
    let mut a = Box::new(FrameAllocator::new());
    phys::init(&mut a, MEMORY, 0x10_0000, 0x10_2000);
    a
}

#[test]
fn first_frame_is_behind_the_reserved_memory() {
    let mut a = frames();
    assert_eq!(phys::total_count(&a), 1024);
    assert_eq!(phys::alloc_frame(&mut a), Some(0x10_2000));
}

#[test]
fn the_first_megabyte_and_the_kernel_are_taken_at_boot() {
    let a = frames();
    assert_eq!(phys::free_count(&a), 1024 - 256 - 2);
    assert_eq!(phys::free_memory_kb(&a), 3064);
    assert_eq!(phys::total_memory_kb(&a), 4096);
}

#[test]
fn a_kernel_that_ends_inside_a_frame_keeps_that_frame() {
    let mut a = Box::new(FrameAllocator::new());
    phys::init(&mut a, MEMORY, 0x10_0800, 0x10_2001);
    assert_eq!(phys::alloc_frame(&mut a), Some(0x10_3000));
}

#[test]
fn initialising_again_forgets_what_was_taken() {
    let mut a = frames();
    phys::alloc_frame(&mut a);
    phys::alloc_frame(&mut a);
    phys::init(&mut a, MEMORY, 0x10_0000, 0x10_2000);
    assert_eq!(phys::free_count(&a), 766);
    assert_eq!(phys::alloc_frame(&mut a), Some(0x10_2000));
}

#[test]
fn memory_beyond_the_bitmap_is_not_used() {
    let mut a = Box::new(FrameAllocator::new());
    phys::init(&mut a, 1024 * 1024 * 1024, 0x10_0000, 0x10_0000);
    assert_eq!(phys::total_count(&a), 131_072);
    assert_eq!(phys::free_count(&a), 131_072 - 256);
}

#[test]
fn every_free_frame_can_be_had_once() {
    let mut a = frames();
    let mut last = 0;
    for _ in 0..766 {
        let f = phys::alloc_frame(&mut a).unwrap();
        assert!(f > last && f % 4096 == 0 && f < MEMORY);
        last = f;
    }
    assert_eq!(phys::free_count(&a), 0);
    assert_eq!(phys::alloc_frame(&mut a), None);
}

#[test]
fn freeing_undoes_allocating() {
    let mut a = frames();
    let first = phys::alloc_frame(&mut a).unwrap();
    let second = phys::alloc_frame(&mut a).unwrap();
    assert_ne!(first, second);
    phys::free_frame(&mut a, first);
    assert_eq!(phys::free_count(&a), 765);
    assert_eq!(phys::alloc_frame(&mut a), Some(first));
}

#[test]
fn freeing_twice_counts_once() {
    let mut a = frames();
    let f = phys::alloc_frame(&mut a).unwrap();
    phys::free_frame(&mut a, f);
    phys::free_frame(&mut a, f);
    assert_eq!(phys::free_count(&a), 766);
}

#[test]
fn freeing_beyond_the_memory_changes_nothing() {
    let mut a = frames();
    phys::free_frame(&mut a, MEMORY);
    assert_eq!(phys::free_count(&a), 766);
}

#[test]
fn frames_and_addresses_convert() {
    assert_eq!(phys::addr_to_frame(0x10_2FFF), 258);
    assert_eq!(phys::frame_to_addr(258), 0x10_2000);
    assert_eq!(align_up(0x1001, 4096), 0x2000);
    assert_eq!(align_up(0x1000, 4096), 0x1000);
    assert_eq!(align_up(7, 5), 10);
}

#[test]
fn a_stored_word_is_read_back_and_others_stay() {
    let mut m = vec![0u8; 64];
    ram::write_u64(&mut m, 8, 0x0102_0304_0506_0708);
    ram::write_u64(&mut m, 16, 0x1111);
    assert_eq!(ram::read_u64(&m, 8), 0x0102_0304_0506_0708);
    assert_eq!(m[8], 0x08);
    assert_eq!(m[15], 0x01);
    assert_eq!(ram::read_u32(&m, 8), 0x0506_0708);
    assert_eq!(ram::read_u16(&m, 10), 0x0506);
    assert_eq!(ram::read_u64(&m, 16), 0x1111);
    assert_eq!(ram::read_u64(&m, 24), 0);
}

#[test]
fn bytes_are_filled_and_copied_in_place() {
    let mut m = vec![0u8; 16];
    ram::fill(&mut m, 2, 3, 7);
    assert_eq!(m[..6], [0, 0, 7, 7, 7, 0]);
    ram::copy(&mut m, 10, &[1, 2, 3, 4], 1, 2);
    assert_eq!(m[9..13], [0, 2, 3, 0]);
    ram::copy_within(&mut m, 0, 10, 2);
    assert_eq!(m[..3], [2, 3, 7]);
}

#[test]
fn an_entry_gives_back_address_and_flags() {
    let e = PageEntry::new(0x0000_1234_5678_9000, flags::PRESENT | flags::WRITABLE);
    assert!(e.is_present());
    assert_eq!(e.address(), 0x0000_1234_5678_9000);
    assert_eq!(e.flags(), 3);
    assert_eq!(e.0, 0x0000_1234_5678_9003);
    assert!(!PageEntry::empty().is_present());
    assert_eq!(PageEntry::new(0x1FFF, flags::NO_EXECUTE).address(), 0x1000);
    assert_eq!(PageEntry::new(0x1FFF, flags::NO_EXECUTE).flags(), flags::NO_EXECUTE);
    // Bits 52 to 62 are neither address nor flags.
    assert_eq!(PageEntry::new(0x1FFF, u64::MAX).flags(), 0x8000_0000_0000_0FFF);
}

#[test]
fn an_empty_table_maps_nothing() {
    let t = PageTable::empty();
    for e in t.entries.iter() {
        assert!(!e.is_present());
    }
}

#[test]
fn an_address_splits_into_four_indices() {
    let v = (1u64 << 39) | (2 << 30) | (3 << 21) | (4 << 12) | 5;
    assert_eq!(paging::pml4_index(v), 1);
    assert_eq!(paging::pdpt_index(v), 2);
    assert_eq!(paging::pd_index(v), 3);
    assert_eq!(paging::pt_index(v), 4);
    assert_eq!(paging::pml4_index(0xFFFF_8000_0000_0000), 256);
}

/// Follows the tables of `m` to the entry of the page of `virt`.
fn leaf(m: &[u8], pml4: usize, virt: u64) -> Option<u64> {
    let mut at = pml4;
    for i in [
        paging::pml4_index(virt),
        paging::pdpt_index(virt),
        paging::pd_index(virt),
    ] {
        let e = PageEntry(ram::read_u64(m, at + 8 * i));
        if !e.is_present() {
            return None;
        }
        at = e.address() as usize;
    }
    let e = PageEntry(ram::read_u64(m, at + 8 * paging::pt_index(virt)));
    if e.is_present() {
        Some(e.0)
    } else {
        None
    }
}

#[test]
fn mapping_a_page_maps_that_page_alone() {
    let mut a = frames();
    let mut m = vec![0xAAu8; MEMORY];
    let pml4 = phys::alloc_frame(&mut a).unwrap();
    paging::zero_frame(&mut m, pml4);
    let before = phys::free_count(&a);
    paging::map_page(&mut a, &mut m, pml4 as u64, 0x40_0000, 0x30_0000, true);
    assert_eq!(phys::free_count(&a), before - 3);
    assert_eq!(leaf(&m, pml4, 0x40_0000), Some(0x30_0007));
    assert_eq!(leaf(&m, pml4, 0x40_1000), None);
    assert_eq!(leaf(&m, pml4, 0x3F_F000), None);

    paging::map_page(&mut a, &mut m, pml4 as u64, 0x40_1000, 0x30_1000, false);
    assert_eq!(phys::free_count(&a), before - 3);
    assert_eq!(leaf(&m, pml4, 0x40_0000), Some(0x30_0007));
    assert_eq!(leaf(&m, pml4, 0x40_1000), Some(0x30_1003));
}

#[test]
fn unmapping_a_page_unmaps_that_page_alone() {
    let mut a = frames();
    let mut m = vec![0u8; MEMORY];
    let pml4 = phys::alloc_frame(&mut a).unwrap();
    paging::zero_frame(&mut m, pml4);
    paging::map_page(&mut a, &mut m, pml4 as u64, 0x40_0000, 0x30_0000, true);
    paging::map_page(&mut a, &mut m, pml4 as u64, 0x40_1000, 0x30_1000, true);
    assert!(paging::unmap_page(&mut m, pml4 as u64, 0x40_0000));
    assert_eq!(leaf(&m, pml4, 0x40_0000), None);
    assert_eq!(leaf(&m, pml4, 0x40_1000), Some(0x30_1007));
    assert!(!paging::unmap_page(&mut m, pml4 as u64, 0x8000_0000_0000 - 4096));
}
