//! User processes: address spaces, the pages of an image, the user stack.
//!
//! The lower half of an address space belongs to the process, the upper half
//! to the kernel, which is mapped into every process.

use vstd::prelude::*;
use crate::gdt;
use crate::memory::paging;
use crate::memory::paging::space;
use crate::memory::paging::Mem;
use crate::memory::phys;
use crate::memory::phys::FrameAllocator;
use crate::memory::ram;
use crate::task;
use crate::task::{Pid, TaskIds, Tid};

verus! {

/// Where an image is mapped.
pub const USER_IMAGE_BASE: u64 = 0x0000_0000_0040_0000;

/// The top of the user stack.
pub const USER_STACK_TOP: u64 = 0x0000_7FFF_FFFF_0000;

/// Where the memory of programs ends.
pub const USER_END: u64 = 0x0000_8000_0000_0000;

/// Bytes of the user stack.
pub const USER_STACK_SIZE: usize = 65_536;

/// The most pages that one mapping may have: 1 MiB.
pub const MAX_IMAGE_PAGES: usize = 256;

/// A user process, ready to be started.
#[derive(Clone, Copy, PartialEq, Eq, Structural)]
pub struct UserProcess {
    pub pid: Pid,
    pub tid: Tid,
    /// The physical address of its PML4.
    pub cr3: u64,
    pub entry_point: u64,
    pub stack_top: u64,
}

/// The memory with a new PML4 in the lowest free frame: the lower half empty,
/// the upper half that of the PML4 at `current`.
pub open spec fn space_made(m: Mem, current: int) -> Mem {
    let w = m.fresh();
    Mem {
        bytes: ram::patched(
            w.bytes,
            m.fresh_addr() + 2048,
            w.bytes.subrange(current + 2048, current + 4096),
        ),
        frames: w.frames,
    }
}

/// Makes a new address space with the kernel mapped into its upper half, and
/// returns the physical address of its PML4. `current_cr3` is the address
/// space to take the kernel's mappings from.
pub fn create_address_space(
    frames: &mut FrameAllocator,
    bytes: &mut [u8],
    current_cr3: u64,
) -> (r: Option<u64>)
    requires
        old(frames).wf(),
        paging::mem(old(frames), old(bytes)@).sane(),
        current_cr3 % 4096 == 0,
        current_cr3 + 4096 <= old(bytes).len(),
    ensures
        final(frames).wf(),
        paging::mem(final(frames), final(bytes)@).sane(),
        ({
            let m = paging::mem(old(frames), old(bytes)@);
            let w = paging::mem(final(frames), final(bytes)@);
            if m.frames.lowest_free() is Some {
                r == Some(m.fresh_addr() as u64) && w == space_made(m, current_cr3 as int)
            } else {
                r is None && w == m
            }
        }),
{
    let ghost m = paging::mem(frames, bytes@);
    match phys::alloc_frame(frames) {
        Some(frame) => {
            proof {
                space::lemma_fresh(m);
            }
            paging::zero_frame(bytes, frame);
            ram::copy_within(bytes, frame + 2048, current_cr3 as usize + 2048, 2048);
            Some(frame as u64)
        },
        None => None,
    }
}

/// How many pages a size takes.
pub open spec fn page_count(size: int) -> int {
    (size + 4095) / 4096
}

/// Page `i` of some data: zeros where the data has ended.
pub open spec fn page_of(data: Seq<u8>, i: int) -> Seq<u8> {
    Seq::new(
        4096,
        |k: int|
            if i * 4096 + k < data.len() {
                data[i * 4096 + k]
            } else {
                0
            },
    )
}

/// The memory with page `i` of some data in the lowest free frame.
pub open spec fn page_loaded(m: Mem, data: Seq<u8>, i: int) -> Mem {
    Mem {
        bytes: ram::patched(m.bytes, m.fresh_addr(), page_of(data, i)),
        frames: m.fresh().frames,
    }
}

/// The memory once the pages `i` to `n - 1` of some data are mapped from
/// `virt_base` on with the flags `rights`, and whether there was a frame for
/// each. `None` if a page table lacks a frame or does not lie in the RAM.
pub open spec fn pages_mapped(
    m: Mem,
    cr3: int,
    virt_base: u64,
    data: Seq<u8>,
    rights: u64,
    i: int,
    n: int,
) -> Option<(Mem, bool)>
    decreases n - i,
{
    if i >= n {
        Some((m, true))
    } else if m.frames.lowest_free() is None {
        Some((m, false))
    } else {
        match page_loaded(m, data, i).mapped_as(
            cr3,
            (virt_base + i * 4096) as u64,
            m.fresh_addr() as u64,
            paging::map_flags(true),
            rights,
        ) {
            Some(w) => pages_mapped(w, cr3, virt_base, data, rights, i + 1, n),
            None => None,
        }
    }
}

/// Maps `total_size` bytes, rounded up to whole pages, from `virt_base` on, for
/// user mode, which may write to them and execute them. `data` is copied into
/// the pages; the rest of them is zero.
/// Returns whether it went well: not if there are more than `MAX_IMAGE_PAGES`
/// pages, or too few frames. Frames taken by then stay taken.
pub fn map_user_pages(
    frames: &mut FrameAllocator,
    bytes: &mut [u8],
    cr3: u64,
    virt_base: u64,
    data: &[u8],
    total_size: usize,
) -> (r: bool)
    requires
        old(frames).wf(),
        paging::mem(old(frames), old(bytes)@).sane(),
        total_size + 4095 <= usize::MAX,
        ({
            let n = page_count(total_size as int);
            n <= MAX_IMAGE_PAGES ==> {
                &&& virt_base + n * 4096 <= u64::MAX
                &&& pages_mapped(
                    paging::mem(old(frames), old(bytes)@),
                    cr3 as int,
                    virt_base,
                    data@,
                    paging::map_flags(true),
                    0,
                    n,
                ) is Some
            }
        }),
    ensures
        final(frames).wf(),
        paging::mem(final(frames), final(bytes)@).sane(),
        ({
            let m = paging::mem(old(frames), old(bytes)@);
            let w = paging::mem(final(frames), final(bytes)@);
            let n = page_count(total_size as int);
            if n > MAX_IMAGE_PAGES {
                !r && w == m
            } else {
                Some((w, r)) == pages_mapped(m, cr3 as int, virt_base, data@, paging::map_flags(true), 0, n)
            }
        }),
        final(bytes)@.len() == old(bytes)@.len(),
{
    proof {
        paging::law_rights_are_told(0, true, true);
    }
    map_user_pages_as(
        frames,
        bytes,
        cr3,
        virt_base,
        data,
        total_size,
        paging::rights(true, true),
    )
}

/// Maps `total_size` bytes, rounded up to whole pages, from `virt_base` on, for
/// user mode, with the flags `rights`. `data` is copied into the pages; the rest of them is zero.
/// Returns whether it went well: not if there are more than `MAX_IMAGE_PAGES`
/// pages, or too few frames. Frames taken by then stay taken.
pub fn map_user_pages_as(
    frames: &mut FrameAllocator,
    bytes: &mut [u8],
    cr3: u64,
    virt_base: u64,
    data: &[u8],
    total_size: usize,
    rights: u64,
) -> (r: bool)
    requires
        old(frames).wf(),
        paging::mem(old(frames), old(bytes)@).sane(),
        total_size + 4095 <= usize::MAX,
        ({
            let n = page_count(total_size as int);
            n <= MAX_IMAGE_PAGES ==> {
                &&& virt_base + n * 4096 <= u64::MAX
                &&& pages_mapped(
                    paging::mem(old(frames), old(bytes)@),
                    cr3 as int,
                    virt_base,
                    data@,
                    rights,
                    0,
                    n,
                ) is Some
            }
        }),
    ensures
        final(frames).wf(),
        paging::mem(final(frames), final(bytes)@).sane(),
        ({
            let m = paging::mem(old(frames), old(bytes)@);
            let w = paging::mem(final(frames), final(bytes)@);
            let n = page_count(total_size as int);
            if n > MAX_IMAGE_PAGES {
                !r && w == m
            } else {
                Some((w, r)) == pages_mapped(m, cr3 as int, virt_base, data@, rights, 0, n)
            }
        }),
        final(bytes)@.len() == old(bytes)@.len(),
{
    let num_pages: usize = (total_size + 4095) / 4096;
    if num_pages > MAX_IMAGE_PAGES {
        return false;
    }
    let ghost m = paging::mem(frames, bytes@);
    let ghost n = page_count(total_size as int);
    let mut i: usize = 0;
    while i < num_pages
        invariant
            i <= num_pages,
            num_pages <= MAX_IMAGE_PAGES,
            num_pages == n,
            virt_base + n * 4096 <= u64::MAX,
            frames.wf(),
            paging::mem(frames, bytes@).sane(),
            bytes@.len() == old(bytes)@.len(),
            pages_mapped(m, cr3 as int, virt_base, data@, rights, 0, n) is Some,
            pages_mapped(m, cr3 as int, virt_base, data@, rights, 0, n) == pages_mapped(
                paging::mem(frames, bytes@),
                cr3 as int,
                virt_base,
                data@,
                rights,
                i as int,
                n,
            ),
            m == paging::mem(old(frames), old(bytes)@),
            n == page_count(total_size as int),
        decreases num_pages - i,
    {
        let ghost before = paging::mem(frames, bytes@);
        let frame: usize = match phys::alloc_frame(frames) {
            Some(f) => f,
            None => {
                return false;
            },
        };
        proof {
            space::lemma_fresh(before);
        }
        paging::zero_frame(bytes, frame);
        let offset: usize = i * 4096;
        if offset < data.len() {
            let rest: usize = data.len() - offset;
            let len: usize = if rest < 4096 {
                rest
            } else {
                4096
            };
            ram::copy(bytes, frame, data, offset, len);
        }
        assert(bytes@ =~= page_loaded(before, data@, i as int).bytes);
        assert(paging::mem(frames, bytes@) == page_loaded(before, data@, i as int));
        paging::map_user_page(frames, bytes, cr3, virt_base + offset as u64, frame, rights);
        i = i + 1;
    }
    true
}

/// Maps the user stack of an address space, and returns its top. `None` if
/// there are too few frames.
pub fn alloc_user_stack(frames: &mut FrameAllocator, bytes: &mut [u8], cr3: u64) -> (r: Option<u64>)
    requires
        old(frames).wf(),
        paging::mem(old(frames), old(bytes)@).sane(),
        pages_mapped(
            paging::mem(old(frames), old(bytes)@),
            cr3 as int,
            (USER_STACK_TOP - USER_STACK_SIZE) as u64,
            Seq::empty(),
            paging::map_flags(true),
            0,
            16,
        ) is Some,
    ensures
        final(frames).wf(),
        paging::mem(final(frames), final(bytes)@).sane(),
        ({
            let m = paging::mem(old(frames), old(bytes)@);
            let w = paging::mem(final(frames), final(bytes)@);
            Some((w, r is Some)) == pages_mapped(
                m,
                cr3 as int,
                (USER_STACK_TOP - USER_STACK_SIZE) as u64,
                Seq::empty(),
                paging::map_flags(true),
                0,
                16,
            )
        }),
        r matches Some(top) ==> top == USER_STACK_TOP,
        final(bytes)@.len() == old(bytes)@.len(),
{
    let empty: [u8; 0] = [];
    assert(empty@ =~= Seq::<u8>::empty());
    if !map_user_pages(
        frames,
        bytes,
        cr3,
        USER_STACK_TOP - USER_STACK_SIZE as u64,
        &empty,
        USER_STACK_SIZE,
    ) {
        return None;
    }
    Some(USER_STACK_TOP)
}

/// The memory after a process was made for an image, and the PML4 of the
/// process, if it was made. `None` if a page table lacks a frame or does not
/// lie in the RAM.
pub open spec fn process_made(m: Mem, current: int, image: Seq<u8>, size: int) -> Option<
    (Mem, Option<u64>),
> {
    if m.frames.lowest_free() is None {
        Some((m, None))
    } else {
        let cr3 = m.fresh_addr();
        let m1 = space_made(m, current);
        if page_count(size) > MAX_IMAGE_PAGES {
            Some((m1, None))
        } else {
            match pages_mapped(m1, cr3, USER_IMAGE_BASE, image, paging::map_flags(true), 0, page_count(size)) {
                None => None,
                Some((m2, false)) => Some((m2, None)),
                Some((m2, true)) => match pages_mapped(
                    m2,
                    cr3,
                    (USER_STACK_TOP - USER_STACK_SIZE) as u64,
                    Seq::empty(),
                    paging::map_flags(true),
                    0,
                    16,
                ) {
                    None => None,
                    Some((m3, false)) => Some((m3, None)),
                    Some((m3, true)) => Some((m3, Some(cr3 as u64))),
                },
            }
        }
    }
}

/// Makes a user process: a new address space with the image at
/// `USER_IMAGE_BASE` and a user stack. `None` if there are too few frames or
/// the image has too many pages; frames taken by then stay taken.
pub fn create_process(
    ids: &mut TaskIds,
    frames: &mut FrameAllocator,
    bytes: &mut [u8],
    current_cr3: u64,
    image_data: &[u8],
    image_size: usize,
    entry_rva: u32,
    _name: &str,
) -> (r: Option<UserProcess>)
    requires
        old(ids).next_pid < u64::MAX,
        old(ids).next_tid < u64::MAX,
        old(frames).wf(),
        paging::mem(old(frames), old(bytes)@).sane(),
        current_cr3 % 4096 == 0,
        current_cr3 + 4096 <= old(bytes).len(),
        image_size + 4095 <= usize::MAX,
        process_made(
            paging::mem(old(frames), old(bytes)@),
            current_cr3 as int,
            image_data@,
            image_size as int,
        ) is Some,
    ensures
        final(frames).wf(),
        paging::mem(final(frames), final(bytes)@).sane(),
        ({
            let m = paging::mem(old(frames), old(bytes)@);
            let w = paging::mem(final(frames), final(bytes)@);
            let (made, cr3) = process_made(
                m,
                current_cr3 as int,
                image_data@,
                image_size as int,
            )->0;
            &&& w == made
            &&& match cr3 {
                Some(cr3) => {
                    &&& r == Some(
                        UserProcess {
                            pid: old(ids).next_pid,
                            tid: old(ids).next_tid,
                            cr3,
                            entry_point: (USER_IMAGE_BASE + entry_rva) as u64,
                            stack_top: USER_STACK_TOP,
                        },
                    )
                    &&& *final(ids) == (TaskIds {
                        next_pid: (old(ids).next_pid + 1) as u64,
                        next_tid: (old(ids).next_tid + 1) as u64,
                    })
                },
                None => r is None && *final(ids) == *old(ids),
            }
        }),
        final(bytes)@.len() == old(bytes)@.len(),
{
    let cr3: u64 = match create_address_space(frames, bytes, current_cr3) {
        Some(c) => c,
        None => {
            return None;
        },
    };
    if !map_user_pages(frames, bytes, cr3, USER_IMAGE_BASE, image_data, image_size) {
        return None;
    }
    let stack_top: u64 = match alloc_user_stack(frames, bytes, cr3) {
        Some(t) => t,
        None => {
            return None;
        },
    };
    let entry_point: u64 = USER_IMAGE_BASE + entry_rva as u64;
    let pid: Pid = task::alloc_pid(ids);
    let tid: Tid = task::alloc_tid(ids);
    Some(UserProcess { pid, tid, cr3, entry_point, stack_top })
}

/// The five words that `iretq` takes from the stack to enter user mode, in the
/// order in which they are pushed: SS, RSP, RFLAGS, CS, RIP.
pub fn usermode_frame(entry_point: u64, user_stack_top: u64) -> (r: [u64; 5])
    ensures
        r@ == seq![0x1Bu64, user_stack_top, 0x202u64, 0x23u64, entry_point],
{
    let r: [u64; 5] = [
        gdt::USER_DATA_RPL3 as u64,
        user_stack_top,
        0x202,
        gdt::USER_CODE_RPL3 as u64,
        entry_point,
    ];
    assert(r@ =~= seq![0x1Bu64, user_stack_top, 0x202u64, 0x23u64, entry_point]);
    r
}

/// The page of `virt` is mapped with the flags `rights` to a taken frame that is
/// no page table and holds `content`.
pub open spec fn page_holds(
    m: Mem,
    cr3: int,
    virt: u64,
    content: Seq<u8>,
    rights: u64,
) -> bool {
    m.leaf(cr3, virt) matches Some(e) && {
        &&& e == paging::PageEntry::made(e.target() as u64, rights)
        &&& frame_holds(m, cr3, e.target(), content)
    }
}

/// The frame at `f` is taken, is no page table and holds `content`.
pub open spec fn frame_holds(m: Mem, cr3: int, f: int, content: Seq<u8>) -> bool {
    &&& m.is_taken_frame(f)
    &&& !space::is_table(m, cr3, f)
    &&& m.bytes.subrange(f, f + 4096) == content
}

/// A frame that is no table keeps its content while only tables change.
pub proof fn lemma_frame_kept(m: Mem, w: Mem, cr3: int, f: int, content: Seq<u8>)
    requires
        m.space_wf(cr3),
        space::only_tables_change(m, w, cr3),
        frame_holds(m, cr3, f, content),
    ensures
        frame_holds(w, cr3, f, content),
{
    reveal(Mem::space_wf);
    reveal(space::only_tables_change);
    assert forall|a: int| f <= a < f + 4096 implies #[trigger] w.bytes[a] == m.bytes[a] by {
        assert(a - a % 4096 == f);
    }
    assert(w.bytes.subrange(f, f + 4096) =~= m.bytes.subrange(f, f + 4096));
    lemma_not_table(m, w, cr3, f);
}

/// A taken frame that is no table does not become one while only tables
/// change.
proof fn lemma_not_table(m: Mem, w: Mem, cr3: int, f: int)
    requires
        m.space_wf(cr3),
        space::only_tables_change(m, w, cr3),
        m.is_taken_frame(f),
        !space::is_table(m, cr3, f),
    ensures
        !space::is_table(w, cr3, f),
{
    reveal(Mem::space_wf);
    reveal(space::only_tables_change);
    if space::is_table(w, cr3, f) {
        let q = choose|q: Seq<int>| paging::table_path(q) && #[trigger] w.table_at(cr3, q) == Some(f);
        assert(w.table_at(cr3, q) is Some);
        assert(m.table_at(cr3, q) == Some(f));
    }
}

/// One page of `pages_mapped`: it holds its part of the data, and no other
/// page changes.
pub proof fn lemma_page(m: Mem, cr3: int, virt: u64, data: Seq<u8>, rights: u64, i: int, w: Mem)
    requires
        space::table_flags(rights),
        m.space_wf(cr3),
        m.frames.lowest_free() is Some,
        page_loaded(m, data, i).mapped_as(
            cr3,
            virt,
            m.fresh_addr() as u64,
            paging::map_flags(true),
            rights,
        ) == Some(w),
    ensures
        w.space_wf(cr3),
        space::only_tables_change(m, w, cr3),
        page_holds(w, cr3, virt, page_of(data, i), rights),
        forall|v: u64|
            !paging::same_page(v, virt) ==> #[trigger] w.leaf(cr3, v) == m.leaf(cr3, v),
{
    reveal(Mem::space_wf);
    reveal(space::only_tables_change);
    let f = m.fresh_addr();
    let m1 = page_loaded(m, data, i);
    space::lemma_fresh(m);
    assert forall|a: int|
        0 <= a < m.bytes.len() && m.is_taken_frame(a - a % 4096) implies #[trigger] m1.bytes[a]
        == m.bytes[a] by {
        assert(a - a % 4096 != f);
    }
    space::lemma_tables_kept(m, m1, cr3);
    assert(frame_holds(m1, cr3, f, page_of(data, i))) by {
        if space::is_table(m1, cr3, f) {
            let q = choose|q: Seq<int>|
                paging::table_path(q) && #[trigger] m1.table_at(cr3, q) == Some(f);
            assert(m1.table_at(cr3, q) == m.table_at(cr3, q));
            assert(m.is_taken_frame(f));
        }
        assert(m1.bytes.subrange(f, f + 4096) =~= page_of(data, i));
    }
    space::lemma_map_flags(true);
    space::lemma_maps_that_page_alone(
        m1,
        cr3,
        virt,
        f as u64,
        paging::map_flags(true),
        rights,
        w,
    );
    space::lemma_entry_of_frame(f as u64, rights);
    space::lemma_change_chains(m, m1, w, cr3);
    lemma_frame_kept(m1, w, cr3, f, page_of(data, i));
    assert forall|v: u64| !paging::same_page(v, virt) implies #[trigger] w.leaf(cr3, v) == m.leaf(
        cr3,
        v,
    ) by {
        assert(m1.leaf(cr3, v) == m.leaf(cr3, v));
    }
}

/// The pages `i` to `n - 1` hold their parts of the data, and have the flags
/// `rights`.
pub open spec fn pages_hold(
    w: Mem,
    cr3: int,
    virt_base: u64,
    data: Seq<u8>,
    rights: u64,
    i: int,
    n: int,
) -> bool {
    forall|j: int|
        i <= j < n ==> page_holds(
            w,
            cr3,
            (virt_base + j * 4096) as u64,
            #[trigger] page_of(data, j),
            rights,
        )
}

/// No page outside of the range has changed.
pub open spec fn others_kept(m: Mem, w: Mem, cr3: int, from: int, to: int) -> bool {
    forall|v: u64|
        !(from <= v % 0x1_0000_0000_0000 < to) ==> #[trigger] w.leaf(cr3, v) == m.leaf(cr3, v)
}

/// `pages_mapped` step by step: each page holds its part of the data, and no
/// other page changes.
pub proof fn lemma_pages(
    m: Mem,
    cr3: int,
    virt_base: u64,
    data: Seq<u8>,
    rights: u64,
    i: int,
    n: int,
)
    requires
        space::table_flags(rights),
        m.space_wf(cr3),
        virt_base % 4096 == 0,
        0 <= i,
        virt_base + n * 4096 <= 0x1_0000_0000_0000,
        pages_mapped(m, cr3, virt_base, data, rights, i, n) is Some,
    ensures
        ({
            let (w, ok) = pages_mapped(m, cr3, virt_base, data, rights, i, n)->0;
            &&& w.space_wf(cr3)
            &&& space::only_tables_change(m, w, cr3)
            &&& ok ==> pages_hold(w, cr3, virt_base, data, rights, i, n)
            &&& others_kept(m, w, cr3, virt_base + i * 4096, virt_base + n * 4096)
        }),
    decreases n - i,
{
    if i < n && m.frames.lowest_free() is Some {
        let virt = (virt_base + i * 4096) as u64;
        let m2 = page_loaded(m, data, i).mapped_as(
            cr3,
            virt,
            m.fresh_addr() as u64,
            paging::map_flags(true),
            rights,
        )->0;
        lemma_page(m, cr3, virt, data, rights, i, m2);
        lemma_pages(m2, cr3, virt_base, data, rights, i + 1, n);
        let (w, ok) = pages_mapped(m2, cr3, virt_base, data, rights, i + 1, n)->0;
        lemma_pages_join(m, m2, w, cr3, virt_base, data, rights, i, n, ok);
    } else {
        space::lemma_no_change(m, cr3);
    }
}

proof fn lemma_pages_join(
    m: Mem,
    m2: Mem,
    w: Mem,
    cr3: int,
    virt_base: u64,
    data: Seq<u8>,
    rights: u64,
    i: int,
    n: int,
    ok: bool,
)
    requires
        m.space_wf(cr3),
        m2.space_wf(cr3),
        w.space_wf(cr3),
        virt_base % 4096 == 0,
        0 <= i < n,
        virt_base + n * 4096 <= 0x1_0000_0000_0000,
        space::only_tables_change(m, m2, cr3),
        space::only_tables_change(m2, w, cr3),
        page_holds(m2, cr3, (virt_base + i * 4096) as u64, page_of(data, i), rights),
        forall|v: u64|
            !paging::same_page(v, (virt_base + i * 4096) as u64) ==> #[trigger] m2.leaf(cr3, v)
                == m.leaf(cr3, v),
        ok ==> pages_hold(w, cr3, virt_base, data, rights, i + 1, n),
        others_kept(m2, w, cr3, virt_base + (i + 1) * 4096, virt_base + n * 4096),
    ensures
        space::only_tables_change(m, w, cr3),
        ok ==> pages_hold(w, cr3, virt_base, data, rights, i, n),
        others_kept(m, w, cr3, virt_base + i * 4096, virt_base + n * 4096),
{
    let virt = (virt_base + i * 4096) as u64;
    let f = m2.leaf(cr3, virt)->0.target();
    space::lemma_change_chains(m, m2, w, cr3);
    assert(w.leaf(cr3, virt) == m2.leaf(cr3, virt));
    lemma_frame_kept(m2, w, cr3, f, page_of(data, i));
    assert forall|v: u64|
        !(virt_base + i * 4096 <= v % 0x1_0000_0000_0000 < virt_base + n
            * 4096) implies #[trigger] w.leaf(cr3, v) == m.leaf(cr3, v) by {
        assert(!paging::same_page(v, virt));
        assert(m2.leaf(cr3, v) == m.leaf(cr3, v));
    }
}

/// The byte that user mode finds at a virtual address.
pub open spec fn byte_at(m: Mem, cr3: int, virt: u64) -> Option<u8> {
    match m.translate(cr3, virt) {
        Some(a) => Some(m.bytes[a]),
        None => None,
    }
}

/// After `map_user_pages` user mode finds the data from `virt_base` on, and
/// zeros behind it up to the end of the last page. Every page outside of the
/// range leads where it did before, and the address space stays well-formed.
pub proof fn law_mapped_pages_hold_the_data(
    m: Mem,
    cr3: int,
    virt_base: u64,
    data: Seq<u8>,
    rights: u64,
    n: int,
    w: Mem,
)
    requires
        space::table_flags(rights),
        m.space_wf(cr3),
        virt_base % 4096 == 0,
        0 <= n,
        virt_base + n * 4096 <= 0x1_0000_0000_0000,
        pages_mapped(m, cr3, virt_base, data, rights, 0, n) == Some((w, true)),
    ensures
        w.space_wf(cr3),
        forall|k: int|
            0 <= k < n * 4096 ==> #[trigger] byte_at(w, cr3, (virt_base + k) as u64) == Some(
                if k < data.len() {
                    data[k]
                } else {
                    0
                },
            ),
        forall|v: u64|
            !(virt_base <= v % 0x1_0000_0000_0000 < virt_base + n * 4096) ==> #[trigger] w.leaf(
                cr3,
                v,
            ) == m.leaf(cr3, v),
{
    lemma_pages(m, cr3, virt_base, data, rights, 0, n);
    space::lemma_space_sane(w, cr3);
    lemma_bytes_at(w, cr3, virt_base, data, rights, n);
}

/// Pages that hold the data show it byte by byte.
pub proof fn lemma_bytes_at(w: Mem, cr3: int, virt_base: u64, data: Seq<u8>, rights: u64, n: int)
    requires
        w.sane(),
        virt_base % 4096 == 0,
        virt_base + n * 4096 <= 0x1_0000_0000_0000,
        forall|j: int|
            0 <= j < n ==> page_holds(
                w,
                cr3,
                (virt_base + j * 4096) as u64,
                #[trigger] page_of(data, j),
                rights,
            ),
    ensures
        forall|k: int|
            0 <= k < n * 4096 ==> #[trigger] byte_at(w, cr3, (virt_base + k) as u64) == Some(
                if k < data.len() {
                    data[k]
                } else {
                    0
                },
            ),
{
    assert forall|k: int| 0 <= k < n * 4096 implies #[trigger] byte_at(
        w,
        cr3,
        (virt_base + k) as u64,
    ) == Some(
        if k < data.len() {
            data[k]
        } else {
            0
        },
    ) by {
        let j = k / 4096;
        let page = (virt_base + j * 4096) as u64;
        assert(page_holds(w, cr3, page, page_of(data, j), rights));
        lemma_byte_at(w, cr3, page, k % 4096, page_of(data, j), rights);
    }
}

/// A page shows its content byte by byte.
pub proof fn lemma_byte_at(w: Mem, cr3: int, page: u64, k: int, content: Seq<u8>, rights: u64)
    requires
        w.sane(),
        page % 4096 == 0,
        page + 4096 <= 0x1_0000_0000_0000,
        0 <= k < 4096,
        page_holds(w, cr3, page, content, rights),
    ensures
        byte_at(w, cr3, (page + k) as u64) == Some(content[k]),
{
    let virt = (page + k) as u64;
    assert(paging::same_page(virt, page));
    space::lemma_same_page(virt, page);
    let f = w.leaf(cr3, page)->0.target();
    assert(virt % 4096 == k);
    assert(w.bytes.subrange(f, f + 4096)[k] == content[k]);
}

/// A new address space is well-formed: the kernel is mapped into its upper half
/// as in the current one, and its lower half is not mapped. The current address
/// space is left as it was.
pub proof fn law_new_space_holds_the_kernel_alone(m: Mem, current: int)
    requires
        m.space_wf(current),
        m.frames.lowest_free() is Some,
    ensures
        ({
            let w = space_made(m, current);
            let cr3 = m.fresh_addr();
            &&& w.space_wf(cr3)
            &&& forall|v: u64|
                #[trigger] w.leaf(cr3, v) == (if v % 0x1_0000_0000_0000 < 0x8000_0000_0000 {
                    None
                } else {
                    m.leaf(current, v)
                })
            &&& w.space_wf(current)
            &&& forall|v: u64| #[trigger] w.leaf(current, v) == m.leaf(current, v)
        }),
{
    reveal(Mem::space_wf);
    let w = space_made(m, current);
    let f = m.fresh_addr();
    space::lemma_fresh(m);
    assert(m.table_at(current, Seq::empty()) == Some(current));
    assert(m.is_taken_frame(current));
    assert forall|a: int|
        0 <= a < m.bytes.len() && m.is_taken_frame(a - a % 4096) implies #[trigger] w.bytes[a]
        == m.bytes[a] by {
        assert(a - a % 4096 != f);
    }
    assert forall|o: int| 2048 <= o < 4096 implies #[trigger] w.bytes[f + o] == m.bytes[current
        + o] by {
        assert(m.fresh().bytes[current + o] == m.bytes[current + o]);
    }
    assert(space::copied(m, w, current, f));
    space::lemma_copied(m, w, current, f);
    space::lemma_tables_kept(m, w, current);
}

/// Four free frames for each page are enough: one for the page and three for
/// tables that may be missing.
pub proof fn law_enough_frames_map_every_page(
    m: Mem,
    cr3: int,
    virt_base: u64,
    data: Seq<u8>,
    rights: u64,
    i: int,
    n: int,
)
    requires
        space::table_flags(rights),
        m.space_wf(cr3),
        0 <= i <= n,
        m.frames.free() >= 4 * (n - i),
    ensures
        pages_mapped(m, cr3, virt_base, data, rights, i, n) matches Some((w, ok)) && ok && w.frames.free()
            >= m.frames.free() - 4 * (n - i),
    decreases n - i,
{
    space::lemma_space_sane(m, cr3);
    if i < n {
        phys::law_alloc_succeeds_while_frames_are_free(m.frames);
        phys::law_alloc_takes_a_free_frame(m.frames);
        let f = m.fresh_addr();
        let m1 = page_loaded(m, data, i);
        let virt = (virt_base + i * 4096) as u64;
        space::lemma_fresh(m);
        assert forall|a: int|
            0 <= a < m.bytes.len() && m.is_taken_frame(a - a % 4096) implies #[trigger] m1.bytes[a]
            == m.bytes[a] by {
            assert(a - a % 4096 != f);
        }
        space::lemma_tables_kept(m, m1, cr3);
        space::lemma_map_flags(true);
        space::law_three_free_frames_are_enough(
            m1,
            cr3,
            virt,
            f as u64,
            paging::map_flags(true),
            rights,
        );
        let w = m1.mapped_as(cr3, virt, f as u64, paging::map_flags(true), rights)->0;
        lemma_page(m, cr3, virt, data, rights, i, w);
        law_enough_frames_map_every_page(w, cr3, virt_base, data, rights, i + 1, n);
    }
}

/// A process is made if its image has at most 256 pages and there are frames:
/// one for the address space, and four for each page of the image and the stack.
pub proof fn law_enough_frames_make_a_process(m: Mem, current: int, image: Seq<u8>, size: int)
    requires
        m.space_wf(current),
        0 <= size,
        page_count(size) <= MAX_IMAGE_PAGES,
        m.frames.free() >= 1 + 4 * (page_count(size) + 16),
    ensures
        process_made(m, current, image, size) matches Some((_, Some(_))),
{
    let rights = paging::map_flags(true);
    space::lemma_map_flags(true);
    space::lemma_space_sane(m, current);
    crate::memory::phys::law_alloc_succeeds_while_frames_are_free(m.frames);
    crate::memory::phys::law_alloc_takes_a_free_frame(m.frames);
    space::lemma_fresh(m);
    law_new_space_holds_the_kernel_alone(m, current);
    let cr3 = m.fresh_addr();
    let n = page_count(size);
    let m1 = space_made(m, current);
    law_enough_frames_map_every_page(m1, cr3, USER_IMAGE_BASE, image, rights, 0, n);
    lemma_pages(m1, cr3, USER_IMAGE_BASE, image, rights, 0, n);
    let (m2, _) = pages_mapped(m1, cr3, USER_IMAGE_BASE, image, rights, 0, n)->0;
    let bottom = (USER_STACK_TOP - USER_STACK_SIZE) as u64;
    law_enough_frames_map_every_page(m2, cr3, bottom, Seq::empty(), rights, 0, 16);
}

/// A new process finds its image at `USER_IMAGE_BASE`, zeros behind it up to
/// the end of the last page, a zeroed stack below `USER_STACK_TOP`, and the
/// kernel in the upper half.
pub proof fn law_new_process_finds_its_image(
    m: Mem,
    current: int,
    image: Seq<u8>,
    size: int,
    w: Mem,
    cr3: u64,
)
    requires
        m.space_wf(current),
        0 <= size,
        process_made(m, current, image, size) == Some((w, Some(cr3))),
    ensures
        w.space_wf(cr3 as int),
        forall|k: int|
            0 <= k < page_count(size) * 4096 ==> #[trigger] byte_at(
                w,
                cr3 as int,
                (USER_IMAGE_BASE + k) as u64,
            ) == Some(
                if k < image.len() {
                    image[k]
                } else {
                    0
                },
            ),
        forall|k: int|
            0 <= k < USER_STACK_SIZE ==> #[trigger] byte_at(
                w,
                cr3 as int,
                (USER_STACK_TOP - USER_STACK_SIZE + k) as u64,
            ) == Some(0u8),
        forall|v: u64|
            v % 0x1_0000_0000_0000 >= 0x8000_0000_0000 ==> #[trigger] w.leaf(cr3 as int, v)
                == m.leaf(current, v),
{
    let rights = paging::map_flags(true);
    space::lemma_map_flags(true);
    space::lemma_space_sane(m, current);
    let root = m.fresh_addr();
    let m1 = space_made(m, current);
    let n = page_count(size);
    let bottom = (USER_STACK_TOP - USER_STACK_SIZE) as u64;
    space::lemma_fresh(m);
    assert(cr3 == root);
    law_new_space_holds_the_kernel_alone(m, current);
    let (m2, _) = pages_mapped(m1, root, USER_IMAGE_BASE, image, rights, 0, n)->0;
    lemma_pages(m1, root, USER_IMAGE_BASE, image, rights, 0, n);
    lemma_pages(m2, root, bottom, Seq::empty(), rights, 0, 16);
    assert(pages_hold(w, root, USER_IMAGE_BASE, image, rights, 0, n)) by {
        assert forall|j: int| 0 <= j < n implies page_holds(
            w,
            root,
            (USER_IMAGE_BASE + j * 4096) as u64,
            #[trigger] page_of(image, j),
            rights,
        ) by {
            let virt = (USER_IMAGE_BASE + j * 4096) as u64;
            assert(page_holds(m2, root, virt, page_of(image, j), rights));
            assert(w.leaf(root, virt) == m2.leaf(root, virt));
            lemma_frame_kept(m2, w, root, m2.leaf(root, virt)->0.target(), page_of(image, j));
        }
    }
    space::lemma_space_sane(w, root);
    lemma_bytes_at(w, root, USER_IMAGE_BASE, image, rights, n);
    lemma_bytes_at(w, root, bottom, Seq::empty(), rights, 16);
    assert forall|k: int| 0 <= k < USER_STACK_SIZE implies #[trigger] byte_at(
        w,
        cr3 as int,
        (USER_STACK_TOP - USER_STACK_SIZE + k) as u64,
    ) == Some(0u8) by {
        assert(byte_at(w, root, (bottom + k) as u64) == Some(0u8));
    }
    assert forall|v: u64|
        v % 0x1_0000_0000_0000 >= 0x8000_0000_0000 implies #[trigger] w.leaf(cr3 as int, v)
        == m.leaf(current, v) by {
        assert(w.leaf(root, v) == m2.leaf(root, v));
        assert(m2.leaf(root, v) == m1.leaf(root, v));
    }
}

/// Bytes of the demo program.
pub const DEMO_CODE_SIZE: usize = 70;

/// A small program for user mode: it writes a greeting to descriptor 1 and
/// exits.
pub const DEMO_USER_CODE: [u8; DEMO_CODE_SIZE] = [
    // lea rsi, [rip + 41]: the greeting
    0x48, 0x8D, 0x35, 0x29, 0x00, 0x00, 0x00,
    // mov rdi, 1
    0x48, 0xC7, 0xC7, 0x01, 0x00, 0x00, 0x00,
    // mov rdx, 22
    0x48, 0xC7, 0xC2, 0x16, 0x00, 0x00, 0x00,
    // mov rax, 1: write
    0x48, 0xC7, 0xC0, 0x01, 0x00, 0x00, 0x00,
    // syscall
    0x0F, 0x05,
    // mov rdi, 0
    0x48, 0xC7, 0xC7, 0x00, 0x00, 0x00, 0x00,
    // mov rax, 4: exit
    0x48, 0xC7, 0xC0, 0x04, 0x00, 0x00, 0x00,
    // syscall
    0x0F, 0x05,
    // jmp $
    0xEB, 0xFE,
    // "Hello from userspace!" and a line feed
    0x48, 0x65, 0x6C, 0x6C, 0x6F, 0x20, 0x66, 0x72, 0x6F, 0x6D, 0x20, 0x75, 0x73, 0x65, 0x72, 0x73,
    0x70, 0x61, 0x63, 0x65, 0x21, 0x0A,
];

/// Bytes of memory for the demo program.
pub const DEMO_IMAGE_SIZE: usize = 4096;

/// Where the demo program starts.
pub const DEMO_ENTRY_RVA: u32 = 0;

} // verus!
