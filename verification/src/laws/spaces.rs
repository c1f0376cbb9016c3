//! Address spaces: which page leads where, told from the bytes of the page tables.

use vstd::prelude::*;
use crate::kernel::{Kernel, World};
use crate::memory::paging;
use crate::memory::paging::region;
use crate::memory::paging::space;
use crate::memory::paging::{Mem, PageEntry};
use crate::memory::phys;
use crate::memory::phys::FrameAllocator;
use crate::syscall;
use crate::syscall::SysReturn;
use crate::task::TaskIds;
use crate::userspace;
use crate::userspace::UserProcess;
use super::calls;
use super::memory::{lemma_numbers, n64};
use super::programs::pages;

verus! {

/// The address in an entry of a page table: its bits 12 to 51.
pub open spec fn address_in(w: int) -> int {
    w % 0x10_0000_0000_0000 / 4096 * 4096
}

/// The table that entry `i` of a table leads to, if bit 0 of the entry is set.
pub open spec fn next(b: Seq<u8>, table: int, i: int) -> Option<int> {
    if n64(b, table + 8 * i) % 2 == 1 {
        Some(address_in(n64(b, table + 8 * i)))
    } else {
        None
    }
}

/// The entry for the page of a virtual address: nine bits of the address pick the entry
/// in each of four tables, from bit 47 down to bit 12.
#[verifier::opaque]
pub open spec fn page_entry(b: Seq<u8>, root: int, virt: int) -> Option<int> {
    match next(b, root, virt / 0x80_0000_0000 % 512) {
        None => None,
        Some(t3) => match next(b, t3, virt / 0x4000_0000 % 512) {
            None => None,
            Some(t2) => match next(b, t2, virt / 0x20_0000 % 512) {
                None => None,
                Some(t1) => if n64(b, t1 + 8 * (virt / 0x1000 % 512)) % 2 == 1 {
                    Some(n64(b, t1 + 8 * (virt / 0x1000 % 512)))
                } else {
                    None
                },
            },
        },
    }
}

/// The byte that a program finds at a virtual address.
#[verifier::opaque]
pub open spec fn seen(b: Seq<u8>, root: int, virt: int) -> Option<u8> {
    match page_entry(b, root, virt) {
        Some(w) => Some(b[address_in(w) + virt % 4096]),
        None => None,
    }
}

pub proof fn lemma_entry_bits(w: u64)
    by (bit_vector)
    ensures
        w & 1 != 0 <==> w % 2 == 1,
        w & 2 != 0 <==> w / 2 % 2 == 1,
        w & 4 != 0 <==> w / 4 % 2 == 1,
        w & 0x8000_0000_0000_0000 != 0 <==> w / 0x8000_0000_0000_0000 == 1,
        w & 0x000F_FFFF_FFFF_F000 == w % 0x10_0000_0000_0000 / 4096 * 4096,
{
}

proof fn lemma_next(m: Mem, table: int, i: int)
    ensures
        m.entry(table, i).0 == n64(m.bytes, table + 8 * i),
        m.entry(table, i).present() <==> next(m.bytes, table, i) is Some,
        m.entry(table, i).target() == address_in(n64(m.bytes, table + 8 * i)),
{
    lemma_numbers(m.bytes, table + 8 * i);
    lemma_entry_bits(m.entry(table, i).0);
}

/// The way through the page tables by nine bits of the address each.
pub proof fn lemma_page_entry(m: Mem, root: int, virt: u64)
    ensures
        match m.leaf(root, virt) {
            Some(e) => page_entry(m.bytes, root, virt as int) == Some(e.0 as int),
            None => page_entry(m.bytes, root, virt as int) is None,
        },
        userspace::byte_at(m, root, virt) == seen(m.bytes, root, virt as int),
{
    reveal(page_entry);
    reveal(seen);
    reveal(paging::vpath);
    reveal_with_fuel(Mem::table_at, 4);
    let p = paging::vpath(virt);
    let q = p.drop_last();
    assert(q.len() == 3);
    assert(q.drop_last() =~= p.take(2));
    assert(q.drop_last().drop_last() =~= p.take(1));
    assert(q.drop_last().drop_last().drop_last() =~= p.take(0));
    assert(q.last() == p[2] && q.drop_last().last() == p[1] && q.drop_last().drop_last().last()
        == p[0]);
    lemma_next(m, root, p[0]);
    let t3 = m.entry(root, p[0]).target();
    lemma_next(m, t3, p[1]);
    let t2 = m.entry(t3, p[1]).target();
    lemma_next(m, t2, p[2]);
    let t1 = m.entry(t2, p[2]).target();
    lemma_next(m, t1, p[3]);
    assert(m.table_at(root, p.take(0)) == Some(root));
    match m.leaf(root, virt) {
        Some(e) => lemma_entry_bits(e.0),
        None => {},
    }
}

/// Two addresses are on one page: they agree in the bits 12 to 47.
pub open spec fn on_one_page(a: int, b: int) -> bool {
    a % 0x1_0000_0000_0000 / 4096 == b % 0x1_0000_0000_0000 / 4096
}

/// The page of `virt` leads to `phys` with what programs may do there, and every other
/// page leads where it did before.
pub open spec fn leads(
    b: Seq<u8>,
    c: Seq<u8>,
    root: int,
    virt: int,
    phys: int,
    user: bool,
    writable: bool,
    executable: bool,
) -> bool {
    &&& page_entry(c, root, virt) matches Some(w) && {
        &&& address_in(w) == phys
        &&& w / 2 % 2 == 1 <==> writable
        &&& w / 4 % 2 == 1 <==> user
        &&& w / 0x8000_0000_0000_0000 == 0 <==> executable
    }
    &&& forall|v: u64|
        !on_one_page(v as int, virt) ==> #[trigger] page_entry(c, root, v as int) == page_entry(
            b,
            root,
            v as int,
        )
}

proof fn lemma_leads(m: Mem, w: Mem, root: int, virt: u64, e: PageEntry)
    requires
        w.leaf(root, virt) == Some(e),
        forall|v: u64|
            !paging::same_page(v, virt) ==> #[trigger] w.leaf(root, v) == m.leaf(root, v),
    ensures
        leads(
            m.bytes,
            w.bytes,
            root,
            virt as int,
            address_in(e.0 as int),
            e.user(),
            e.writable(),
            e.executable(),
        ),
{
    lemma_page_entry(w, root, virt);
    lemma_entry_bits(e.0);
    assert forall|v: u64| !on_one_page(v as int, virt as int) implies #[trigger] page_entry(
        w.bytes,
        root,
        v as int,
    ) == page_entry(m.bytes, root, v as int) by {
        lemma_page_entry(w, root, v);
        lemma_page_entry(m, root, v);
        assert(!paging::same_page(v, virt));
        assert(w.leaf(root, v) == m.leaf(root, v));
    }
}

proof fn lemma_made(a: u64, f: u64)
    by (bit_vector)
    requires
        f & 0x000F_FFFF_FFFF_F000 == 0,
    ensures
        ((a & 0x000F_FFFF_FFFF_F000) | f) % 0x10_0000_0000_0000 / 4096 * 4096 == a
            % 0x10_0000_0000_0000 / 4096 * 4096,
        ((a & 0x000F_FFFF_FFFF_F000) | f) & 2 == f & 2,
        ((a & 0x000F_FFFF_FFFF_F000) | f) & 4 == f & 4,
        ((a & 0x000F_FFFF_FFFF_F000) | f) & 0x8000_0000_0000_0000 == f & 0x8000_0000_0000_0000,
        (1u64 | 2u64 | 4u64) & 2 != 0,
        (1u64 | 2u64 | 0u64) & 2 != 0,
        (1u64 | 2u64 | 4u64) & 4 != 0,
        (1u64 | 2u64 | 0u64) & 4 == 0,
        (1u64 | 2u64 | 4u64) & 0x8000_0000_0000_0000 == 0,
        (1u64 | 2u64 | 0u64) & 0x8000_0000_0000_0000 == 0,
{
}

/// A page that is mapped leads to the frame that was named, may be read, written and
/// executed, by programs as well if that was asked for, and no other page changes.
pub proof fn law_mapped_page_leads_to_its_frame(
    frames: &mut FrameAllocator,
    bytes: &mut [u8],
    root: u64,
    virt: u64,
    phys: usize,
    user: bool,
)
    requires
        paging::mem(old(frames), old(bytes)@).space_wf(root as int),
        call_ensures(paging::map_page, (frames, bytes, root, virt, phys, user), ()),
    ensures
        leads(
            old(bytes)@,
            final(bytes)@,
            root as int,
            virt as int,
            address_in(phys as int),
            user,
            true,
            true,
        ),
        paging::mem(final(frames), final(bytes)@).space_wf(root as int),
{
    let m = paging::mem(old(frames), old(bytes)@);
    let w = paging::mem(final(frames), final(bytes)@);
    let f = paging::map_flags(user);
    assert(Some(w) == m.mapped(root as int, virt, phys as u64, f));
    space::lemma_map_flags(user);
    space::law_map_page_maps_that_page_alone(m, root as int, virt, phys as u64, user, w);
    let e = PageEntry::made(phys as u64, f);
    lemma_made(phys as u64, f);
    lemma_leads(m, w, root as int, virt, e);
}

/// A page that is mapped for programs leads to the frame that was named, and may be
/// written and executed as was asked for. No other page changes.
pub proof fn law_page_of_a_program_has_its_rights(
    frames: &mut FrameAllocator,
    bytes: &mut [u8],
    root: u64,
    virt: u64,
    phys: usize,
    writable: bool,
    executable: bool,
    rights: u64,
)
    requires
        paging::mem(old(frames), old(bytes)@).space_wf(root as int),
        call_ensures(paging::rights, (writable, executable), rights),
        call_ensures(paging::map_user_page, (frames, bytes, root, virt, phys, rights), ()),
    ensures
        leads(
            old(bytes)@,
            final(bytes)@,
            root as int,
            virt as int,
            address_in(phys as int),
            true,
            writable,
            executable,
        ),
{
    let m = paging::mem(old(frames), old(bytes)@);
    let w = paging::mem(final(frames), final(bytes)@);
    let f = paging::map_flags(true);
    assert(Some(w) == m.mapped_as(root as int, virt, phys as u64, f, rights));
    space::lemma_map_flags(true);
    space::lemma_user_rights(writable, executable);
    space::lemma_maps_that_page_alone(m, root as int, virt, phys as u64, f, rights, w);
    let e = PageEntry::made(phys as u64, rights);
    lemma_made(phys as u64, rights);
    paging::law_rights_are_told(phys as u64, writable, executable);
    lemma_leads(m, w, root as int, virt, e);
}

/// A page that is unmapped leads nowhere, and no other page changes. What was written is
/// told: nothing, if a table is missing on the way.
pub proof fn law_unmapped_page_leads_nowhere(
    m: Mem,
    bytes: &mut [u8],
    root: u64,
    virt: u64,
    written: bool,
)
    requires
        m.bytes == old(bytes)@,
        m.space_wf(root as int),
        call_ensures(paging::unmap_page, (bytes, root, virt), written),
    ensures
        page_entry(final(bytes)@, root as int, virt as int) is None,
        forall|v: u64|
            !on_one_page(v as int, virt as int) ==> #[trigger] page_entry(
                final(bytes)@,
                root as int,
                v as int,
            ) == page_entry(old(bytes)@, root as int, v as int),
        page_entry(old(bytes)@, root as int, virt as int) is Some ==> written,
        !written ==> final(bytes)@ == old(bytes)@,
{
    let r = root as int;
    let w = m.unmapped(r, virt);
    space::law_unmap_page_unmaps_that_page_alone(m, r, virt);
    assert(final(bytes)@ == w.bytes);
    lemma_page_entry(w, r, virt);
    lemma_page_entry(m, r, virt);
    space::lemma_bare(m, r, paging::vpath(virt).drop_last());
    assert forall|v: u64| !on_one_page(v as int, virt as int) implies #[trigger] page_entry(
        final(bytes)@,
        r,
        v as int,
    ) == page_entry(old(bytes)@, r, v as int) by {
        lemma_page_entry(w, r, v);
        lemma_page_entry(m, r, v);
        assert(!paging::same_page(v, virt));
        assert(w.leaf(r, v) == m.leaf(r, v));
    }
}

/// A program finds `data` from `base` on, and zeros behind it up to `end`.
pub open spec fn finds(b: Seq<u8>, root: int, base: int, data: Seq<u8>, end: int) -> bool {
    forall|k: int|
        0 <= k < end - base ==> #[trigger] seen(b, root, base + k) == Some(
            if k < data.len() {
                data[k]
            } else {
                0
            },
        )
}

/// Pages outside of `from..to` lead where they did before.
pub open spec fn kept_outside(b: Seq<u8>, c: Seq<u8>, root: int, from: int, to: int) -> bool {
    forall|v: u64|
        !(from <= v % 0x1_0000_0000_0000 < to) ==> #[trigger] page_entry(c, root, v as int)
            == page_entry(b, root, v as int)
}

pub proof fn lemma_finds(w: Mem, root: int, base: u64, data: Seq<u8>, end: int)
    requires
        end <= 0x1_0000_0000_0000,
        forall|k: int|
            0 <= k < end - base ==> #[trigger] userspace::byte_at(w, root, (base + k) as u64)
                == Some(
                if k < data.len() {
                    data[k]
                } else {
                    0
                },
            ),
    ensures
        finds(w.bytes, root, base as int, data, end),
{
    assert forall|k: int| 0 <= k < end - base implies #[trigger] seen(w.bytes, root, base + k)
        == Some(
        if k < data.len() {
            data[k]
        } else {
            0
        },
    ) by {
        lemma_page_entry(w, root, (base + k) as u64);
        assert(userspace::byte_at(w, root, (base + k) as u64) is Some);
    }
}

pub proof fn lemma_kept(m: Mem, w: Mem, root: int, from: int, to: int)
    requires
        userspace::others_kept(m, w, root, from, to),
    ensures
        kept_outside(m.bytes, w.bytes, root, from, to),
{
    assert forall|v: u64|
        !(from <= v % 0x1_0000_0000_0000 < to) implies #[trigger] page_entry(
        w.bytes,
        root,
        v as int,
    ) == page_entry(m.bytes, root, v as int) by {
        lemma_page_entry(w, root, v);
        lemma_page_entry(m, root, v);
        assert(w.leaf(root, v) == m.leaf(root, v));
    }
}

/// Data that is mapped for a program is found from the base on, byte by byte, with zeros
/// behind it up to the end of the last page, and other pages lead where they did. It is
/// mapped if there are four free frames for each of at most 256 pages; more pages are
/// refused.
pub proof fn law_mapped_data_is_found(
    frames: &mut FrameAllocator,
    bytes: &mut [u8],
    root: u64,
    base: u64,
    data: &[u8],
    size: usize,
    r: bool,
)
    requires
        paging::mem(old(frames), old(bytes)@).space_wf(root as int),
        base % 4096 == 0,
        base + pages(size as int) * 4096 <= 0x1_0000_0000_0000,
        call_ensures(userspace::map_user_pages, (frames, bytes, root, base, data, size), r),
    ensures
        r ==> pages(size as int) <= 256,
        r ==> finds(
            final(bytes)@,
            root as int,
            base as int,
            data@,
            base + pages(size as int) * 4096,
        ),
        kept_outside(
            old(bytes)@,
            final(bytes)@,
            root as int,
            base as int,
            base + pages(size as int) * 4096,
        ),
        pages(size as int) <= 256 && old(frames)@.free() >= 4 * pages(size as int) ==> r,
{
    let m = paging::mem(old(frames), old(bytes)@);
    let w = paging::mem(final(frames), final(bytes)@);
    let n = userspace::page_count(size as int);
    let f = paging::map_flags(true);
    space::lemma_map_flags(true);
    assert(w.bytes == final(bytes)@);
    if n <= 256 {
        assert(Some((w, r)) == userspace::pages_mapped(m, root as int, base, data@, f, 0, n));
        userspace::lemma_pages(m, root as int, base, data@, f, 0, n);
        lemma_kept(m, w, root as int, base as int, base + n * 4096);
        if r {
            userspace::law_mapped_pages_hold_the_data(m, root as int, base, data@, f, n, w);
            lemma_finds(w, root as int, base, data@, base + n * 4096);
        }
        if m.frames.free() >= 4 * n {
            userspace::law_enough_frames_map_every_page(m, root as int, base, data@, f, 0, n);
        }
    } else {
        assert(w == m);
        lemma_kept(m, w, root as int, base as int, base + n * 4096);
    }
}

/// A new address space has the kernel in its upper half, as the current one, and nothing
/// in its lower half. There is one if a frame is free; the current one stays as it is.
pub proof fn law_new_space_has_the_kernel_alone(
    frames: &mut FrameAllocator,
    bytes: &mut [u8],
    current: u64,
    r: Option<u64>,
)
    requires
        paging::mem(old(frames), old(bytes)@).space_wf(current as int),
        call_ensures(userspace::create_address_space, (frames, bytes, current), r),
    ensures
        r is Some <==> old(frames)@.free() > 0,
        r matches Some(root) ==> {
            &&& root % 4096 == 0
            &&& !old(frames)@.used[root as int / 4096]
            &&& final(frames)@.used[root as int / 4096]
            &&& forall|v: u64| #[trigger]
                page_entry(final(bytes)@, root as int, v as int) == (if v / 0x8000_0000_0000 % 2
                    == 1 {
                    page_entry(old(bytes)@, current as int, v as int)
                } else {
                    None
                })
            &&& forall|v: u64| #[trigger]
                page_entry(final(bytes)@, current as int, v as int) == page_entry(
                    old(bytes)@,
                    current as int,
                    v as int,
                )
        },
        r is None ==> final(bytes)@ == old(bytes)@ && final(frames)@ == old(frames)@,
{
    let m = paging::mem(old(frames), old(bytes)@);
    let w = paging::mem(final(frames), final(bytes)@);
    space::lemma_space_sane(m, current as int);
    phys::law_alloc_succeeds_while_frames_are_free(m.frames);
    assert(w.bytes == final(bytes)@ && w.frames == final(frames)@);
    if m.frames.lowest_free() is Some {
        phys::law_alloc_takes_a_free_frame(m.frames);
        space::lemma_fresh(m);
        userspace::law_new_space_holds_the_kernel_alone(m, current as int);
        let root = m.fresh_addr();
        assert(r == Some(root as u64) && w == userspace::space_made(m, current as int));
        assert forall|v: u64| #[trigger]
            page_entry(final(bytes)@, root, v as int) == (if v / 0x8000_0000_0000 % 2 == 1 {
                page_entry(old(bytes)@, current as int, v as int)
            } else {
                None
            }) by {
            lemma_page_entry(w, root, v);
            lemma_page_entry(m, current as int, v);
            assert(w.leaf(root, v) == (if v % 0x1_0000_0000_0000 < 0x8000_0000_0000 {
                None
            } else {
                m.leaf(current as int, v)
            }));
        }
        assert forall|v: u64| #[trigger]
            page_entry(final(bytes)@, current as int, v as int) == page_entry(
                old(bytes)@,
                current as int,
                v as int,
            ) by {
            lemma_page_entry(w, current as int, v);
            lemma_page_entry(m, current as int, v);
            assert(w.leaf(current as int, v) == m.leaf(current as int, v));
        }
    } else {
        assert(w == m);
    }
}

/// A user stack is 64 KiB of zeros below 0x7FFF_FFFF_0000, and other pages lead where they
/// did. There is one if 64 frames are free.
pub proof fn law_user_stack_is_empty_memory(
    frames: &mut FrameAllocator,
    bytes: &mut [u8],
    root: u64,
    r: Option<u64>,
)
    requires
        paging::mem(old(frames), old(bytes)@).space_wf(root as int),
        call_ensures(userspace::alloc_user_stack, (frames, bytes, root), r),
    ensures
        r matches Some(top) ==> top == 0x7FFF_FFFF_0000 && finds(
            final(bytes)@,
            root as int,
            0x7FFF_FFFE_0000,
            Seq::empty(),
            0x7FFF_FFFF_0000,
        ),
        kept_outside(
            old(bytes)@,
            final(bytes)@,
            root as int,
            0x7FFF_FFFE_0000,
            0x7FFF_FFFF_0000,
        ),
        old(frames)@.free() >= 64 ==> r is Some,
{
    let m = paging::mem(old(frames), old(bytes)@);
    let w = paging::mem(final(frames), final(bytes)@);
    let f = paging::map_flags(true);
    let base = 0x7FFF_FFFE_0000u64;
    space::lemma_map_flags(true);
    assert(w.bytes == final(bytes)@);
    assert(Some((w, r is Some)) == userspace::pages_mapped(
        m,
        root as int,
        base,
        Seq::empty(),
        f,
        0,
        16,
    ));
    userspace::lemma_pages(m, root as int, base, Seq::empty(), f, 0, 16);
    lemma_kept(m, w, root as int, base as int, 0x7FFF_FFFF_0000);
    if r is Some {
        userspace::law_mapped_pages_hold_the_data(m, root as int, base, Seq::empty(), f, 16, w);
        lemma_finds(w, root as int, base, Seq::empty(), 0x7FFF_FFFF_0000);
    }
    if m.frames.free() >= 64 {
        userspace::law_enough_frames_map_every_page(m, root as int, base, Seq::empty(), f, 0, 16);
    }
}

/// A new process finds its image at 0x40_0000 and an empty stack, has the kernel in its
/// upper half, starts where it was told to, and gets the next two numbers. It is made if
/// there are frames: one for the address space, and four for each page of the image, of
/// which there are at most 256, and of the stack.
pub proof fn law_new_process_is_ready_to_run(
    ids: &mut TaskIds,
    frames: &mut FrameAllocator,
    bytes: &mut [u8],
    current: u64,
    image: &[u8],
    size: usize,
    entry: u32,
    name: &str,
    r: Option<UserProcess>,
)
    requires
        paging::mem(old(frames), old(bytes)@).space_wf(current as int),
        old(ids).next_pid < u64::MAX,
        old(ids).next_tid < u64::MAX,
        userspace::process_made(
            paging::mem(old(frames), old(bytes)@),
            current as int,
            image@,
            size as int,
        ) is Some,
        call_ensures(
            userspace::create_process,
            (ids, frames, bytes, current, image, size, entry, name),
            r,
        ),
    ensures
        r matches Some(p) ==> {
            &&& p.pid == old(ids).next_pid
            &&& p.tid == old(ids).next_tid
            &&& final(ids).next_pid == old(ids).next_pid + 1
            &&& final(ids).next_tid == old(ids).next_tid + 1
            &&& p.entry_point == 0x40_0000 + entry
            &&& p.stack_top == 0x7FFF_FFFF_0000
            &&& finds(
                final(bytes)@,
                p.cr3 as int,
                0x40_0000,
                image@,
                0x40_0000 + pages(size as int) * 4096,
            )
            &&& finds(
                final(bytes)@,
                p.cr3 as int,
                0x7FFF_FFFE_0000,
                Seq::empty(),
                0x7FFF_FFFF_0000,
            )
            &&& forall|v: u64|
                v / 0x8000_0000_0000 % 2 == 1 ==> #[trigger] page_entry(
                    final(bytes)@,
                    p.cr3 as int,
                    v as int,
                ) == page_entry(old(bytes)@, current as int, v as int)
        },
        r is None ==> *final(ids) == *old(ids),
        pages(size as int) <= 256 && old(frames)@.free() >= 1 + 4 * (pages(size as int) + 16)
            ==> r is Some,
{
    let m = paging::mem(old(frames), old(bytes)@);
    let w = paging::mem(final(frames), final(bytes)@);
    let made = userspace::process_made(m, current as int, image@, size as int)->0;
    assert(made.0 == w);
    assert(w.bytes == final(bytes)@);
    match r {
        Some(p) => {
            assert(made.1 == Some(p.cr3));
            userspace::law_new_process_finds_its_image(
                m,
                current as int,
                image@,
                size as int,
                w,
                p.cr3,
            );
            assert(userspace::page_count(size as int) <= 256);
            lemma_finds(
                w,
                p.cr3 as int,
                0x40_0000,
                image@,
                0x40_0000 + pages(size as int) * 4096,
            );
            assert forall|k: int| 0 <= k < 0x1_0000 implies #[trigger] userspace::byte_at(
                w,
                p.cr3 as int,
                (0x7FFF_FFFE_0000u64 + k) as u64,
            ) == Some(0u8) by {
                assert(userspace::byte_at(
                    w,
                    p.cr3 as int,
                    (userspace::USER_STACK_TOP - userspace::USER_STACK_SIZE + k) as u64,
                ) == Some(0u8));
            }
            lemma_finds(w, p.cr3 as int, 0x7FFF_FFFE_0000, Seq::empty(), 0x7FFF_FFFF_0000);
            assert forall|v: u64| v / 0x8000_0000_0000 % 2 == 1 implies #[trigger] page_entry(
                final(bytes)@,
                p.cr3 as int,
                v as int,
            ) == page_entry(old(bytes)@, current as int, v as int) by {
                lemma_page_entry(w, p.cr3 as int, v);
                lemma_page_entry(m, current as int, v);
                assert(v % 0x1_0000_0000_0000 >= 0x8000_0000_0000);
                assert(w.leaf(p.cr3 as int, v) == m.leaf(current as int, v));
            }
        },
        None => {
            if pages(size as int) <= 256 && m.frames.free() >= 1 + 4 * (pages(size as int) + 16) {
                userspace::law_enough_frames_make_a_process(
                    m,
                    current as int,
                    image@,
                    size as int,
                );
            }
        },
    }
}

/// User mode is entered with the data segment 0x1B, the code segment 0x23 and interrupts
/// on, at the entry point and with the stack that were named.
pub proof fn law_user_mode_is_entered_at_the_entry_point(entry: u64, stack: u64, r: [u64; 5])
    requires
        call_ensures(userspace::usermode_frame, (entry, stack), r),
    ensures
        r@[0] == 0x1B,
        r@[1] == stack,
        r@[2] == 0x202,
        r@[3] == 0x23,
        r@[4] == entry,
{
}

pub proof fn lemma_region(m: Mem, root: int, base: u64, i: int, n: int)
    requires
        m.sane(),
        0 <= i <= n,
    ensures
        ({
            let (w, ok) = m.region_mapped(root, base + i * 4096, (n - i) as nat);
            ok ==> userspace::pages_mapped(
                m,
                root,
                base,
                Seq::empty(),
                paging::map_flags(true),
                i,
                n,
            ) == Some((w, true))
        }),
        userspace::pages_mapped(
            m,
            root,
            base,
            Seq::empty(),
            paging::map_flags(true),
            i,
            n,
        ) matches Some((_, true)) ==> m.region_mapped(root, base + i * 4096, (n - i) as nat).1,
    decreases n - i,
{
    if i < n && m.frames.lowest_free() is Some {
        let f = paging::map_flags(true);
        let e = Seq::<u8>::empty();
        space::lemma_fresh(m);
        let a = userspace::page_loaded(m, e, i);
        let b = m.fresh();
        assert(a.bytes =~= b.bytes);
        assert(a == b);
        let virt = (base + i * 4096) as u64;
        region::law_trying_agrees_with_mapping(b, root, virt, m.fresh_addr() as u64, f);
        match b.mapped(root, virt, m.fresh_addr() as u64, f) {
            Some(w) => {
                lemma_still_sane(b, root, virt, m.fresh_addr() as u64, f, w);
                lemma_region(w, root, base, i + 1, n);
                assert(base + (i + 1) * 4096 == base + i * 4096 + 4096);
            },
            None => {},
        }
    }
}

proof fn lemma_still_sane(m: Mem, root: int, virt: u64, phys: u64, f: u64, w: Mem)
    requires
        m.sane(),
        m.mapped(root, virt, phys, f) == Some(w),
    ensures
        w.sane(),
{
    let p = paging::vpath(virt);
    lemma_table_sane(m, root, p[0], f);
    let m1 = m.with_table(root, p[0], f)->0;
    let t3 = m1.entry(root, p[0]).target();
    lemma_table_sane(m1, t3, p[1], f);
    let m2 = m1.with_table(t3, p[1], f)->0;
    let t2 = m2.entry(t3, p[1]).target();
    lemma_table_sane(m2, t2, p[2], f);
}

proof fn lemma_table_sane(m: Mem, table: int, i: int, f: u64)
    requires
        m.sane(),
    ensures
        m.with_table(table, i, f) matches Some(w) ==> w.sane(),
{
    if m.frames.lowest_free() is Some {
        space::lemma_fresh(m);
        let w = m.fresh();
        assert(w.bytes.len() == m.bytes.len());
        assert(w.frames.used.len() == m.frames.used.len());
    }
}

/// A region that a program asks for is empty memory afterwards, and other pages lead where
/// they did before. It is refused, without a change, if it does not start on a page above
/// 0, is empty or ends above 0x8000_0000_0000. It is granted if there are four free frames
/// for each page.
pub proof fn law_region_that_is_asked_for_is_empty_memory(
    k: &mut Kernel,
    bytes: &mut [u8],
    user: &mut [u8],
    addr: u64,
    len: u64,
    a2: u64,
    i: int,
    r: SysReturn,
)
    requires
        old(k).wf(old(bytes)@),
        calls::home(old(k).world(old(bytes)@), i),
        call_ensures(
            syscall::syscall_dispatch_inner,
            (k, bytes, user, 11u64, addr, len, a2),
            r,
        ),
    ensures
        final(user)@ == old(user)@,
        r.output@.len() == 0 && r.switch is None,
        !(addr % 4096 == 0 && addr > 0 && len > 0 && addr + len <= 0x8000_0000_0000) ==> r.value
            == 0xFFFF_FFFF_FFFF_FFFF && final(k).world(final(bytes)@) == old(k).world(old(bytes)@),
        addr % 4096 == 0 && addr > 0 && len > 0 && addr + len <= 0x8000_0000_0000 ==> {
            let cr3 = old(k).tasks@.processes[i]->0.cr3 as int;
            &&& r.value == addr || r.value == 0xFFFF_FFFF_FFFF_FFFF
            &&& final(k).world(final(bytes)@) == (World {
                mem: final(k).world(final(bytes)@).mem,
                ..old(k).world(old(bytes)@)
            })
            &&& r.value == addr && old(k).world(old(bytes)@).mem.space_wf(cr3) ==> finds(
                final(bytes)@,
                cr3,
                addr as int,
                Seq::empty(),
                addr + pages(len as int) * 4096,
            ) && kept_outside(
                old(bytes)@,
                final(bytes)@,
                cr3,
                addr as int,
                addr + pages(len as int) * 4096,
            )
            &&& old(k).world(old(bytes)@).mem.space_wf(cr3) && old(k).frames@.free() >= 4 * pages(
                len as int,
            ) ==> r.value == addr
        },
{
    let w = old(k).world(old(bytes)@);
    let w2 = final(k).world(final(bytes)@);
    assert(syscall::called(w, old(user)@, 11u64, addr, len, a2, w2, final(user)@, r));
    calls::lemma_home(w, i);
    let cr3 = w.tasks.processes[i]->0.cr3 as int;
    let n = pages(len as int);
    if syscall::is_user_region(addr, len) {
        let m = w.mem;
        let f = paging::map_flags(true);
        let e = Seq::<u8>::empty();
        space::lemma_map_flags(true);
        assert(addr + 0 * 4096 == addr);
        lemma_region(m, cr3, addr, 0, n);
        let (m2, ok) = m.region_mapped(cr3, addr as int, n as nat);
        assert(w2.mem == m2);
        assert(m2.bytes == final(bytes)@ && m.bytes == old(bytes)@);
        if m.space_wf(cr3) {
            if ok {
                userspace::lemma_pages(m, cr3, addr, e, f, 0, n);
                lemma_kept(m, m2, cr3, addr as int, addr + n * 4096);
                userspace::law_mapped_pages_hold_the_data(m, cr3, addr, e, f, n, m2);
                lemma_finds(m2, cr3, addr, e, addr + n * 4096);
            }
            if m.frames.free() >= 4 * n {
                userspace::law_enough_frames_map_every_page(m, cr3, addr, e, f, 0, n);
            }
        }
    }
}

/// No page of the region leads to a page table.
pub open spec fn leads_to_no_table(m: Mem, root: int, from: int, to: int) -> bool {
    forall|v: u64|
        from <= v < to && (#[trigger] m.leaf(root, v)) is Some ==> !space::is_table(
            m,
            root,
            m.leaf(root, v)->0.target(),
        )
}

/// A page of the region `from..to` led to frame `f`.
pub open spec fn led_to(b: Seq<u8>, root: int, from: int, to: int, f: int) -> bool {
    exists|v: u64|
        from <= v < to && (#[trigger] page_entry(b, root, v as int) matches Some(w) && address_in(w)
            == f * 4096)
}

proof fn lemma_last_table(m: Mem, root: int, virt: u64)
    requires
        m.space_wf(root),
    ensures
        m.last_table(root, virt) == m.table_at(root, paging::vpath(virt).drop_last()),
{
    reveal(Mem::space_wf);
    reveal_with_fuel(Mem::table_at, 4);
    space::lemma_vpath(virt);
    let p = paging::vpath(virt);
    let q3 = p.drop_last();
    let q2 = q3.drop_last();
    let q1 = q2.drop_last();
    let q0 = q1.drop_last();
    assert(q3.last() == p[2] && q2.last() == p[1] && q1.last() == p[0]);
    assert(q0 =~= Seq::empty());
    lemma_part_is_path(p, q3);
    lemma_part_is_path(p, q2);
    lemma_part_is_path(p, q1);
    lemma_part_is_path(p, q0);
    assert(m.table_at(root, q0) == Some(root));
    assert(m.table_at(root, q1) is Some ==> m.is_taken_frame(m.table_at(root, q1)->0));
    assert(m.table_at(root, q2) is Some ==> m.is_taken_frame(m.table_at(root, q2)->0));
    assert(m.table_at(root, q3) is Some ==> m.is_taken_frame(m.table_at(root, q3)->0));
}

proof fn lemma_part_is_path(p: Seq<int>, q: Seq<int>)
    requires
        space::page_path(p),
        q.len() <= 3,
        forall|k: int| 0 <= k < q.len() ==> #[trigger] q[k] == p[k],
    ensures
        paging::table_path(q),
{
}

/// What a page that is freed leaves behind.
proof fn lemma_page_freed(m: Mem, root: int, virt: u64)
    requires
        m.space_wf(root),
        m.leaf(root, virt) matches Some(e) ==> !space::is_table(m, root, e.target()),
    ensures
        ({
            let w = m.page_freed(root, virt);
            &&& w.space_wf(root)
            &&& w.leaf(root, virt) is None
            &&& forall|v: u64|
                !paging::same_page(v, virt) ==> #[trigger] w.leaf(root, v) == m.leaf(root, v)
            &&& forall|q: Seq<int>|
                paging::table_path(q) ==> #[trigger] w.table_at(root, q) == m.table_at(root, q)
            &&& w.frames.total == m.frames.total
            &&& w.frames.used.len() == m.frames.used.len()
            &&& forall|f: int|
                0 <= f < m.frames.used.len() ==> (#[trigger] w.frames.used[f]) == (m.frames.used[f]
                    && !(f < m.frames.total && (m.leaf(root, virt) matches Some(e) && e.target()
                    == f * 4096)))
        }),
{
    reveal(Mem::space_wf);
    lemma_last_table(m, root, virt);
    space::lemma_vpath(virt);
    let p = paging::vpath(virt);
    let r = p.drop_last();
    lemma_part_is_path(p, r);
    let u = m.unmapped(root, virt);
    let w = m.page_freed(root, virt);
    space::law_unmap_page_unmaps_that_page_alone(m, root, virt);
    match m.table_at(root, r) {
        Some(t) => {
            let e = m.entry(t, p[3]);
            assert(p.last() == p[3]);
            if e.present() {
                assert(m.leaf(root, virt) == Some(e));
                lemma_next(m, t, p[3]);
                assert(e.target() % 4096 == 0);
                assert(w.bytes == u.bytes);
                assert forall|q: Seq<int>| paging::table_path(q) implies #[trigger] w.table_at(
                    root,
                    q,
                ) == m.table_at(root, q) by {
                    space::lemma_set_leaf_at(m, root, r, p[3], PageEntry(0), q);
                    space::lemma_bare(w, root, q);
                    space::lemma_bare(u, root, q);
                }
                assert forall|q: Seq<int>|
                    paging::table_path(q) && (#[trigger] w.table_at(
                        root,
                        q,
                    )) is Some implies w.is_taken_frame(w.table_at(root, q)->0) by {
                    let s = m.table_at(root, q)->0;
                    assert(m.is_taken_frame(s));
                    assert(s != e.target());
                }
                assert forall|q: Seq<int>, q2: Seq<int>|
                    paging::table_path(q) && paging::table_path(q2) && (#[trigger] w.table_at(
                        root,
                        q,
                    )) is Some && #[trigger] w.table_at(root, q2) == w.table_at(
                        root,
                        q,
                    ) implies q == q2 by {
                    assert(m.table_at(root, q) == w.table_at(root, q));
                    assert(m.table_at(root, q2) == w.table_at(root, q2));
                }
                assert(w.space_wf(root));
                assert forall|v: u64| #[trigger] w.leaf(root, v) == u.leaf(root, v) by {
                    space::lemma_bare(w, root, paging::vpath(v).drop_last());
                    space::lemma_bare(u, root, paging::vpath(v).drop_last());
                }
            } else {
                assert(w == m);
                assert(m.leaf(root, virt) is None);
            }
        },
        None => {
            assert(w == m);
        },
    }
}

proof fn lemma_region_freed(m: Mem, root: int, virt: int, n: nat)
    requires
        m.space_wf(root),
        virt % 4096 == 0,
        0 <= virt,
        virt + n * 4096 <= 0x1_0000_0000_0000,
        leads_to_no_table(m, root, virt, virt + n * 4096),
    ensures
        ({
            let w = m.region_freed(root, virt, n);
            let end = virt + n * 4096;
            &&& w.space_wf(root)
            &&& forall|v: u64|
                (#[trigger] w.leaf(root, v)) == (if virt <= v % 0x1_0000_0000_0000 < end {
                    None
                } else {
                    m.leaf(root, v)
                })
            &&& w.frames.total == m.frames.total
            &&& w.frames.used.len() == m.frames.used.len()
            &&& forall|f: int|
                0 <= f < m.frames.used.len() ==> (#[trigger] w.frames.used[f]) == (m.frames.used[f]
                    && !(f < m.frames.total && led_to(m.bytes, root, virt, end, f)))
        }),
    decreases n,
{
    let end = virt + n * 4096;
    if n == 0 {
        assert(forall|f: int| !led_to(m.bytes, root, virt, end, f));
    } else {
        let u = m.page_freed(root, virt as u64);
        let w = m.region_freed(root, virt, n);
        lemma_page_freed(m, root, virt as u64);
        assert forall|v: u64|
            virt + 4096 <= v < end && (#[trigger] u.leaf(root, v)) is Some implies !space::is_table(
            u,
            root,
            u.leaf(root, v)->0.target(),
        ) by {
            assert(!paging::same_page(v, virt as u64));
            assert(u.leaf(root, v) == m.leaf(root, v));
            let t = u.leaf(root, v)->0.target();
            if space::is_table(u, root, t) {
                let q = choose|q: Seq<int>|
                    paging::table_path(q) && #[trigger] u.table_at(root, q) == Some(t);
                assert(m.table_at(root, q) == Some(t));
                assert(space::is_table(m, root, t));
            }
        }
        lemma_region_freed(u, root, virt + 4096, (n - 1) as nat);
        assert(virt + 4096 + (n - 1) * 4096 == end);
        assert forall|v: u64|
            (#[trigger] w.leaf(root, v)) == (if virt <= v % 0x1_0000_0000_0000 < end {
                None
            } else {
                m.leaf(root, v)
            }) by {
            if paging::same_page(v, virt as u64) {
                space::lemma_same_page(v, virt as u64);
                assert(u.leaf(root, v) is None);
            } else {
                assert(u.leaf(root, v) == m.leaf(root, v));
            }
        }
        assert forall|f: int| 0 <= f < m.frames.used.len() implies (#[trigger] w.frames.used[f])
            == (m.frames.used[f] && !(f < m.frames.total && led_to(m.bytes, root, virt, end, f))) by {
            assert(w.frames.used[f] == (u.frames.used[f] && !(f < m.frames.total && led_to(
                u.bytes,
                root,
                virt + 4096,
                end,
                f,
            ))));
            lemma_page_entry(m, root, virt as u64);
            match m.leaf(root, virt as u64) {
                Some(e) => lemma_entry_bits(e.0),
                None => {},
            }
            if led_to(u.bytes, root, virt + 4096, end, f) {
                let v = choose|v: u64|
                    virt + 4096 <= v < end && (#[trigger] page_entry(u.bytes, root, v as int)
                        matches Some(w) && address_in(w) == f * 4096);
                lemma_page_entry(u, root, v);
                lemma_page_entry(m, root, v);
                assert(!paging::same_page(v, virt as u64));
                assert(u.leaf(root, v) == m.leaf(root, v));
                assert(page_entry(m.bytes, root, v as int) is Some);
                assert(led_to(m.bytes, root, virt, end, f));
            }
            if m.leaf(root, virt as u64) matches Some(e) && e.target() == f * 4096 {
                assert(page_entry(m.bytes, root, (virt as u64) as int) is Some);
                assert(led_to(m.bytes, root, virt, end, f));
            }
            if led_to(m.bytes, root, virt, end, f) {
                let v = choose|v: u64|
                    virt <= v < end && (#[trigger] page_entry(m.bytes, root, v as int) matches Some(
                        w,
                    ) && address_in(w) == f * 4096);
                lemma_page_entry(u, root, v);
                lemma_page_entry(m, root, v);
                if paging::same_page(v, virt as u64) {
                    space::lemma_same_page(v, virt as u64);
                    assert(m.leaf(root, v) == m.leaf(root, virt as u64));
                } else {
                    assert(u.leaf(root, v) == m.leaf(root, v));
                    assert(v >= virt + 4096);
                    assert(page_entry(u.bytes, root, v as int) is Some);
                    assert(led_to(u.bytes, root, virt + 4096, end, f));
                }
            }
        }
    }
}

/// The pages of a region lead nowhere, and other pages lead where they did before. The
/// frames of RAM that its pages led to are free, and no other frame changes.
pub open spec fn region_gone(m: Mem, w: Mem, root: int, from: int, end: int) -> bool {
    &&& forall|v: u64| from <= v < end ==> (#[trigger] page_entry(w.bytes, root, v as int)) is None
    &&& kept_outside(m.bytes, w.bytes, root, from, end)
    &&& w.frames.total == m.frames.total
    &&& forall|f: int|
        0 <= f < m.frames.used.len() ==> (#[trigger] w.frames.used[f]) == (m.frames.used[f] && !(f
            < m.frames.total && led_to(m.bytes, root, from, end, f)))
}

/// What a region that is freed leaves behind.
pub proof fn lemma_region_gone(m: Mem, root: int, virt: int, n: nat)
    requires
        m.space_wf(root),
        virt % 4096 == 0,
        0 <= virt,
        virt + n * 4096 <= 0x1_0000_0000_0000,
        leads_to_no_table(m, root, virt, virt + n * 4096),
    ensures
        region_gone(m, m.region_freed(root, virt, n), root, virt, virt + n * 4096),
{
    let w = m.region_freed(root, virt, n);
    let end = virt + n * 4096;
    lemma_region_freed(m, root, virt, n);
    assert forall|v: u64| virt <= v < end implies (#[trigger] page_entry(
        w.bytes,
        root,
        v as int,
    )) is None by {
        lemma_page_entry(w, root, v);
        assert(w.leaf(root, v) is None);
    }
    assert forall|v: u64| !(virt <= v % 0x1_0000_0000_0000 < end) implies #[trigger] page_entry(
        w.bytes,
        root,
        v as int,
    ) == page_entry(m.bytes, root, v as int) by {
        lemma_page_entry(w, root, v);
        lemma_page_entry(m, root, v);
        assert(w.leaf(root, v) == m.leaf(root, v));
    }
}

/// A region that a program gives back leads nowhere afterwards, and other pages lead where
/// they did before. The frames of RAM that its pages led to are free, and no other frame
/// changes. It is refused, without a change, if it does not start on a page above 0, is
/// empty or ends above 0x8000_0000_0000. This holds of regions whose pages lead to no page
/// table.
pub proof fn law_region_that_is_given_back_leads_nowhere(
    k: &mut Kernel,
    bytes: &mut [u8],
    user: &mut [u8],
    addr: u64,
    len: u64,
    a2: u64,
    i: int,
    r: SysReturn,
)
    requires
        old(k).wf(old(bytes)@),
        calls::home(old(k).world(old(bytes)@), i),
        call_ensures(
            syscall::syscall_dispatch_inner,
            (k, bytes, user, 12u64, addr, len, a2),
            r,
        ),
    ensures
        final(user)@ == old(user)@,
        r.output@.len() == 0 && r.switch is None,
        !(addr % 4096 == 0 && addr > 0 && len > 0 && addr + len <= 0x8000_0000_0000) ==> r.value
            == 0xFFFF_FFFF_FFFF_FFFF && final(k).world(final(bytes)@) == old(k).world(old(bytes)@),
        addr % 4096 == 0 && addr > 0 && len > 0 && addr + len <= 0x8000_0000_0000 ==> {
            let w = old(k).world(old(bytes)@);
            let w2 = final(k).world(final(bytes)@);
            let cr3 = old(k).tasks@.processes[i]->0.cr3 as int;
            let end = addr + pages(len as int) * 4096;
            &&& r.value == 0
            &&& w2 == (World { mem: w2.mem, ..w })
            &&& w.mem.space_wf(cr3) && leads_to_no_table(w.mem, cr3, addr as int, end)
                ==> region_gone(w.mem, w2.mem, cr3, addr as int, end)
        },
{
    let w = old(k).world(old(bytes)@);
    let w2 = final(k).world(final(bytes)@);
    assert(syscall::called(w, old(user)@, 12u64, addr, len, a2, w2, final(user)@, r));
    calls::lemma_home(w, i);
    let cr3 = w.tasks.processes[i]->0.cr3 as int;
    let n = pages(len as int);
    let end = addr + n * 4096;
    if syscall::is_user_region(addr, len) && w.mem.space_wf(cr3) && leads_to_no_table(
        w.mem,
        cr3,
        addr as int,
        end,
    ) {
        lemma_region_gone(w.mem, cr3, addr as int, n as nat);
    }
}

/// Pages that are mapped with rights lead to the data, page by page, and may be written and
/// executed as the rights say; other pages lead where they did.
pub proof fn law_data_is_mapped_with_its_rights(
    frames: &mut FrameAllocator,
    bytes: &mut [u8],
    root: u64,
    base: u64,
    data: &[u8],
    size: usize,
    writable: bool,
    executable: bool,
    rights: u64,
    r: bool,
)
    requires
        paging::mem(old(frames), old(bytes)@).space_wf(root as int),
        base % 4096 == 0,
        base + pages(size as int) * 4096 <= 0x1_0000_0000_0000,
        call_ensures(paging::rights, (writable, executable), rights),
        call_ensures(
            userspace::map_user_pages_as,
            (frames, bytes, root, base, data, size, rights),
            r,
        ),
    ensures
        r ==> pages(size as int) <= 256,
        r ==> finds(
            final(bytes)@,
            root as int,
            base as int,
            data@,
            base + pages(size as int) * 4096,
        ),
        r ==> forall|j: int|
            0 <= j < pages(size as int) ==> page_allows(
                #[trigger] page_entry(final(bytes)@, root as int, base + j * 4096),
                writable,
                executable,
            ),
        kept_outside(
            old(bytes)@,
            final(bytes)@,
            root as int,
            base as int,
            base + pages(size as int) * 4096,
        ),
        pages(size as int) <= 256 && old(frames)@.free() >= 4 * pages(size as int) ==> r,
{
    let m = paging::mem(old(frames), old(bytes)@);
    let w = paging::mem(final(frames), final(bytes)@);
    let n = userspace::page_count(size as int);
    space::lemma_user_rights(writable, executable);
    assert(w.bytes == final(bytes)@);
    if n <= 256 {
        assert(Some((w, r)) == userspace::pages_mapped(m, root as int, base, data@, rights, 0, n));
        userspace::lemma_pages(m, root as int, base, data@, rights, 0, n);
        lemma_kept(m, w, root as int, base as int, base + n * 4096);
        if r {
            userspace::law_mapped_pages_hold_the_data(m, root as int, base, data@, rights, n, w);
            lemma_finds(w, root as int, base, data@, base + n * 4096);
            assert forall|j: int| 0 <= j < n implies page_allows(
                #[trigger] page_entry(final(bytes)@, root as int, base + j * 4096),
                writable,
                executable,
            ) by {
                let v = (base + j * 4096) as u64;
                assert(userspace::page_holds(
                    w,
                    root as int,
                    v,
                    userspace::page_of(data@, j),
                    rights,
                ));
                let e = w.leaf(root as int, v)->0;
                lemma_page_entry(w, root as int, v);
                lemma_entry_bits(e.0);
                paging::law_rights_are_told(e.target() as u64, writable, executable);
            }
        }
        if m.frames.free() >= 4 * n {
            userspace::law_enough_frames_map_every_page(
                m,
                root as int,
                base,
                data@,
                rights,
                0,
                n,
            );
        }
    } else {
        assert(w == m);
        lemma_kept(m, w, root as int, base as int, base + n * 4096);
    }
}

/// What programs may do with a page.
pub open spec fn page_allows(e: Option<int>, writable: bool, executable: bool) -> bool {
    e matches Some(w) && {
        &&& w / 4 % 2 == 1
        &&& w / 2 % 2 == 1 <==> writable
        &&& w / 0x8000_0000_0000_0000 == 0 <==> executable
    }
}

/// A region that is mapped is empty memory, and one that is freed leads nowhere; see
/// `region_gone`. Other pages lead where they did.
pub proof fn law_regions_come_and_go(
    frames: &mut FrameAllocator,
    bytes: &mut [u8],
    frames2: &mut FrameAllocator,
    bytes2: &mut [u8],
    root: u64,
    virt: u64,
    n: u64,
    r: bool,
)
    requires
        paging::mem(old(frames), old(bytes)@).space_wf(root as int),
        paging::mem(old(frames2), old(bytes2)@).space_wf(root as int),
        virt % 4096 == 0,
        virt + n * 4096 <= 0x1_0000_0000_0000,
        call_ensures(region::map_region, (frames, bytes, root, virt, n), r),
        call_ensures(region::free_region, (frames2, bytes2, root, virt, n), ()),
    ensures
        r ==> finds(
            final(bytes)@,
            root as int,
            virt as int,
            Seq::empty(),
            virt + n * 4096,
        ) && kept_outside(
            old(bytes)@,
            final(bytes)@,
            root as int,
            virt as int,
            virt + n * 4096,
        ),
        old(frames)@.free() >= 4 * n ==> r,
        leads_to_no_table(
            paging::mem(old(frames2), old(bytes2)@),
            root as int,
            virt as int,
            virt + n * 4096,
        ) ==> region_gone(
            paging::mem(old(frames2), old(bytes2)@),
            paging::mem(final(frames2), final(bytes2)@),
            root as int,
            virt as int,
            virt + n * 4096,
        ),
{
    let m = paging::mem(old(frames), old(bytes)@);
    let w = paging::mem(final(frames), final(bytes)@);
    let m2 = paging::mem(old(frames2), old(bytes2)@);
    let f = paging::map_flags(true);
    let e = Seq::<u8>::empty();
    space::lemma_space_sane(m, root as int);
    space::lemma_map_flags(true);
    assert(virt + 0 * 4096 == virt);
    assert((w, r) == m.region_mapped(root as int, virt as int, n as nat));
    assert(w.bytes == final(bytes)@);
    lemma_region(m, root as int, virt, 0, n as int);
    if r {
        userspace::lemma_pages(m, root as int, virt, e, f, 0, n as int);
        lemma_kept(m, w, root as int, virt as int, virt + n * 4096);
        userspace::law_mapped_pages_hold_the_data(m, root as int, virt, e, f, n as int, w);
        lemma_finds(w, root as int, virt, e, virt + n * 4096);
    }
    if m.frames.free() >= 4 * n {
        userspace::law_enough_frames_map_every_page(m, root as int, virt, e, f, 0, n as int);
    }
    if leads_to_no_table(m2, root as int, virt as int, virt + n * 4096) {
        lemma_region_gone(m2, root as int, virt as int, n as nat);
    }
}

/// A process without an address space of its own gets no region and gives none back.
pub proof fn law_without_a_space_there_are_no_regions(
    k: &mut Kernel,
    bytes: &mut [u8],
    user: &mut [u8],
    nr: u64,
    addr: u64,
    len: u64,
    a2: u64,
    r: SysReturn,
)
    requires
        old(k).wf(old(bytes)@),
        nr == 11 || nr == 12,
        forall|i: int|
            0 <= i < 16 ==> !((#[trigger] old(k).tasks@.processes[i]) matches Some(p) && p.pid
                == calls::caller(old(k).world(old(bytes)@))),
        call_ensures(
            syscall::syscall_dispatch_inner,
            (k, bytes, user, nr, addr, len, a2),
            r,
        ),
    ensures
        r.value == 0xFFFF_FFFF_FFFF_FFFF,
        final(k).world(final(bytes)@) == old(k).world(old(bytes)@),
        final(user)@ == old(user)@,
{
    let w = old(k).world(old(bytes)@);
    let w2 = final(k).world(final(bytes)@);
    assert(syscall::called(w, old(user)@, nr, addr, len, a2, w2, final(user)@, r));
    calls::lemma_homeless(w);
}

} // verus!
