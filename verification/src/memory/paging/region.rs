//! Regions of pages in an address space of which nothing is known: mapping and
//! freeing them as far as the page tables lie in the RAM.

use vstd::prelude::*;
use crate::memory::phys;
use crate::memory::phys::FrameAllocator;
use crate::memory::ram;
use super::{flags, map_flags, mem, vpath, Mem, PageEntry};

verus! {

impl Mem {
    /// The memory once entry `index` of the table at `table` leads to a table, and
    /// whether it does: not if the table is not in the RAM or no frame is free.
    pub open spec fn with_table_tried(self, table: int, index: int, f: u64) -> (Mem, bool) {
        match self.with_table(table, index, f) {
            Some(w) => (w, true),
            None => (self, false),
        }
    }

    /// The memory once the page of `virt` leads to `phys_addr`, and whether it
    /// does. Tables that were made on the way stay.
    pub open spec fn mapped_tried(self, pml4: int, virt: u64, phys_addr: u64, f: u64) -> (
        Mem,
        bool,
    ) {
        let p = vpath(virt);
        let (m1, ok1) = self.with_table_tried(pml4, p[0], f);
        if !ok1 {
            (m1, false)
        } else {
            let pdpt = m1.entry(pml4, p[0]).target();
            let (m2, ok2) = m1.with_table_tried(pdpt, p[1], f);
            if !ok2 {
                (m2, false)
            } else {
                let pd = m2.entry(pdpt, p[1]).target();
                let (m3, ok3) = m2.with_table_tried(pd, p[2], f);
                let pt = m3.entry(pd, p[2]).target();
                if !ok3 || !m3.holds_table(pt) {
                    (m3, false)
                } else {
                    (m3.set_entry(pt, p[3], PageEntry::made(phys_addr, f)), true)
                }
            }
        }
    }

    /// The memory once `n` empty pages are mapped from `virt` on for user mode, and
    /// whether all of them are. Frames that were taken by then stay taken.
    pub open spec fn region_mapped(self, pml4: int, virt: int, n: nat) -> (Mem, bool)
        decreases n,
    {
        if n == 0 {
            (self, true)
        } else if self.frames.lowest_free() is None {
            (self, false)
        } else {
            let (w, ok) = self.fresh().mapped_tried(
                pml4,
                virt as u64,
                self.fresh_addr() as u64,
                map_flags(true),
            );
            if ok {
                w.region_mapped(pml4, virt + 4096, (n - 1) as nat)
            } else {
                (w, false)
            }
        }
    }

    /// The last table on the way to `virt`, if it is there and every table on the
    /// way lies in the RAM.
    pub open spec fn last_table(self, pml4: int, virt: u64) -> Option<int> {
        let p = vpath(virt);
        match self.next_table(pml4, p[0]) {
            None => None,
            Some(pdpt) => match self.next_table(pdpt, p[1]) {
                None => None,
                Some(pd) => match self.next_table(pd, p[2]) {
                    None => None,
                    Some(pt) => if self.holds_table(pt) {
                        Some(pt)
                    } else {
                        None
                    },
                },
            },
        }
    }

    /// The table that an entry of a table in the RAM leads to.
    pub open spec fn next_table(self, table: int, index: int) -> Option<int> {
        if self.holds_table(table) && self.entry(table, index).present() {
            Some(self.entry(table, index).target())
        } else {
            None
        }
    }

    /// The memory once the page of `virt` leads nowhere and the frame that it led
    /// to is free. As it is if the page leads nowhere.
    pub open spec fn page_freed(self, pml4: int, virt: u64) -> Mem {
        match self.last_table(pml4, virt) {
            None => self,
            Some(t) => {
                let e = self.entry(t, vpath(virt)[3]);
                if !e.present() {
                    self
                } else {
                    let w = self.set_entry(t, vpath(virt)[3], PageEntry(0));
                    if e.target() / 4096 < self.frames.total {
                        Mem { frames: w.frames.release(e.target() / 4096), ..w }
                    } else {
                        w
                    }
                }
            },
        }
    }

    /// The memory once `n` pages from `virt` on are free.
    pub open spec fn region_freed(self, pml4: int, virt: int, n: nat) -> Mem
        decreases n,
    {
        if n == 0 {
            self
        } else {
            self.page_freed(pml4, virt as u64).region_freed(pml4, virt + 4096, (n - 1) as nat)
        }
    }
}

/// Makes entry `index` of the table at `table` lead to a table, and returns the
/// address of that table. `None` if that cannot be done.
fn try_table(
    frames: &mut FrameAllocator,
    bytes: &mut [u8],
    table: u64,
    index: usize,
    f: u64,
) -> (r: Option<u64>)
    requires
        old(frames).wf(),
        mem(old(frames), old(bytes)@).sane(),
        index < 512,
    ensures
        final(frames).wf(),
        mem(final(frames), final(bytes)@).sane(),
        final(bytes)@.len() == old(bytes)@.len(),
        (mem(final(frames), final(bytes)@), r is Some) == mem(
            old(frames),
            old(bytes)@,
        ).with_table_tried(table as int, index as int, f),
        r matches Some(t) ==> t == mem(final(frames), final(bytes)@).entry(
            table as int,
            index as int,
        ).target(),
{
    if bytes.len() < 4096 || table > (bytes.len() - 4096) as u64 {
        return None;
    }
    let at: usize = table as usize + 8 * index;
    let e = PageEntry(ram::read_u64(bytes, at));
    if !e.is_present() {
        match phys::alloc_frame(frames) {
            Some(frame) => {
                super::zero_frame(bytes, frame);
                ram::write_u64(bytes, at, PageEntry::new(frame as u64, f).0);
            },
            None => {
                return None;
            },
        }
    }
    Some(PageEntry(ram::read_u64(bytes, at)).address())
}

/// Maps the page of `virt` to the frame at `phys_addr` for user mode. Returns
/// whether that could be done. See `Mem::mapped_tried`.
fn try_map_page(
    frames: &mut FrameAllocator,
    bytes: &mut [u8],
    pml4: u64,
    virt: u64,
    phys_addr: u64,
) -> (r: bool)
    requires
        old(frames).wf(),
        mem(old(frames), old(bytes)@).sane(),
    ensures
        final(frames).wf(),
        mem(final(frames), final(bytes)@).sane(),
        final(bytes)@.len() == old(bytes)@.len(),
        (mem(final(frames), final(bytes)@), r) == mem(old(frames), old(bytes)@).mapped_tried(
            pml4 as int,
            virt,
            phys_addr,
            map_flags(true),
        ),
{
    reveal(vpath);
    let f: u64 = flags::PRESENT | flags::WRITABLE | flags::USER;
    let pdpt: u64 = match try_table(frames, bytes, pml4, super::pml4_index(virt), f) {
        Some(t) => t,
        None => {
            return false;
        },
    };
    let pd: u64 = match try_table(frames, bytes, pdpt, super::pdpt_index(virt), f) {
        Some(t) => t,
        None => {
            return false;
        },
    };
    let pt: u64 = match try_table(frames, bytes, pd, super::pd_index(virt), f) {
        Some(t) => t,
        None => {
            return false;
        },
    };
    if bytes.len() < 4096 || pt > (bytes.len() - 4096) as u64 {
        return false;
    }
    let i1: usize = super::pt_index(virt);
    ram::write_u64(bytes, pt as usize + 8 * i1, PageEntry::new(phys_addr, f).0);
    true
}

/// Maps `n` empty pages from `virt` on for user mode. Returns whether all of them
/// could be mapped. See `Mem::region_mapped`.
pub fn map_region(
    frames: &mut FrameAllocator,
    bytes: &mut [u8],
    pml4: u64,
    virt: u64,
    n: u64,
) -> (r: bool)
    requires
        old(frames).wf(),
        mem(old(frames), old(bytes)@).sane(),
        virt + n * 4096 <= u64::MAX,
    ensures
        final(frames).wf(),
        mem(final(frames), final(bytes)@).sane(),
        final(bytes)@.len() == old(bytes)@.len(),
        (mem(final(frames), final(bytes)@), r) == mem(old(frames), old(bytes)@).region_mapped(
            pml4 as int,
            virt as int,
            n as nat,
        ),
{
    let ghost m = mem(frames, bytes@);
    let mut i: u64 = 0;
    while i < n
        invariant
            i <= n,
            virt + n * 4096 <= u64::MAX,
            frames.wf(),
            mem(frames, bytes@).sane(),
            bytes@.len() == old(bytes)@.len(),
            m == mem(old(frames), old(bytes)@),
            m.region_mapped(pml4 as int, virt as int, n as nat) == mem(
                frames,
                bytes@,
            ).region_mapped(pml4 as int, virt + i * 4096, (n - i) as nat),
        decreases n - i,
    {
        let frame: usize = match phys::alloc_frame(frames) {
            Some(f) => f,
            None => {
                return false;
            },
        };
        super::zero_frame(bytes, frame);
        if !try_map_page(frames, bytes, pml4, virt + i * 4096, frame as u64) {
            return false;
        }
        i = i + 1;
    }
    true
}

/// The table that an entry of a table leads to.
fn follow(bytes: &[u8], table: u64, index: usize) -> (r: Option<u64>)
    requires
        index < 512,
    ensures
        match r {
            Some(t) => super::bare(bytes@).next_table(table as int, index as int) == Some(t as int),
            None => super::bare(bytes@).next_table(table as int, index as int) is None,
        },
{
    if bytes.len() < 4096 || table > (bytes.len() - 4096) as u64 {
        return None;
    }
    let e = PageEntry(ram::read_u64(bytes, table as usize + 8 * index));
    if e.is_present() {
        Some(e.address())
    } else {
        None
    }
}

/// The last table on the way to `virt`. See `Mem::last_table`.
fn find_last_table(bytes: &[u8], pml4: u64, virt: u64) -> (r: Option<u64>)
    ensures
        match r {
            Some(t) => super::bare(bytes@).last_table(pml4 as int, virt) == Some(t as int),
            None => super::bare(bytes@).last_table(pml4 as int, virt) is None,
        },
{
    reveal(vpath);
    let pdpt: u64 = match follow(bytes, pml4, super::pml4_index(virt)) {
        Some(t) => t,
        None => {
            return None;
        },
    };
    let pd: u64 = match follow(bytes, pdpt, super::pdpt_index(virt)) {
        Some(t) => t,
        None => {
            return None;
        },
    };
    let pt: u64 = match follow(bytes, pd, super::pd_index(virt)) {
        Some(t) => t,
        None => {
            return None;
        },
    };
    if bytes.len() < 4096 || pt > (bytes.len() - 4096) as u64 {
        return None;
    }
    Some(pt)
}

/// Where a page table is does not depend on the frames.
proof fn lemma_last_table(m: Mem, pml4: int, virt: u64)
    ensures
        m.last_table(pml4, virt) == super::bare(m.bytes).last_table(pml4, virt),
{
}

/// Frees the page of `virt`. See `Mem::page_freed`.
fn free_page(frames: &mut FrameAllocator, bytes: &mut [u8], pml4: u64, virt: u64)
    requires
        old(frames).wf(),
        mem(old(frames), old(bytes)@).sane(),
    ensures
        final(frames).wf(),
        mem(final(frames), final(bytes)@).sane(),
        final(bytes)@.len() == old(bytes)@.len(),
        mem(final(frames), final(bytes)@) == mem(old(frames), old(bytes)@).page_freed(
            pml4 as int,
            virt,
        ),
{
    let ghost m = mem(frames, bytes@);
    proof {
        lemma_last_table(m, pml4 as int, virt);
    }
    let pt: u64 = match find_last_table(bytes, pml4, virt) {
        Some(t) => t,
        None => {
            return;
        },
    };
    let i1: usize = super::pt_index(virt);
    assert(vpath(virt)[3] == i1) by {
        reveal(vpath);
    }
    assert(m.holds_table(pt as int));
    assert(pt + 4096 <= bytes.len());
    let at: usize = pt as usize + 8 * i1;
    let e = PageEntry(ram::read_u64(bytes, at));
    if !e.is_present() {
        return;
    }
    let frame: u64 = e.address();
    ram::write_u64(bytes, at, 0);
    if frame / 4096 < phys::total_count(frames) as u64 {
        phys::free_frame(frames, frame as usize);
    }
}

/// Frees `n` pages from `virt` on. See `Mem::region_freed`.
pub fn free_region(frames: &mut FrameAllocator, bytes: &mut [u8], pml4: u64, virt: u64, n: u64)
    requires
        old(frames).wf(),
        mem(old(frames), old(bytes)@).sane(),
        virt + n * 4096 <= u64::MAX,
    ensures
        final(frames).wf(),
        mem(final(frames), final(bytes)@).sane(),
        final(bytes)@.len() == old(bytes)@.len(),
        mem(final(frames), final(bytes)@) == mem(old(frames), old(bytes)@).region_freed(
            pml4 as int,
            virt as int,
            n as nat,
        ),
{
    let ghost m = mem(frames, bytes@);
    let mut i: u64 = 0;
    while i < n
        invariant
            i <= n,
            virt + n * 4096 <= u64::MAX,
            frames.wf(),
            mem(frames, bytes@).sane(),
            bytes@.len() == old(bytes)@.len(),
            m == mem(old(frames), old(bytes)@),
            m.region_freed(pml4 as int, virt as int, n as nat) == mem(
                frames,
                bytes@,
            ).region_freed(pml4 as int, virt + i * 4096, (n - i) as nat),
        decreases n - i,
    {
        free_page(frames, bytes, pml4, virt + i * 4096);
        i = i + 1;
    }
}

/// Where `map_page` may be called, trying to map the page does the same.
pub proof fn law_trying_agrees_with_mapping(
    m: Mem,
    pml4: int,
    virt: u64,
    phys_addr: u64,
    f: u64,
)
    ensures
        m.mapped(pml4, virt, phys_addr, f) is Some <==> m.mapped_tried(
            pml4,
            virt,
            phys_addr,
            f,
        ).1,
        m.mapped(pml4, virt, phys_addr, f) matches Some(w) ==> m.mapped_tried(
            pml4,
            virt,
            phys_addr,
            f,
        ).0 == w,
{
}

} // verus!
