//! Four-level page tables, held in the frames of physical RAM.
//!
//! A virtual address is cut into four indices of nine bits and an offset of
//! twelve. Each index picks one of the 512 entries of a table; the entry leads
//! to the next table, and the last one to the page.

pub mod flags;
pub mod region;
pub mod space;

use vstd::prelude::*;
use super::phys;
use super::phys::{FrameAllocator, Frames, MAX_FRAMES};
use super::ram;

verus! {

/// The bits of an entry that hold the physical address.
pub const ADDRESS_MASK: u64 = 0x000F_FFFF_FFFF_F000;

/// The bits of an entry that hold its flags: the low 12 and bit 63.
pub const FLAGS_MASK: u64 = 0x8000_0000_0000_0FFF;

/// One entry of a page table of any level.
#[derive(Clone, Copy, PartialEq, Eq, Structural)]
pub struct PageEntry(pub u64);

impl PageEntry {
    /// The entry is in use.
    pub open spec fn present(self) -> bool {
        self.0 & flags::PRESENT != 0
    }

    /// Reachable from user mode.
    pub open spec fn user(self) -> bool {
        self.0 & flags::USER != 0
    }

    /// Writing is allowed.
    pub open spec fn writable(self) -> bool {
        self.0 & flags::WRITABLE != 0
    }

    /// Code may be executed.
    pub open spec fn executable(self) -> bool {
        self.0 & flags::NO_EXECUTE == 0
    }

    /// The physical address the entry leads to.
    pub open spec fn target(self) -> int {
        (self.0 & ADDRESS_MASK) as int
    }

    /// The entry for a physical address with some flags.
    pub open spec fn made(phys_addr: u64, flags: u64) -> PageEntry {
        PageEntry((phys_addr & ADDRESS_MASK) | flags)
    }

    /// An entry that is not in use.
    pub fn empty() -> (r: PageEntry)
        ensures
            r == PageEntry(0),
            !r.present(),
    {
        proof {
            lemma_flag_bits(0, 0);
        }
        PageEntry(0)
    }

    /// The entry for a physical address with some flags. Only the bits 12 to 51
    /// of the address are kept.
    pub fn new(phys_addr: u64, flags: u64) -> (r: PageEntry)
        ensures
            r == PageEntry::made(phys_addr, flags),
    {
        PageEntry((phys_addr & ADDRESS_MASK) | flags)
    }

    /// Whether the entry is in use.
    pub fn is_present(&self) -> (r: bool)
        ensures
            r == self.present(),
    {
        self.0 & flags::PRESENT != 0
    }

    /// The physical address the entry leads to.
    pub fn address(&self) -> (r: u64)
        ensures
            r == self.target(),
            r % 4096 == 0,
    {
        proof {
            lemma_address_bits(self.0);
        }
        self.0 & ADDRESS_MASK
    }

    /// The flags of the entry: the low 12 bits and bit 63.
    pub fn flags(&self) -> (r: u64)
        ensures
            r == self.0 & FLAGS_MASK,
    {
        self.0 & FLAGS_MASK
    }
}

/// A page table: 512 entries, which fill one frame.
pub struct PageTable {
    pub entries: [PageEntry; 512],
}

impl PageTable {
    /// A table with no entry in use.
    pub fn empty() -> (r: PageTable)
        ensures
            forall|i: int| 0 <= i < 512 ==> r.entries@[i] == PageEntry(0),
    {
        PageTable { entries: [PageEntry(0); 512] }
    }
}

proof fn lemma_address_bits(v: u64)
    by (bit_vector)
    ensures
        (v & 0x000F_FFFF_FFFF_F000u64) % 4096 == 0,
{
}

proof fn lemma_flag_bits(a: u64, f: u64)
    by (bit_vector)
    ensures
        0u64 & 1 == 0,
        (((a & 0x000F_FFFF_FFFF_F000u64) | f) & 1 != 0) == (f & 1 != 0),
        f & 0x000F_FFFF_FFFF_F000u64 == 0 ==> ((a & 0x000F_FFFF_FFFF_F000u64) | f)
            & 0x000F_FFFF_FFFF_F000u64 == a & 0x000F_FFFF_FFFF_F000u64,
        ((a & 0x000F_FFFF_FFFF_F000u64) | f) & 0x8000_0000_0000_0FFFu64 == f
            & 0x8000_0000_0000_0FFFu64,
        a % 4096 == 0 && a < 0x10_0000_0000_0000 ==> a & 0x000F_FFFF_FFFF_F000u64 == a,
{
}

proof fn lemma_base_flags()
    by (bit_vector)
    ensures
        (1u64 | 2u64 | 4u64) & 1 != 0,
        (1u64 | 2u64 | 0u64) & 1 != 0,
        (1u64 | 2u64 | 4u64) & 0x000F_FFFF_FFFF_F000u64 == 0,
        (1u64 | 2u64 | 0u64) & 0x000F_FFFF_FFFF_F000u64 == 0,
{
}

/// An entry gives back the flags it was made from, and the address as long as the
/// flags lie outside of the address bits.
pub proof fn law_entry_gives_back_address_and_flags(phys_addr: u64, flags: u64)
    ensures
        flags & ADDRESS_MASK == 0 ==> PageEntry::made(phys_addr, flags).target() == (phys_addr
            & ADDRESS_MASK) as int,
        PageEntry::made(phys_addr, flags).0 & FLAGS_MASK == flags & FLAGS_MASK,
        PageEntry::made(phys_addr, flags).present() == (flags & flags::PRESENT != 0),
{
    lemma_flag_bits(phys_addr, flags);
}

proof fn lemma_indices(v: u64)
    by (bit_vector)
    ensures
        (v >> 39) & 0x1FF == v / 0x80_0000_0000 % 512,
        (v >> 30) & 0x1FF == v / 0x4000_0000 % 512,
        (v >> 21) & 0x1FF == v / 0x20_0000 % 512,
        (v >> 12) & 0x1FF == v / 0x1000 % 512,
{
}

/// The index into the PML4 (bits 39 to 47).
pub fn pml4_index(virt: u64) -> (r: usize)
    ensures
        r == virt as int / 0x80_0000_0000 % 512,
{
    proof {
        lemma_indices(virt);
    }
    ((virt >> 39) & 0x1FF) as usize
}

/// The index into the PDPT (bits 30 to 38).
pub fn pdpt_index(virt: u64) -> (r: usize)
    ensures
        r == virt as int / 0x4000_0000 % 512,
{
    proof {
        lemma_indices(virt);
    }
    ((virt >> 30) & 0x1FF) as usize
}

/// The index into the page directory (bits 21 to 29).
pub fn pd_index(virt: u64) -> (r: usize)
    ensures
        r == virt as int / 0x20_0000 % 512,
{
    proof {
        lemma_indices(virt);
    }
    ((virt >> 21) & 0x1FF) as usize
}

/// The index into the page table (bits 12 to 20).
pub fn pt_index(virt: u64) -> (r: usize)
    ensures
        r == virt as int / 0x1000 % 512,
{
    proof {
        lemma_indices(virt);
    }
    ((virt >> 12) & 0x1FF) as usize
}

/// The four indices of a virtual address.
#[verifier::opaque]
pub open spec fn vpath(virt: u64) -> Seq<int> {
    seq![
        virt as int / 0x80_0000_0000 % 512,
        virt as int / 0x4000_0000 % 512,
        virt as int / 0x20_0000 % 512,
        virt as int / 0x1000 % 512,
    ]
}

/// Physical memory: the bytes, and which frames are taken.
#[verifier::ext_equal]
pub struct Mem {
    pub bytes: Seq<u8>,
    pub frames: Frames,
}

impl Mem {
    /// The bitmap covers the RAM, and the RAM holds every frame.
    pub open spec fn sane(self) -> bool {
        &&& self.frames.used.len() == MAX_FRAMES
        &&& self.frames.total <= MAX_FRAMES
        &&& self.frames.total * 4096 <= self.bytes.len()
    }

    /// Entry `index` of the table at address `table`.
    pub open spec fn entry(self, table: int, index: int) -> PageEntry {
        PageEntry(ram::le64(self.bytes, table + 8 * index))
    }

    /// The memory with entry `index` of the table at `table` replaced.
    pub open spec fn set_entry(self, table: int, index: int, e: PageEntry) -> Mem {
        Mem { bytes: ram::with64(self.bytes, table + 8 * index, e.0), frames: self.frames }
    }

    /// A table at this address lies in the RAM.
    pub open spec fn holds_table(self, table: int) -> bool {
        0 <= table && table + 4096 <= self.bytes.len()
    }

    /// The lowest free frame taken and cleared.
    pub open spec fn fresh(self) -> Mem {
        let f = self.frames.lowest_free()->0 as int;
        Mem { bytes: ram::filled(self.bytes, f * 4096, 4096, 0), frames: self.frames.take(f) }
    }

    /// The address of the lowest free frame.
    pub open spec fn fresh_addr(self) -> int {
        self.frames.lowest_free()->0 as int * 4096
    }

    /// The memory once entry `index` of the table at `table` leads to a table:
    /// as it is if the entry is in use, otherwise with a new empty table.
    /// `None` if there is no frame for it, or the table is not in the RAM.
    pub open spec fn with_table(self, table: int, index: int, flags: u64) -> Option<Mem> {
        if !self.holds_table(table) {
            None
        } else if self.entry(table, index).present() {
            Some(self)
        } else if self.frames.lowest_free() is None {
            None
        } else {
            Some(
                self.fresh().set_entry(
                    table,
                    index,
                    PageEntry::made(self.fresh_addr() as u64, flags),
                ),
            )
        }
    }

    /// The memory once the page of `virt` leads to `phys_addr`, in the address
    /// space whose PML4 is at `pml4`. `None` if a table on the way lacks a
    /// frame or does not lie in the RAM.
    pub open spec fn mapped(self, pml4: int, virt: u64, phys_addr: u64, flags: u64) -> Option<Mem> {
        self.mapped_as(pml4, virt, phys_addr, flags, flags)
    }

    /// As `mapped`, with flags for new tables and others for the page itself.
    pub open spec fn mapped_as(
        self,
        pml4: int,
        virt: u64,
        phys_addr: u64,
        flags: u64,
        rights: u64,
    ) -> Option<Mem> {
        let p = vpath(virt);
        match self.with_table(pml4, p[0], flags) {
            None => None,
            Some(m1) => {
                let pdpt = m1.entry(pml4, p[0]).target();
                match m1.with_table(pdpt, p[1], flags) {
                    None => None,
                    Some(m2) => {
                        let pd = m2.entry(pdpt, p[1]).target();
                        match m2.with_table(pd, p[2], flags) {
                            None => None,
                            Some(m3) => {
                                let pt = m3.entry(pd, p[2]).target();
                                if m3.holds_table(pt) {
                                    Some(
                                        m3.set_entry(
                                            pt,
                                            p[3],
                                            PageEntry::made(phys_addr, rights),
                                        ),
                                    )
                                } else {
                                    None
                                }
                            },
                        }
                    },
                }
            },
        }
    }

    /// The table reached from `pml4` by a path of indices.
    pub open spec fn table_at(self, pml4: int, path: Seq<int>) -> Option<int>
        decreases path.len(),
    {
        if path.len() == 0 {
            Some(pml4)
        } else {
            match self.table_at(pml4, path.drop_last()) {
                Some(t) => if self.entry(t, path.last()).present() {
                    Some(self.entry(t, path.last()).target())
                } else {
                    None
                },
                None => None,
            }
        }
    }

    /// The entry at the end of a path, if it is in use.
    pub open spec fn page(self, pml4: int, path: Seq<int>) -> Option<PageEntry> {
        match self.table_at(pml4, path.drop_last()) {
            Some(t) => if self.entry(t, path.last()).present() {
                Some(self.entry(t, path.last()))
            } else {
                None
            },
            None => None,
        }
    }

    /// The entry that maps a virtual address, if it is mapped.
    pub open spec fn leaf(self, pml4: int, virt: u64) -> Option<PageEntry> {
        self.page(pml4, vpath(virt))
    }

    /// The physical address behind a virtual one.
    pub open spec fn translate(self, pml4: int, virt: u64) -> Option<int> {
        match self.leaf(pml4, virt) {
            Some(e) => Some(e.target() + virt % 4096),
            None => None,
        }
    }

    /// The memory once the page of `virt` leads nowhere.
    pub open spec fn unmapped(self, pml4: int, virt: u64) -> Mem {
        let p = vpath(virt);
        match self.table_at(pml4, p.drop_last()) {
            Some(t) => self.set_entry(t, p.last(), PageEntry(0)),
            None => self,
        }
    }

    /// The tables on the way to `virt` lie in the RAM.
    pub open spec fn walk_in_ram(self, pml4: int, virt: u64) -> bool {
        forall|k: int|
            0 <= k < 4 ==> ((#[trigger] self.table_at(pml4, vpath(virt).take(k))) matches Some(t)
                ==> self.holds_table(t))
    }

    /// `table` is the address of a taken frame of RAM.
    pub open spec fn is_taken_frame(self, table: int) -> bool {
        &&& table % 4096 == 0
        &&& 0 <= table / 4096 < self.frames.total
        &&& self.frames.used[table / 4096]
    }

    /// The tables under `pml4` lie in taken frames, and no two paths lead to
    /// the same table.
    #[verifier::opaque]
    pub open spec fn space_wf(self, pml4: int) -> bool {
        &&& self.sane()
        &&& forall|p: Seq<int>|
            table_path(p) && (#[trigger] self.table_at(pml4, p)) is Some ==> self.is_taken_frame(
                self.table_at(pml4, p)->0,
            )
        &&& forall|p: Seq<int>, q: Seq<int>|
            table_path(p) && table_path(q) && (#[trigger] self.table_at(pml4, p)) is Some
                && #[trigger] self.table_at(pml4, q) == self.table_at(pml4, p) ==> p == q
    }
}

/// Two virtual addresses lie on the same page.
pub open spec fn same_page(a: u64, b: u64) -> bool {
    a % 0x1_0000_0000_0000 / 4096 == b % 0x1_0000_0000_0000 / 4096
}

/// A path of at most three indices: the way to a table.
pub open spec fn table_path(p: Seq<int>) -> bool {
    p.len() <= 3 && forall|i: int| 0 <= i < p.len() ==> 0 <= #[trigger] p[i] < 512
}

/// The flags of every entry that `map_page` makes.
pub open spec fn map_flags(user: bool) -> u64 {
    flags::PRESENT | flags::WRITABLE | (if user {
        flags::USER
    } else {
        0
    })
}

/// The flags of a page for user mode, by what user mode may do there besides
/// reading.
pub open spec fn user_rights(writable: bool, executable: bool) -> u64 {
    flags::PRESENT | flags::USER | (if writable {
        flags::WRITABLE
    } else {
        0
    }) | (if executable {
        0
    } else {
        flags::NO_EXECUTE
    })
}

/// The flags of a page for user mode. See `user_rights`.
pub fn rights(writable: bool, executable: bool) -> (r: u64)
    ensures
        r == user_rights(writable, executable),
{
    flags::PRESENT | flags::USER | (if writable {
        flags::WRITABLE
    } else {
        0
    }) | (if executable {
        0
    } else {
        flags::NO_EXECUTE
    })
}

proof fn lemma_rights_bits(a: u64, w: u64, x: u64)
    by (bit_vector)
    requires
        w == 0 || w == 2,
        x == 0 || x == 0x8000_0000_0000_0000,
    ensures
        (1u64 | 4u64 | w | x) & 1 != 0,
        (1u64 | 4u64 | w | x) & 0x000F_FFFF_FFFF_F000u64 == 0,
        ((a & 0x000F_FFFF_FFFF_F000u64) | (1u64 | 4u64 | w | x)) & 4 != 0,
        ((a & 0x000F_FFFF_FFFF_F000u64) | (1u64 | 4u64 | w | x)) & 2 == w,
        ((a & 0x000F_FFFF_FFFF_F000u64) | (1u64 | 4u64 | w | x)) & 0x8000_0000_0000_0000 == x,
        1u64 | 4u64 | 2u64 | 0u64 == 1u64 | 2u64 | 4u64,
{
}

/// The entry of a page says what user mode may do there.
pub proof fn law_rights_are_told(phys_addr: u64, writable: bool, executable: bool)
    ensures
        ({
            let e = PageEntry::made(phys_addr, user_rights(writable, executable));
            &&& e.present()
            &&& e.user()
            &&& e.writable() == writable
            &&& e.executable() == executable
        }),
        user_rights(true, true) == map_flags(true),
{
    let f = user_rights(writable, executable);
    let w = if writable {
        flags::WRITABLE
    } else {
        0
    };
    let x = if executable {
        0
    } else {
        flags::NO_EXECUTE
    };
    lemma_rights_bits(phys_addr, w, x);
    lemma_flag_bits(phys_addr, f);
}

/// The memory that an allocator and the RAM make up.
pub open spec fn mem(frames: &FrameAllocator, bytes: Seq<u8>) -> Mem {
    Mem { bytes, frames: frames@ }
}

/// The bytes of memory alone, for what does not depend on the frames.
pub open spec fn bare(bytes: Seq<u8>) -> Mem {
    Mem { bytes, frames: Frames { total: 0, used: Seq::empty() } }
}

/// Clears one frame.
pub fn zero_frame(bytes: &mut [u8], addr: usize)
    requires
        addr + 4096 <= old(bytes).len(),
    ensures
        final(bytes)@ == ram::filled(old(bytes)@, addr as int, 4096, 0),
{
    ram::fill(bytes, addr, 4096, 0);
}

/// Reads one entry of a table.
fn read_entry(bytes: &[u8], table: usize, index: usize) -> (r: PageEntry)
    requires
        table + 4096 <= bytes.len(),
        index < 512,
    ensures
        r == PageEntry(ram::le64(bytes@, table + 8 * index)),
{
    PageEntry(ram::read_u64(bytes, table + 8 * index))
}

/// Makes entry `index` of the table at `table` lead to a table, and returns
/// the address of that table.
fn ensure_table(
    frames: &mut FrameAllocator,
    bytes: &mut [u8],
    table: usize,
    index: usize,
    flags: u64,
) -> (r: u64)
    requires
        old(frames).wf(),
        mem(old(frames), old(bytes)@).sane(),
        index < 512,
        mem(old(frames), old(bytes)@).with_table(table as int, index as int, flags) is Some,
    ensures
        final(frames).wf(),
        Some(mem(final(frames), final(bytes)@)) == mem(old(frames), old(bytes)@).with_table(
            table as int,
            index as int,
            flags,
        ),
        mem(final(frames), final(bytes)@).sane(),
        r == mem(final(frames), final(bytes)@).entry(table as int, index as int).target(),
{
    assert(table + 4096 <= bytes.len());
    let e = read_entry(bytes, table, index);
    if !e.is_present() {
        match phys::alloc_frame(frames) {
            Some(frame) => {
                zero_frame(bytes, frame);
                ram::write_u64(bytes, table + 8 * index, PageEntry::new(frame as u64, flags).0);
            },
            None => {},
        }
    }
    read_entry(bytes, table, index).address()
}

/// Maps the page of `virt_addr` to the frame at `phys_addr`, in the address
/// space whose PML4 lies at `pml4_addr`. Tables that are missing on the way
/// are put into free frames.
pub fn map_page(
    frames: &mut FrameAllocator,
    bytes: &mut [u8],
    pml4_addr: u64,
    virt_addr: u64,
    phys_addr: usize,
    user: bool,
)
    requires
        old(frames).wf(),
        mem(old(frames), old(bytes)@).sane(),
        mem(old(frames), old(bytes)@).mapped(
            pml4_addr as int,
            virt_addr,
            phys_addr as u64,
            map_flags(user),
        ) is Some,
    ensures
        final(frames).wf(),
        Some(mem(final(frames), final(bytes)@)) == mem(old(frames), old(bytes)@).mapped(
            pml4_addr as int,
            virt_addr,
            phys_addr as u64,
            map_flags(user),
        ),
        mem(final(frames), final(bytes)@).sane(),
{
    let base_flags: u64 = flags::PRESENT | flags::WRITABLE | (if user {
        flags::USER
    } else {
        0
    });
    map_with(frames, bytes, pml4_addr, virt_addr, phys_addr, base_flags, base_flags);
}

/// Maps the page of `virt_addr` to the frame at `phys_addr` as `map_page` does
/// for user mode, but gives the page the flags `rights`.
pub fn map_user_page(
    frames: &mut FrameAllocator,
    bytes: &mut [u8],
    pml4_addr: u64,
    virt_addr: u64,
    phys_addr: usize,
    rights: u64,
)
    requires
        old(frames).wf(),
        mem(old(frames), old(bytes)@).sane(),
        mem(old(frames), old(bytes)@).mapped_as(
            pml4_addr as int,
            virt_addr,
            phys_addr as u64,
            map_flags(true),
            rights,
        ) is Some,
    ensures
        final(frames).wf(),
        Some(mem(final(frames), final(bytes)@)) == mem(old(frames), old(bytes)@).mapped_as(
            pml4_addr as int,
            virt_addr,
            phys_addr as u64,
            map_flags(true),
            rights,
        ),
        mem(final(frames), final(bytes)@).sane(),
{
    let table_flags: u64 = flags::PRESENT | flags::WRITABLE | flags::USER;
    map_with(frames, bytes, pml4_addr, virt_addr, phys_addr, table_flags, rights);
}

/// Maps a page, with flags for new tables and others for the page itself.
fn map_with(
    frames: &mut FrameAllocator,
    bytes: &mut [u8],
    pml4_addr: u64,
    virt_addr: u64,
    phys_addr: usize,
    table_flags: u64,
    rights: u64,
)
    requires
        old(frames).wf(),
        mem(old(frames), old(bytes)@).sane(),
        mem(old(frames), old(bytes)@).mapped_as(
            pml4_addr as int,
            virt_addr,
            phys_addr as u64,
            table_flags,
            rights,
        ) is Some,
    ensures
        final(frames).wf(),
        Some(mem(final(frames), final(bytes)@)) == mem(old(frames), old(bytes)@).mapped_as(
            pml4_addr as int,
            virt_addr,
            phys_addr as u64,
            table_flags,
            rights,
        ),
        mem(final(frames), final(bytes)@).sane(),
{
    reveal(vpath);
    let i4: usize = pml4_index(virt_addr);
    let i3: usize = pdpt_index(virt_addr);
    let i2: usize = pd_index(virt_addr);
    let i1: usize = pt_index(virt_addr);
    assert(pml4_addr + 4096 <= bytes.len());
    let pdpt: u64 = ensure_table(frames, bytes, pml4_addr as usize, i4, table_flags);
    assert(pdpt + 4096 <= bytes.len());
    let pd: u64 = ensure_table(frames, bytes, pdpt as usize, i3, table_flags);
    assert(pd + 4096 <= bytes.len());
    let pt: u64 = ensure_table(frames, bytes, pd as usize, i2, table_flags);
    assert(pt + 4096 <= bytes.len());
    ram::write_u64(bytes, pt as usize + 8 * i1, PageEntry::new(phys_addr as u64, rights).0);
}

/// Removes the mapping of the page of `virt_addr`. The frame behind it stays
/// taken. Returns whether an entry was written: the cached translation of the
/// address then has to be dropped.
pub fn unmap_page(bytes: &mut [u8], pml4_addr: u64, virt_addr: u64) -> (written: bool)
    requires
        bare(old(bytes)@).walk_in_ram(pml4_addr as int, virt_addr),
    ensures
        written == (bare(old(bytes)@).table_at(
            pml4_addr as int,
            vpath(virt_addr).drop_last(),
        ) is Some),
        final(bytes)@ == bare(old(bytes)@).unmapped(pml4_addr as int, virt_addr).bytes,
{
    reveal(vpath);
    let ghost m = bare(bytes@);
    let ghost p = vpath(virt_addr);
    let ghost root = pml4_addr as int;
    let i4: usize = pml4_index(virt_addr);
    let i3: usize = pdpt_index(virt_addr);
    let i2: usize = pd_index(virt_addr);
    let i1: usize = pt_index(virt_addr);
    proof {
        assert(p.drop_last() =~= p.take(3));
        assert(p.take(3).drop_last() =~= p.take(2));
        assert(p.take(2).drop_last() =~= p.take(1));
        assert(p.take(1).drop_last() =~= p.take(0));
        assert(m.table_at(root, p.take(0)) == Some(root));
        assert(p.take(1).last() == i4 && p.take(2).last() == i3 && p.take(3).last() == i2);
        assert(m.holds_table(root));
    }
    assert(pml4_addr + 4096 <= bytes.len());
    let e: PageEntry = read_entry(bytes, pml4_addr as usize, i4);
    if !e.is_present() {
        proof {
            assert(m.table_at(root, p.take(1)) is None);
            assert(m.table_at(root, p.take(2)) is None);
        }
        return false;
    }
    let pdpt: u64 = e.address();
    assert(m.table_at(root, p.take(1)) == Some(pdpt as int));
    assert(pdpt + 4096 <= bytes.len());
    let e: PageEntry = read_entry(bytes, pdpt as usize, i3);
    if !e.is_present() {
        assert(m.table_at(root, p.take(2)) is None);
        return false;
    }
    let pd: u64 = e.address();
    assert(m.table_at(root, p.take(2)) == Some(pd as int));
    assert(pd + 4096 <= bytes.len());
    let e: PageEntry = read_entry(bytes, pd as usize, i2);
    if !e.is_present() {
        return false;
    }
    let pt: u64 = e.address();
    assert(m.table_at(root, p.take(3)) == Some(pt as int));
    assert(pt + 4096 <= bytes.len());
    ram::write_u64(bytes, pt as usize + 8 * i1, PageEntry::empty().0);
    true
}

} // verus!
