//! The segment descriptors and the task state segment.
//!
//! `sysret` takes the user segments from fixed places: the data segment has to
//! stand in front of the code segment.

use vstd::prelude::*;

verus! {

pub const KERNEL_CODE_SEL: u16 = 0x08;

pub const KERNEL_DATA_SEL: u16 = 0x10;

pub const USER_DATA_SEL: u16 = 0x18;

pub const USER_CODE_SEL: u16 = 0x20;

pub const TSS_SEL: u16 = 0x28;

/// The user data segment with privilege level 3.
pub const USER_DATA_RPL3: u16 = 0x1B;

/// The user code segment with privilege level 3.
pub const USER_CODE_RPL3: u16 = 0x23;

/// Bytes of the stack for interrupts out of user mode.
pub const INTERRUPT_STACK_SIZE: u64 = 16_384;

/// Bytes of a task state segment.
pub const TSS_SIZE: u16 = 104;

/// How many stacks of their own interrupts can have.
pub const IST_COUNT: usize = 7;

/// One descriptor, as the processor reads it.
#[derive(Clone, Copy, PartialEq, Eq, Structural)]
pub struct GdtEntry {
    pub limit_low: u16,
    pub base_low: u16,
    pub base_mid: u8,
    pub access: u8,
    pub granularity: u8,
    pub base_high: u8,
}

impl GdtEntry {
    /// A descriptor of zeros.
    pub open spec fn spec_null() -> GdtEntry {
        GdtEntry {
            limit_low: 0,
            base_low: 0,
            base_mid: 0,
            access: 0,
            granularity: 0,
            base_high: 0,
        }
    }

    /// The descriptor of a segment.
    pub open spec fn made(base: u32, limit: u32, access: u8, flags: u8) -> GdtEntry {
        GdtEntry {
            limit_low: (limit % 0x1_0000) as u16,
            base_low: (base % 0x1_0000) as u16,
            base_mid: (base / 0x1_0000 % 0x100) as u8,
            access,
            granularity: (limit / 0x1_0000 % 16 + 16 * (flags % 16)) as u8,
            base_high: (base / 0x100_0000) as u8,
        }
    }

    /// The base address that a descriptor holds.
    pub open spec fn base(self) -> int {
        self.base_low + 0x1_0000 * self.base_mid + 0x100_0000 * self.base_high
    }

    /// The limit that a descriptor holds.
    pub open spec fn limit(self) -> int {
        self.limit_low + 0x1_0000 * (self.granularity % 16)
    }

    /// A descriptor of zeros.
    pub fn null() -> (r: GdtEntry)
        ensures
            r == GdtEntry::spec_null(),
    {
        GdtEntry {
            limit_low: 0,
            base_low: 0,
            base_mid: 0,
            access: 0,
            granularity: 0,
            base_high: 0,
        }
    }

    /// The descriptor of a segment. Of the limit 20 bits are kept, of the flags
    /// four.
    pub fn new(base: u32, limit: u32, access: u8, flags: u8) -> (r: GdtEntry)
        ensures
            r == GdtEntry::made(base, limit, access, flags),
    {
        GdtEntry {
            limit_low: (limit % 0x1_0000) as u16,
            base_low: (base % 0x1_0000) as u16,
            base_mid: (base / 0x1_0000 % 0x100) as u8,
            access,
            granularity: (limit / 0x1_0000 % 16) as u8 + 16 * (flags % 16),
            base_high: (base / 0x100_0000) as u8,
        }
    }
}

/// A descriptor gives back the base, the limit, the access byte and the flags
/// that it was made from.
pub proof fn law_descriptor_gives_back_its_parts(base: u32, limit: u32, access: u8, flags: u8)
    requires
        limit < 0x10_0000,
        flags < 16,
    ensures
        ({
            let e = GdtEntry::made(base, limit, access, flags);
            &&& e.base() == base
            &&& e.limit() == limit
            &&& e.access == access
            &&& e.granularity / 16 == flags
        }),
{
}

/// The task state segment: the stacks for interrupts.
#[derive(Clone, Copy)]
pub struct Tss {
    pub reserved0: u32,
    /// The stack for a switch to ring 0.
    pub rsp0: u64,
    pub rsp1: u64,
    pub rsp2: u64,
    pub reserved1: u64,
    pub ist: [u64; IST_COUNT],
    pub reserved2: u64,
    pub reserved3: u16,
    /// Where the bitmap of I/O permissions starts.
    pub iomap_base: u16,
}

impl Tss {
    /// A segment without stacks. The bitmap of I/O permissions starts behind it.
    pub open spec fn spec_empty() -> Tss {
        Tss {
            reserved0: 0,
            rsp0: 0,
            rsp1: 0,
            rsp2: 0,
            reserved1: 0,
            ist: [0u64; IST_COUNT],
            reserved2: 0,
            reserved3: 0,
            iomap_base: TSS_SIZE,
        }
    }

    /// A segment without stacks. The bitmap of I/O permissions starts behind it.
    pub fn empty() -> (r: Tss)
        ensures
            r == Tss::spec_empty(),
    {
        Tss {
            reserved0: 0,
            rsp0: 0,
            rsp1: 0,
            rsp2: 0,
            reserved1: 0,
            ist: [0u64; IST_COUNT],
            reserved2: 0,
            reserved3: 0,
            iomap_base: TSS_SIZE,
        }
    }
}

/// The descriptor table and the task state segment.
pub struct Gdt {
    pub entries: [GdtEntry; 7],
    pub tss: Tss,
}

/// The operand of `lgdt`.
#[derive(Clone, Copy, PartialEq, Eq, Structural)]
pub struct GdtPointer {
    pub limit: u16,
    pub base: u64,
}

impl Gdt {
    /// The table before `init`: the segments, and no task state segment yet.
    pub fn new() -> (r: Gdt)
        ensures
            r.entries@ == seq![
                GdtEntry::spec_null(),
                GdtEntry::made(0, 0xFFFFF, 0x9A, 0xA),
                GdtEntry::made(0, 0xFFFFF, 0x92, 0xC),
                GdtEntry::made(0, 0xFFFFF, 0xF2, 0xC),
                GdtEntry::made(0, 0xFFFFF, 0xFA, 0xA),
                GdtEntry::spec_null(),
                GdtEntry::spec_null(),
            ],
            r.tss == Tss::spec_empty(),
    {
        let r = Gdt {
            entries: [
                GdtEntry::null(),
                GdtEntry::new(0, 0xFFFFF, 0x9A, 0xA),
                GdtEntry::new(0, 0xFFFFF, 0x92, 0xC),
                GdtEntry::new(0, 0xFFFFF, 0xF2, 0xC),
                GdtEntry::new(0, 0xFFFFF, 0xFA, 0xA),
                GdtEntry::null(),
                GdtEntry::null(),
            ],
            tss: Tss::empty(),
        };
        assert(r.entries@ =~= seq![
            GdtEntry::spec_null(),
            GdtEntry::made(0, 0xFFFFF, 0x9A, 0xA),
            GdtEntry::made(0, 0xFFFFF, 0x92, 0xC),
            GdtEntry::made(0, 0xFFFFF, 0xF2, 0xC),
            GdtEntry::made(0, 0xFFFFF, 0xFA, 0xA),
            GdtEntry::spec_null(),
            GdtEntry::spec_null(),
        ]);
        r
    }
}

/// Sets the stack for a switch to ring 0.
pub fn set_tss_rsp0(g: &mut Gdt, rsp0: u64)
    ensures
        *final(g) == (Gdt { tss: Tss { rsp0, ..old(g).tss }, ..*old(g) }),
{
    g.tss.rsp0 = rsp0;
}

/// The stack for a switch to ring 0.
pub fn get_tss_rsp0(g: &Gdt) -> (r: u64)
    ensures
        r == g.tss.rsp0,
{
    g.tss.rsp0
}

/// The lower half of the descriptor of the task state segment at `addr`.
pub open spec fn tss_low(addr: u64) -> GdtEntry {
    GdtEntry {
        limit_low: (TSS_SIZE - 1) as u16,
        base_low: (addr % 0x1_0000) as u16,
        base_mid: (addr / 0x1_0000 % 0x100) as u8,
        access: 0x89,
        granularity: 0,
        base_high: (addr / 0x100_0000 % 0x100) as u8,
    }
}

/// The upper half: bits 32 to 63 of the address.
pub open spec fn tss_high(addr: u64) -> GdtEntry {
    GdtEntry {
        limit_low: (addr / 0x1_0000_0000 % 0x1_0000) as u16,
        base_low: (addr / 0x1_0000_0000_0000) as u16,
        base_mid: 0,
        access: 0,
        granularity: 0,
        base_high: 0,
    }
}

/// Enters the task state segment into the table and sets the stack for
/// interrupts out of user mode. The addresses are those at which the table,
/// the segment and that stack lie in memory. Returns the operand for `lgdt`.
pub fn init(g: &mut Gdt, gdt_addr: u64, tss_addr: u64, stack_addr: u64) -> (r: GdtPointer)
    requires
        stack_addr + INTERRUPT_STACK_SIZE <= u64::MAX,
    ensures
        final(g).entries@ == old(g).entries@.update(5, tss_low(tss_addr)).update(
            6,
            tss_high(tss_addr),
        ),
        final(g).tss == (Tss {
            rsp0: (stack_addr + INTERRUPT_STACK_SIZE) as u64,
            ..old(g).tss
        }),
        r == (GdtPointer { limit: 55, base: gdt_addr }),
{
    g.tss.rsp0 = stack_addr + INTERRUPT_STACK_SIZE;
    g.entries[5] = GdtEntry {
        limit_low: TSS_SIZE - 1,
        base_low: (tss_addr % 0x1_0000) as u16,
        base_mid: (tss_addr / 0x1_0000 % 0x100) as u8,
        access: 0x89,
        granularity: 0,
        base_high: (tss_addr / 0x100_0000 % 0x100) as u8,
    };
    g.entries[6] = GdtEntry {
        limit_low: (tss_addr / 0x1_0000_0000 % 0x1_0000) as u16,
        base_low: (tss_addr / 0x1_0000_0000_0000) as u16,
        base_mid: 0,
        access: 0,
        granularity: 0,
        base_high: 0,
    };
    GdtPointer { limit: 55, base: gdt_addr }
}

/// The two halves of the descriptor hold the address of the task state
/// segment.
pub proof fn law_tss_descriptor_holds_the_address(addr: u64)
    ensures
        tss_low(addr).base() + 0x1_0000_0000 * (tss_high(addr).limit_low + 0x1_0000 * tss_high(
            addr,
        ).base_low) == addr,
        tss_low(addr).limit() == TSS_SIZE - 1,
{
    lemma_parts(addr);
}

proof fn lemma_parts(a: u64)
    by (bit_vector)
    ensures
        a == (a % 0x1_0000) + 0x1_0000 * (a / 0x1_0000 % 0x100) + 0x100_0000 * (a / 0x100_0000
            % 0x100) + 0x1_0000_0000 * (a / 0x1_0000_0000 % 0x1_0000) + 0x1_0000_0000_0000 * (a
            / 0x1_0000_0000_0000),
        a / 0x1_0000_0000_0000 < 0x1_0000,
{
}

} // verus!
