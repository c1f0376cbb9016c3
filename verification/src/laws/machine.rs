//! The machine: what the boot loader tells, and what the processor and the interrupt
//! controllers are told.

use vstd::prelude::*;
use vstd::string::*;
use vstd::utf8::*;
use crate::gdt;
use crate::gdt::{Gdt, GdtEntry, GdtPointer};
use crate::idt;
use crate::idt::{Action, Idt, IdtEntry, IdtPointer, InterruptFrame};
use crate::multiboot2;
use crate::multiboot2::{FramebufferInfo, FramebufferType, TagHeader};
use crate::pic;
use crate::pic::PortWrite;
use crate::syscall;
use crate::syscall::MsrWrite;
use crate::task;
use crate::task::{Pid, Process, TaskIds, Thread, Tid};
use super::files::smaller;
use super::memory::{lemma_numbers, n32, n64};
use super::programs::text_at;
use super::threads::holds_name;

verus! {

/// There is a tag at a place of the block, which says its own size: its type is not 0, and
/// it has at least the eight bytes of its start.
pub open spec fn is_tag(d: Seq<u8>, at: int) -> bool {
    &&& at < n32(d, 0)
    &&& at + 8 <= d.len()
    &&& n32(d, at) != 0
    &&& n32(d, at + 4) >= 8
}

/// The tags of a block up to the last one given: the first is at byte 8, and each is
/// followed by the next one at the next multiple of eight bytes. All but the last are of
/// other types than the one that is looked for.
pub open spec fn tags_up_to(d: Seq<u8>, at: Seq<int>, kind: int) -> bool {
    &&& d.len() >= 8
    &&& at.len() > 0
    &&& at[0] == 8
    &&& forall|k: int|
        0 <= k < at.len() - 1 ==> is_tag(d, #[trigger] at[k]) && n32(d, at[k]) != kind && at[k + 1]
            == at[k] + (n32(d, at[k] + 4) + 7) / 8 * 8
}

proof fn lemma_tag(d: Seq<u8>, at: int)
    ensures
        TagHeader::at(d, at).tag_type == n32(d, at),
        TagHeader::at(d, at).size == n32(d, at + 4),
        d.len() >= 8 ==> (multiboot2::has_tag(d, at, crate::memory::ram::le32(d, 0) as int)
            <==> is_tag(d, at)),
{
    lemma_numbers(d, at);
    lemma_numbers(d, at + 4);
    lemma_numbers(d, 0);
}

proof fn lemma_search(d: Seq<u8>, at: Seq<int>, kind: u32, k: int)
    requires
        tags_up_to(d, at, kind as int),
        0 <= k < at.len(),
        kind != 0,
    ensures
        ({
            let last = at[at.len() - 1];
            let end = crate::memory::ram::le32(d, 0) as int;
            &&& is_tag(d, last) && n32(d, last) == kind ==> multiboot2::find_tag(d, at[k], end, kind)
                == Some(last)
            &&& !is_tag(d, last) ==> multiboot2::find_tag(d, at[k], end, kind) is None
        }),
    decreases at.len() - k,
{
    lemma_tag(d, at[k]);
    if k < at.len() - 1 {
        assert(is_tag(d, at[k]));
        lemma_search(d, at, kind, k + 1);
    }
}

/// How the pixels are stored, by number.
pub open spec fn kind_of_pixels(n: u8) -> FramebufferType {
    if n == 0 {
        FramebufferType::Indexed
    } else if n == 1 {
        FramebufferType::Rgb
    } else if n == 2 {
        FramebufferType::EgaText
    } else {
        FramebufferType::Unknown(n)
    }
}

/// The screen is told by the first tag of type 8, number by number, if all of its 31 bytes
/// are there; there is none where the tags end without one.
pub proof fn law_screen_is_told_by_its_tag(
    info: &[u8],
    at: Seq<int>,
    r: Option<FramebufferInfo>,
)
    requires
        tags_up_to(info@, at, 8),
        call_ensures(multiboot2::find_framebuffer, (info,), r),
    ensures
        ({
            let d = info@;
            let p = at[at.len() - 1];
            &&& !is_tag(d, p) ==> r is None
            &&& is_tag(d, p) && n32(d, p) == 8 ==> {
                &&& r is Some <==> p + 31 <= d.len()
                &&& r matches Some(f) ==> {
                    &&& f.addr == n64(d, p + 8)
                    &&& f.pitch == n32(d, p + 16)
                    &&& f.width == n32(d, p + 20)
                    &&& f.height == n32(d, p + 24)
                    &&& f.bpp == d[p + 28]
                    &&& f.fb_type == kind_of_pixels(d[p + 29])
                }
            }
        }),
{
    let d = info@;
    let p = at[at.len() - 1];
    lemma_search(d, at, 8, 0);
    lemma_numbers(d, p + 8);
    lemma_numbers(d, p + 16);
    lemma_numbers(d, p + 20);
    lemma_numbers(d, p + 24);
}

proof fn lemma_text_end(d: Seq<u8>, from: int, end: int)
    requires
        0 <= from <= end,
        from <= d.len(),
    ensures
        ({
            let e = multiboot2::text_end(d, from, end);
            &&& from <= e <= end
            &&& e <= d.len()
            &&& text_at(d, from, end - from, d.subrange(from, e))
        }),
    decreases end - from,
{
    let e = multiboot2::text_end(d, from, end);
    if from < end && from < d.len() && d[from] != 0 {
        lemma_text_end(d, from + 1, end);
        let s = d.subrange(from, e);
        let t = d.subrange(from + 1, e);
        assert forall|k: int| 0 <= k < s.len() implies #[trigger] s[k] == d[from + k] && s[k] != 0 by {
            if k > 0 {
                assert(t[k - 1] == d[from + 1 + (k - 1)] && t[k - 1] != 0);
            }
        }
    }
}

/// The command line is the text of the first tag of type 1, up to a zero or the end of the
/// tag, if it is UTF-8; there is none where the tags end without one, or the tag is empty.
pub proof fn law_command_line_is_told_by_its_tag(info: &[u8], at: Seq<int>, r: Option<&str>)
    requires
        tags_up_to(info@, at, 1),
        call_ensures(multiboot2::find_cmdline, (info,), r),
    ensures
        ({
            let d = info@;
            let p = at[at.len() - 1];
            &&& !is_tag(d, p) ==> r is None
            &&& is_tag(d, p) && n32(d, p) == 1 ==> {
                &&& n32(d, p + 4) == 8 ==> r is None
                &&& n32(d, p + 4) > 8 ==> exists|s: Seq<u8>| #[trigger]
                    text_at(d, p + 8, n32(d, p + 4) - 8, s) && (r is Some <==> valid_utf8(s)) && (
                    r matches Some(t) ==> t.spec_bytes() == s)
            }
        }),
{
    let d = info@;
    let p = at[at.len() - 1];
    lemma_search(d, at, 1, 0);
    lemma_tag(d, p);
    lemma_places(d, at, 1, at.len() - 1);
    if is_tag(d, p) && n32(d, p) == 1 && n32(d, p + 4) > 8 {
        let size = n32(d, p + 4);
        lemma_text_end(d, p + 8, p + size);
        let s = d.subrange(p + 8, multiboot2::text_end(d, p + 8, p + size));
        assert(multiboot2::cmdline_bytes(d) == Some(s));
        assert(text_at(d, p + 8, size - 8, s));
    }
}

proof fn lemma_places(d: Seq<u8>, at: Seq<int>, kind: int, k: int)
    requires
        tags_up_to(d, at, kind),
        0 <= k < at.len(),
    ensures
        at[k] >= 8,
    decreases k,
{
    if k > 0 {
        lemma_places(d, at, kind, k - 1);
        assert(is_tag(d, at[k - 1]));
    }
}

/// A loader of this kind is told by the number 0x36D7_6289.
pub proof fn law_loader_is_told_by_its_number(magic: u64, r: bool)
    requires
        call_ensures(multiboot2::is_multiboot2, (magic,), r),
    ensures
        r <==> magic == 0x36D7_6289,
{
}

/// A descriptor of a segment that starts at 0 and covers everything.
pub open spec fn is_flat(e: GdtEntry, access: u8, flags: u8) -> bool {
    &&& e.base_low == 0 && e.base_mid == 0 && e.base_high == 0
    &&& e.limit_low == 0xFFFF
    &&& e.granularity == 16 * flags + 0xF
    &&& e.access == access
}

/// The table of segments: nothing, code and data of the kernel, data and code of programs.
/// Code is for 64 bits.
pub proof fn law_segments_cover_everything(g: Gdt)
    requires
        call_ensures(Gdt::new, (), g),
    ensures
        g.entries@.len() == 7,
        is_flat(g.entries@[1], 0x9A, 0xA),
        is_flat(g.entries@[2], 0x92, 0xC),
        is_flat(g.entries@[3], 0xF2, 0xC),
        is_flat(g.entries@[4], 0xFA, 0xA),
        g.entries@[0].access == 0,
        g.tss.iomap_base == 104,
        g.tss.rsp0 == 0,
{
}

/// A descriptor holds its base, the lower 20 bits of its limit, its access byte and the
/// lower four bits of its flags, each in the bits that the processor reads.
pub proof fn law_descriptor_holds_its_parts(
    base: u32,
    limit: u32,
    access: u8,
    flags: u8,
    e: GdtEntry,
)
    requires
        call_ensures(GdtEntry::new, (base, limit, access, flags), e),
    ensures
        e.base_low + 0x1_0000 * e.base_mid + 0x100_0000 * e.base_high == base,
        e.limit_low + 0x1_0000 * (e.granularity % 16) == limit % 0x10_0000,
        e.granularity / 16 == flags % 16,
        e.access == access,
{
}

/// The task state segment is in the entries 5 and 6 by its address, with 104 bytes; the
/// stack for interrupts is the one that was named, from its top on, and the table has 56
/// bytes. The other segments stay.
pub proof fn law_task_state_is_entered(
    g: &mut Gdt,
    table: u64,
    tss: u64,
    stack: u64,
    r: GdtPointer,
)
    requires
        stack + gdt::INTERRUPT_STACK_SIZE <= u64::MAX,
        call_ensures(gdt::init, (g, table, tss, stack), r),
    ensures
        r.limit == 55,
        r.base == table,
        ({
            let lo = final(g).entries@[5];
            let hi = final(g).entries@[6];
            &&& lo.base_low + 0x1_0000 * lo.base_mid + 0x100_0000 * lo.base_high + 0x1_0000_0000 * (
            hi.limit_low + 0x1_0000 * hi.base_low) == tss
            &&& lo.limit_low == 103
            &&& lo.access == 0x89
        }),
        forall|i: int| 0 <= i < 5 ==> #[trigger] final(g).entries@[i] == old(g).entries@[i],
        final(g).tss.rsp0 == stack + 16_384,
        final(g).tss.iomap_base == old(g).tss.iomap_base,
{
    gdt::law_tss_descriptor_holds_the_address(tss);
}

/// The stack for interrupts is the one that was set.
pub proof fn law_interrupt_stack_is_set(g: &mut Gdt, rsp0: u64, now: &Gdt, r: u64)
    requires
        call_ensures(gdt::set_tss_rsp0, (g, rsp0), ()),
        *now == *final(g),
        call_ensures(gdt::get_tss_rsp0, (now,), r),
    ensures
        r == rsp0,
        final(g).entries@ == old(g).entries@,
{
}

/// An entry of the table of interrupts leads to its handler, in the code segment of the
/// kernel, with interrupts off.
pub open spec fn handles(e: IdtEntry, handler: u64) -> bool {
    &&& e.offset_low + 0x1_0000 * e.offset_mid + 0x1_0000_0000 * e.offset_high == handler
    &&& e.selector == 0x08
    &&& e.type_attr == 0x8E
    &&& e.ist == 0
}

/// Each of the first 48 interrupts leads to its handler, and the others stay; the table has
/// 4096 bytes.
pub proof fn law_interrupts_lead_to_their_handlers(
    t: &mut Idt,
    stubs: &[u64; idt::HANDLER_COUNT],
    base: u64,
    r: IdtPointer,
)
    requires
        call_ensures(idt::init, (t, stubs, base), r),
    ensures
        r.limit == 4095,
        r.base == base,
        forall|i: int| 0 <= i < 48 ==> handles(#[trigger] final(t).entries@[i], stubs@[i]),
        forall|i: int| 48 <= i < 256 ==> #[trigger] final(t).entries@[i] == old(t).entries@[i],
{
    assert(idt::handlers_set(old(t).entries@, final(t).entries@, stubs@));
    assert forall|i: int| 0 <= i < 48 implies handles(
        #[trigger] final(t).entries@[i],
        stubs@[i],
    ) by {
        idt::law_gate_leads_to_its_handler(stubs@[i], 0x08, 0x8E);
    }
}

/// A fault stops the kernel. The timer (32) is served and gives a tick, the keyboard (33) is
/// read and then served, another line up to 47 is served; each line by its own number.
/// Other interrupts are passed over.
pub proof fn law_interrupts_are_served(frame: &InterruptFrame, r: Vec<Action>)
    requires
        call_ensures(idt::interrupt_dispatch, (frame,), r),
    ensures
        frame.int_no < 32 ==> r@ == seq![Action::Halt],
        frame.int_no == 32 ==> r@ == seq![Action::EndOfInterrupt(0), Action::Tick],
        frame.int_no == 33 ==> r@ == seq![Action::ReadKey, Action::EndOfInterrupt(1)],
        34 <= frame.int_no < 48 ==> r@.len() == 1 && (r@[0] matches Action::EndOfInterrupt(n) && n
            == frame.int_no - 32),
        frame.int_no >= 48 ==> r@.len() == 0,
{
}

/// A write to a port.
pub open spec fn writes(w: PortWrite, port: int, value: int) -> bool {
    w.port == port && w.value == value
}

/// The controllers are set up to give the interrupts 32 to 47, the second one on line 2 of
/// the first, and all lines are off.
pub proof fn law_controllers_give_interrupts_from_32_on(r: Vec<PortWrite>)
    requires
        call_ensures(pic::init, (), r),
    ensures
        ({
            &&& r@.len() == 18
            &&& writes(r@[0], 0x20, 0x11) && writes(r@[2], 0xA0, 0x11)
            &&& writes(r@[4], 0x21, 32) && writes(r@[6], 0xA1, 40)
            &&& writes(r@[8], 0x21, 4) && writes(r@[10], 0xA1, 2)
            &&& writes(r@[12], 0x21, 1) && writes(r@[14], 0xA1, 1)
            &&& writes(r@[16], 0x21, 0xFF) && writes(r@[17], 0xA1, 0xFF)
            &&& forall|i: int| 0 <= i < 8 ==> (#[trigger] r@[2 * i + 1]).port == 0x80
        }),
{
    let s = pic::setup();
    assert(r@ == s);
    assert forall|i: int| 0 <= i < 8 implies (#[trigger] r@[2 * i + 1]).port == 0x80 by {
        assert(i == 0 || i == 1 || i == 2 || i == 3 || i == 4 || i == 5 || i == 6 || i == 7);
    }
}

/// From one mask to another the bit of a line is cleared or set, and no other.
pub open spec fn one_line(before: u8, after: u8, k: u8, off: bool) -> bool {
    forall|j: u8|
        j < 8 ==> ((#[trigger] (after >> j)) % 2 == 1) == (if j == k {
            off
        } else {
            (before >> j) % 2 == 1
        })
}

proof fn lemma_mask_bits(m: u8, k: u8, j: u8)
    by (bit_vector)
    requires
        k < 8,
        j < 8,
    ensures
        ((m & !(1u8 << k)) >> j) % 2 == 1 <==> j != k && (m >> j) % 2 == 1,
        ((m | (1u8 << k)) >> j) % 2 == 1 <==> j == k || (m >> j) % 2 == 1,
{
}

proof fn lemma_one_line(m: u8, k: u8)
    requires
        k < 8,
    ensures
        one_line(m, m & !(1u8 << k), k, false),
        one_line(m, m | (1u8 << k), k, true),
{
    assert forall|j: u8| j < 8 implies ((#[trigger] ((m & !(1u8 << k)) >> j)) % 2 == 1) == (if j
        == k {
        false
    } else {
        (m >> j) % 2 == 1
    }) by {
        lemma_mask_bits(m, k, j);
    }
    assert forall|j: u8| j < 8 implies ((#[trigger] ((m | (1u8 << k)) >> j)) % 2 == 1) == (if j
        == k {
        true
    } else {
        (m >> j) % 2 == 1
    }) by {
        lemma_mask_bits(m, k, j);
    }
}

/// A line is turned on in the mask of its controller, and no other, but line 2 of the first
/// controller together with one of the second.
pub proof fn law_line_is_turned_on_alone(irq: u8, m1: u8, m2: u8, r: Vec<PortWrite>)
    requires
        irq < 16,
        call_ensures(pic::unmask, (irq, m1, m2), r),
    ensures
        irq < 8 ==> r@.len() == 1 && r@[0].port == 0x21 && one_line(m1, r@[0].value, irq, false),
        irq >= 8 ==> r@.len() == 2 && r@[0].port == 0x21 && one_line(m1, r@[0].value, 2, false)
            && r@[1].port == 0xA1 && one_line(m2, r@[1].value, (irq - 8) as u8, false),
{
    if irq < 8 {
        lemma_one_line(m1, irq);
    } else {
        lemma_one_line(m1, 2);
        lemma_one_line(m2, (irq - 8) as u8);
    }
}

/// A line is turned off in the mask of its controller, and no other.
pub proof fn law_line_is_turned_off_alone(irq: u8, current: u8, r: PortWrite)
    requires
        irq < 16,
        call_ensures(pic::mask, (irq, current), r),
    ensures
        irq < 8 ==> r.port == 0x21 && one_line(current, r.value, irq, true),
        irq >= 8 ==> r.port == 0xA1 && one_line(current, r.value, (irq - 8) as u8, true),
{
    if irq < 8 {
        lemma_one_line(current, irq);
    } else {
        lemma_one_line(current, (irq - 8) as u8);
    }
}

/// The first controller is told of every line that was served, the second one before it of
/// its own.
pub proof fn law_controllers_are_told_of_the_end(irq: u8, r: Vec<PortWrite>)
    requires
        call_ensures(pic::send_eoi, (irq,), r),
    ensures
        irq < 8 ==> r@.len() == 1 && writes(r@[0], 0x20, 0x20),
        irq >= 8 ==> r@.len() == 2 && writes(r@[0], 0xA0, 0x20) && writes(r@[1], 0x20, 0x20),
{
}

/// System calls are turned on by bit 0 of a register that else stays, come to the entry
/// point, use the segments 8 for the kernel and 0x10 as the base for programs, and turn
/// interrupts off.
pub proof fn law_system_calls_come_to_the_entry_point(efer: u64, entry: u64, r: [MsrWrite; 4])
    requires
        call_ensures(syscall::init, (efer, entry), r),
    ensures
        r@[0].msr == 0xC000_0080 && r@[0].value % 2 == 1 && r@[0].value / 2 == efer / 2,
        r@[1].msr == 0xC000_0081 && r@[1].value == 0x10_0008_0000_0000,
        r@[2].msr == 0xC000_0082 && r@[2].value == entry,
        r@[3].msr == 0xC000_0084 && r@[3].value == 0x200,
{
}

/// Which bytes of a program a call reads or writes: those at the pointer among its
/// arguments, as many as the call moves.
pub proof fn law_calls_name_the_bytes_they_move(
    nr: u64,
    a0: u64,
    a1: u64,
    a2: u64,
    r: Option<(u64, u64)>,
)
    requires
        call_ensures(syscall::pointer_of, (nr, a0, a1, a2), r),
    ensures
        nr == 0 ==> r == Some((a1, smaller(a2 as int, 4096) as u64)),
        nr == 1 && a0 == 1 ==> r == Some((a1, a2)),
        nr == 1 && a0 != 1 ==> r == Some((a1, smaller(a2 as int, 4096) as u64)),
        nr == 2 ==> r == Some((a0, 255u64)),
        nr == 8 ==> r == Some((a1, smaller(a2 as int, 256) as u64)),
        nr == 9 ==> r == Some((a1, 256u64)),
        nr == 10 ==> r == Some((a0, smaller(a1 as int, 32) as u64)),
        nr == 14 ==> r == Some((a1, 56u64)),
        3 <= nr < 8 || 11 <= nr < 14 || nr > 14 ==> r is None,
{
}

/// Numbers of processes and of threads are handed out one after the other, from 1 on.
pub proof fn law_numbers_are_handed_out_in_order(
    fresh: TaskIds,
    a: &mut TaskIds,
    b: &mut TaskIds,
    pid: Pid,
    tid: Tid,
)
    requires
        call_ensures(TaskIds::new, (), fresh),
        old(a).next_pid < u64::MAX,
        old(b).next_tid < u64::MAX,
        call_ensures(task::alloc_pid, (a,), pid),
        call_ensures(task::alloc_tid, (b,), tid),
    ensures
        fresh.next_pid == 1 && fresh.next_tid == 1,
        pid == old(a).next_pid && final(a).next_pid == pid + 1 && final(a).next_tid == old(a).next_tid,
        tid == old(b).next_tid && final(b).next_tid == tid + 1 && final(b).next_pid == old(b).next_pid,
{
}

/// A name is kept as far as there is room for it and a closing zero, and nothing else
/// changes.
pub proof fn law_names_are_kept(t: &mut Thread, p: &mut Process, name: &str)
    requires
        call_ensures(Thread::set_name, (t, name), ()),
        call_ensures(Process::set_name, (p, name), ()),
    ensures
        holds_name(final(t).name@, name.spec_bytes()),
        holds_name(final(p).name@, name.spec_bytes()),
        *final(t) == (Thread { name: final(t).name, ..*old(t) }),
        *final(p) == (Process { name: final(p).name, ..*old(p) }),
{
    assert(final(t).name@ == task::named(old(t).name@, name.spec_bytes()));
    assert(final(p).name@ == task::named(old(p).name@, name.spec_bytes()));
    assert(old(t).name@.len() == 32);
    assert(old(p).name@.len() == 64);
}

} // verus!
