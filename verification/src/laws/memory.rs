//! Memory: which frames are handed out, and which bytes change.

use vstd::prelude::*;
use crate::drivers::linux_shim;
use crate::drivers::linux_shim::{AtomicInt, LogLevel, Logger, SpinLock};
use crate::memory;
use crate::memory::paging;
use crate::memory::phys;
use crate::memory::phys::{FrameAllocator, Frames};
use crate::memory::ram;
use crate::search;

verus! {

/// The 16-bit number at a place, in little-endian order.
pub open spec fn n16(d: Seq<u8>, at: int) -> int {
    d[at] + 0x100 * d[at + 1]
}

/// The 32-bit number at a place, in little-endian order.
pub open spec fn n32(d: Seq<u8>, at: int) -> int {
    d[at] + 0x100 * d[at + 1] + 0x1_0000 * d[at + 2] + 0x100_0000 * d[at + 3]
}

/// The 64-bit number at a place, in little-endian order.
pub open spec fn n64(d: Seq<u8>, at: int) -> int {
    n32(d, at) + 0x1_0000_0000 * n32(d, at + 4)
}

pub proof fn lemma_numbers(d: Seq<u8>, at: int)
    ensures
        ram::le16(d, at) == n16(d, at),
        ram::le32(d, at) == n32(d, at),
        ram::le64(d, at) == n64(d, at),
{
    reveal(ram::le64);
}

/// Numbers are read from the low byte to the high one.
pub proof fn law_numbers_are_little_endian(ram: &[u8], addr: usize, a: u16, b: u32, c: u64)
    requires
        call_ensures(ram::read_u16, (ram, addr), a),
        call_ensures(ram::read_u32, (ram, addr), b),
        call_ensures(ram::read_u64, (ram, addr), c),
    ensures
        a == n16(ram@, addr as int),
        b == n32(ram@, addr as int),
        c == n64(ram@, addr as int),
{
    lemma_numbers(ram@, addr as int);
}

/// Only the bytes from `at` up to `end` differ.
pub open spec fn same_outside(b: Seq<u8>, c: Seq<u8>, at: int, end: int) -> bool {
    &&& c.len() == b.len()
    &&& forall|i: int| 0 <= i < b.len() && !(at <= i < end) ==> #[trigger] c[i] == b[i]
}

/// A number that is stored is found there, and no byte outside of its eight changes.
pub proof fn law_number_is_stored(ram: &mut [u8], addr: usize, v: u64)
    requires
        addr + 8 <= old(ram)@.len(),
        call_ensures(ram::write_u64, (ram, addr, v), ()),
    ensures
        n64(final(ram)@, addr as int) == v,
        same_outside(old(ram)@, final(ram)@, addr as int, addr + 8),
{
    assert(final(ram)@ == ram::with64(old(ram)@, addr as int, v));
    lemma_numbers(final(ram)@, addr as int);
}

/// Memory that is filled holds the byte everywhere, and nothing else changes.
pub proof fn law_filled_memory_holds_the_byte(ram: &mut [u8], addr: usize, len: usize, b: u8)
    requires
        addr + len <= old(ram)@.len(),
        call_ensures(ram::fill, (ram, addr, len, b), ()),
    ensures
        forall|i: int| addr <= i < addr + len ==> #[trigger] final(ram)@[i] == b,
        same_outside(old(ram)@, final(ram)@, addr as int, addr + len),
{
    assert(final(ram)@ == ram::filled(old(ram)@, addr as int, len as int, b));
}

/// A frame that is cleared holds zeros, and nothing else changes.
pub proof fn law_cleared_frame_holds_zeros(ram: &mut [u8], addr: usize)
    requires
        addr + 4096 <= old(ram)@.len(),
        call_ensures(paging::zero_frame, (ram, addr), ()),
    ensures
        forall|i: int| addr <= i < addr + 4096 ==> #[trigger] final(ram)@[i] == 0,
        same_outside(old(ram)@, final(ram)@, addr as int, addr + 4096),
{
    assert(final(ram)@ == ram::filled(old(ram)@, addr as int, 4096, 0));
}

/// Bytes that are copied are found at their new place in their order, and nothing else
/// changes.
pub proof fn law_copied_bytes_are_found(
    dst: &mut [u8],
    at: usize,
    src: &[u8],
    from: usize,
    n: usize,
)
    requires
        at + n <= old(dst)@.len(),
        from + n <= src@.len(),
        call_ensures(ram::copy, (dst, at, src, from, n), ()),
    ensures
        forall|i: int| 0 <= i < n ==> final(dst)@[at + i] == #[trigger] src@[from + i],
        same_outside(old(dst)@, final(dst)@, at as int, at + n),
{
    let w = src@.subrange(from as int, from + n);
    assert(final(dst)@ == ram::patched(old(dst)@, at as int, w));
    assert forall|i: int| 0 <= i < n implies final(dst)@[at + i] == #[trigger] src@[from + i] by {
        assert(final(dst)@[at + i] == w[i]);
    }
}

/// Bytes that are copied within the memory are found at their new place in their order,
/// and nothing else changes.
pub proof fn law_moved_bytes_are_found(ram: &mut [u8], at: usize, from: usize, n: usize)
    requires
        at + n <= old(ram)@.len(),
        from + n <= old(ram)@.len(),
        call_ensures(ram::copy_within, (ram, at, from, n), ()),
    ensures
        forall|i: int| 0 <= i < n ==> final(ram)@[at + i] == #[trigger] old(ram)@[from + i],
        same_outside(old(ram)@, final(ram)@, at as int, at + n),
{
    let w = old(ram)@.subrange(from as int, from + n);
    assert(final(ram)@ == ram::patched(old(ram)@, at as int, w));
    assert forall|i: int|
        0 <= i < n implies final(ram)@[at + i] == #[trigger] old(ram)@[from + i] by {
        assert(final(ram)@[at + i] == w[i]);
    }
}

/// A rounded address is the least multiple of the alignment that is not below it.
pub proof fn law_rounded_address_is_the_next_multiple(addr: usize, align: usize, r: usize)
    requires
        align > 0,
        call_ensures(memory::align_up, (addr, align), r),
    ensures
        addr <= r < addr + align,
        r % align == 0,
{
}

proof fn lemma_bit(b: u8, k: u8)
    by (bit_vector)
    requires
        k < 8,
    ensures
        b & (1u8 << k) != 0 <==> (b >> k) % 2 == 1,
{
}

/// Frame `f` is taken exactly if bit `f` of the bitmap is set, bits counted from the
/// low end of each byte.
pub proof fn law_frames_are_told_by_the_bitmap(a: &FrameAllocator, f: int)
    requires
        0 <= f < 131_072,
    ensures
        a@.used[f] <==> (a.bitmap@[f / 8] >> ((f % 8) as u8)) % 2 == 1,
        a@.total == a.total_frames,
        a@.used.len() == 131_072,
{
    lemma_bit(a.bitmap@[f / 8], (f % 8) as u8);
}

/// Frame `f` changes from one state to the other, and no other frame.
pub open spec fn only_frame(v: Frames, w: Frames, f: int, taken: bool) -> bool {
    &&& w.total == v.total
    &&& w.used.len() == v.used.len()
    &&& w.used[f] == taken
    &&& forall|g: int| 0 <= g < v.used.len() && g != f ==> #[trigger] w.used[g] == v.used[g]
}

/// An allocation hands out the lowest free frame of RAM, by its address, and takes it;
/// the count of free frames goes down by one. It fails, without a change, exactly if every
/// frame of RAM is taken.
pub proof fn law_lowest_free_frame_is_handed_out(a: &mut FrameAllocator, r: Option<usize>)
    requires
        old(a).wf(),
        call_ensures(phys::alloc_frame, (a,), r),
    ensures
        r is None <==> forall|f: int| 0 <= f < old(a)@.total ==> #[trigger] old(a)@.used[f],
        r is None ==> *final(a) == *old(a),
        r matches Some(addr) ==> {
            let f = addr as int / 4096;
            &&& addr % 4096 == 0
            &&& f < old(a)@.total
            &&& !old(a)@.used[f]
            &&& forall|g: int| 0 <= g < f ==> #[trigger] old(a)@.used[g]
            &&& only_frame(old(a)@, final(a)@, f, true)
            &&& final(a).free_frames == old(a).free_frames - 1
        },
{
    let v = old(a)@;
    search::lemma_first(v.total, |f: int| !v.used[f]);
    match v.lowest_free() {
        Some(f) => {
            assert((|f: int| !v.used[f])(f as int));
            assert forall|g: int| 0 <= g < f implies #[trigger] v.used[g] by {
                assert(!(|f: int| !v.used[f])(g));
            }
            assert(final(a)@ == v.take(f as int));
        },
        None => {
            assert forall|g: int| 0 <= g < v.total implies #[trigger] v.used[g] by {
                assert(!(|f: int| !v.used[f])(g));
            }
        },
    }
}

/// Freeing an address makes the frame free that holds it, and no other; the count of free
/// frames goes up by one if the frame was taken and is RAM.
pub proof fn law_freed_frame_is_free(a: &mut FrameAllocator, addr: usize)
    requires
        old(a).wf(),
        addr < 0x2000_0000,
        call_ensures(phys::free_frame, (a, addr), ()),
    ensures
        only_frame(old(a)@, final(a)@, addr as int / 4096, false),
        final(a).free_frames == old(a).free_frames + if old(a)@.used[addr as int / 4096] && addr
            as int / 4096 < old(a)@.total {
            1int
        } else {
            0int
        },
{
}

/// How many of the first `n` frames are free.
pub open spec fn clear_frames(used: Seq<bool>, n: nat) -> nat
    decreases n,
{
    if n == 0 {
        0
    } else if used[n - 1] {
        clear_frames(used, (n - 1) as nat)
    } else {
        clear_frames(used, (n - 1) as nat) + 1
    }
}

pub proof fn lemma_clear(v: Frames, n: nat)
    ensures
        search::count(n, |f: int| !v.used[f]) == clear_frames(v.used, n),
    decreases n,
{
    if n > 0 {
        lemma_clear(v, (n - 1) as nat);
    }
}

/// What is told of the memory is what the bitmap says: how many frames of RAM there are,
/// how many of them are free, and both in KiB, four to a frame.
pub proof fn law_counts_are_those_of_the_bitmap(
    a: &FrameAllocator,
    free: usize,
    total: usize,
    free_kb: usize,
    total_kb: usize,
)
    requires
        call_ensures(phys::free_count, (a,), free),
        call_ensures(phys::total_count, (a,), total),
        call_ensures(phys::free_memory_kb, (a,), free_kb),
        call_ensures(phys::total_memory_kb, (a,), total_kb),
    ensures
        free == clear_frames(a@.used, a@.total),
        total == a.total_frames,
        free_kb == 4 * clear_frames(a@.used, a@.total),
        total_kb == 4 * a.total_frames,
{
    lemma_clear(a@, a@.total);
}

/// At the start a frame is taken exactly if it lies in the first MiB or holds a byte of
/// the kernel. There are as many frames as fit in the memory, at most 131,072.
pub proof fn law_kernel_and_first_mebibyte_are_taken(
    a: &mut FrameAllocator,
    memory_size: usize,
    kernel_start: usize,
    kernel_end: usize,
    f: int,
)
    requires
        call_ensures(phys::init, (a, memory_size, kernel_start, kernel_end), ()),
        0 <= f < 131_072,
    ensures
        final(a)@.used[f] <==> f * 4096 < 0x10_0000 || kernel_start < (f + 1) * 4096 && f * 4096
            < kernel_end,
        memory_size < 0x2000_0000 ==> final(a)@.total * 4096 <= memory_size < final(a)@.total * 4096
            + 4096,
        memory_size >= 0x2000_0000 ==> final(a)@.total == 131_072,
        final(a).free_frames == clear_frames(final(a)@.used, final(a)@.total),
{
    let v = final(a)@;
    lemma_clear(v, v.total);
    assert(v.used[f] == phys::taken_at_boot(f, kernel_start as int, kernel_end as int));
}

/// The frame of an address and the address of a frame, 4096 bytes each.
pub proof fn law_frames_have_4096_bytes(addr: usize, frame: usize, r: usize, s: usize)
    requires
        call_ensures(phys::addr_to_frame, (addr,), r),
        call_ensures(phys::frame_to_addr, (frame,), s),
    ensures
        r * 4096 <= addr < r * 4096 + 4096,
        s == frame * 4096,
{
}

/// `n` more frames are taken, of those that were free, and none is given back.
pub open spec fn more_taken(v: Frames, w: Frames, n: int) -> bool {
    &&& w.total == v.total
    &&& w.used.len() == v.used.len()
    &&& forall|g: int| 0 <= g < v.used.len() && v.used[g] ==> #[trigger] w.used[g]
    &&& forall|g: int| v.total <= g < v.used.len() ==> #[trigger] w.used[g] == v.used[g]
    &&& clear_frames(w.used, w.total) == clear_frames(v.used, v.total) - n
}

pub proof fn lemma_popped(f: Frames, n: nat)
    requires
        f.used.len() == phys::MAX_FRAMES,
        f.total <= phys::MAX_FRAMES,
    ensures
        linux_shim::frames_popped(f, n).1 <==> clear_frames(f.used, f.total) >= n,
        linux_shim::frames_popped(f, n).1 ==> more_taken(
            f,
            linux_shim::frames_popped(f, n).0,
            n as int,
        ),
        linux_shim::frames_popped(f, n).1 && n > 0 ==> linux_shim::frames_popped(
            f,
            n,
        ).0.used[f.lowest_free()->0 as int],
    decreases n,
{
    lemma_clear(f, f.total);
    phys::law_alloc_succeeds_while_frames_are_free(f);
    if n > 0 && f.lowest_free() is Some {
        phys::law_alloc_takes_a_free_frame(f);
        let g = f.take(f.lowest_free()->0 as int);
        lemma_clear(g, g.total);
        lemma_popped(g, (n - 1) as nat);
    }
}

/// An allocation of memory gives the address of the lowest free frame, and takes as many
/// free frames as the size needs, 4096 bytes each. It gives 0 exactly if the size is 0 or
/// there are fewer free frames. With bit 3 of the flags set, that many bytes from the
/// address on are zero afterwards; otherwise no byte changes. Frame 0 is taken at the
/// start, so 0 is the address of no frame that is handed out.
pub proof fn law_memory_is_handed_out_in_frames(
    frames: &mut FrameAllocator,
    bytes: &mut [u8],
    size: usize,
    flags: u32,
    r: usize,
)
    requires
        old(frames).wf(),
        paging::mem(old(frames), old(bytes)@).sane(),
        old(frames)@.used[0],
        call_ensures(linux_shim::kmalloc, (frames, bytes, size, flags), r),
    ensures
        r != 0 <==> size > 0 && clear_frames(old(frames)@.used, old(frames)@.total) >= (size + 4095)
            / 4096,
        r != 0 ==> {
            &&& r % 4096 == 0
            &&& r as int / 4096 < old(frames)@.total
            &&& !old(frames)@.used[r as int / 4096]
            &&& forall|g: int| 0 <= g < r as int / 4096 ==> #[trigger] old(frames)@.used[g]
            &&& final(frames)@.used[r as int / 4096]
            &&& more_taken(old(frames)@, final(frames)@, (size + 4095) / 4096)
            &&& flags / 8 % 2 == 0 ==> final(bytes)@ == old(bytes)@
            &&& flags / 8 % 2 == 1 ==> (forall|i: int|
                r <= i < r + (size + 4095) / 4096 * 4096 && i < old(bytes)@.len() ==> #[trigger] final(bytes)@[i] == 0) && same_outside(
                old(bytes)@,
                final(bytes)@,
                r as int,
                r + (size + 4095) / 4096 * 4096,
            )
        },
        r == 0 ==> final(bytes)@ == old(bytes)@,
        size == 0 ==> final(frames)@ == old(frames)@,
{
    let m = paging::mem(old(frames), old(bytes)@);
    let w = paging::mem(final(frames), final(bytes)@);
    let n = linux_shim::pages_for(size as int);
    let v = m.frames;
    assert((w, r as int) == linux_shim::allocated(m, size as int, flags));
    lemma_popped(v, n as nat);
    search::lemma_first(v.total, |f: int| !v.used[f]);
    match v.lowest_free() {
        Some(f) => {
            assert((|f: int| !v.used[f])(f as int));
            assert forall|g: int| 0 <= g < f implies #[trigger] v.used[g] by {
                assert(!(|f: int| !v.used[f])(g));
            }
            assert(f > 0);
        },
        None => {},
    }
    assert(w.bytes == final(bytes)@ && w.frames == final(frames)@);
}

/// Cleared memory is handed out as other memory, and is zero whatever the flags say.
pub proof fn law_cleared_memory_is_zero(
    frames: &mut FrameAllocator,
    bytes: &mut [u8],
    size: usize,
    flags: u32,
    r: usize,
)
    requires
        old(frames).wf(),
        paging::mem(old(frames), old(bytes)@).sane(),
        old(frames)@.used[0],
        call_ensures(linux_shim::kzalloc, (frames, bytes, size, flags), r),
    ensures
        r != 0 <==> size > 0 && clear_frames(old(frames)@.used, old(frames)@.total) >= (size + 4095)
            / 4096,
        r != 0 ==> {
            &&& r % 4096 == 0
            &&& !old(frames)@.used[r as int / 4096]
            &&& forall|g: int| 0 <= g < r as int / 4096 ==> #[trigger] old(frames)@.used[g]
            &&& final(frames)@.used[r as int / 4096]
            &&& more_taken(old(frames)@, final(frames)@, (size + 4095) / 4096)
            &&& forall|i: int|
                r <= i < r + size && i < old(bytes)@.len() ==> #[trigger] final(bytes)@[i] == 0
            &&& same_outside(
                old(bytes)@,
                final(bytes)@,
                r as int,
                r + (size + 4095) / 4096 * 4096,
            )
        },
{
    let m = paging::mem(old(frames), old(bytes)@);
    let w = paging::mem(final(frames), final(bytes)@);
    let n = linux_shim::pages_for(size as int);
    let v = m.frames;
    assert((w, r as int) == linux_shim::allocated(m, size as int, linux_shim::GFP_ZERO));
    lemma_popped(v, n as nat);
    search::lemma_first(v.total, |f: int| !v.used[f]);
    match v.lowest_free() {
        Some(f) => {
            assert((|f: int| !v.used[f])(f as int));
            assert forall|g: int| 0 <= g < f implies #[trigger] v.used[g] by {
                assert(!(|f: int| !v.used[f])(g));
            }
            assert(f > 0);
        },
        None => {},
    }
    assert(w.bytes == final(bytes)@ && w.frames == final(frames)@);
}

/// Memory that is given back makes the frame free that holds the address, and no other; a
/// null pointer changes nothing.
pub proof fn law_memory_given_back_is_free(frames: &mut FrameAllocator, addr: usize)
    requires
        old(frames).wf(),
        addr < 0x2000_0000,
        call_ensures(linux_shim::kfree, (frames, addr), ()),
    ensures
        addr == 0 ==> final(frames)@ == old(frames)@,
        addr != 0 ==> only_frame(old(frames)@, final(frames)@, addr as int / 4096, false),
{
}

/// Device memory is seen where it is, a microsecond takes a thousand rounds, and a
/// millisecond a thousand times as many.
pub proof fn law_delays_and_device_memory(at: u64, size: u64, t: u64, a: u64, b: u64, c: u64)
    requires
        call_ensures(linux_shim::ioremap, (at, size), a),
        call_ensures(linux_shim::udelay_rounds, (t,), b),
        call_ensures(linux_shim::mdelay_rounds, (t,), c),
    ensures
        a == at,
        b == 1000 * t,
        c == 1000 * b,
{
}

/// A lock is taken by the first who tries, and by nobody else until it is given up.
pub proof fn law_lock_is_taken_once(l: &mut SpinLock, r: bool)
    requires
        call_ensures(SpinLock::try_lock, (l,), r),
    ensures
        r <==> !old(l).locked,
        final(l).locked,
{
}

/// A lock that is given up is free, and one that is taken is not.
pub proof fn law_lock_changes_hands(l: &mut SpinLock, m: &mut SpinLock)
    requires
        call_ensures(SpinLock::lock, (l,), ()),
        call_ensures(SpinLock::unlock, (m,), ()),
    ensures
        final(l).locked,
        !final(m).locked,
{
}

/// A number in 32 bits that differs from `v` by a multiple of 2^32.
pub open spec fn wraps_to(v: int, r: i32) -> bool {
    r == v || r == v - 0x1_0000_0000 || r == v + 0x1_0000_0000
}

/// A counter gives what it was, and goes up or down by what it is told, in 32 bits.
pub proof fn law_counter_goes_up_and_down(
    a: &mut AtomicInt,
    b: &mut AtomicInt,
    c: &mut AtomicInt,
    d: &mut AtomicInt,
    n: i32,
    ra: i32,
    rb: i32,
    rc: i32,
    rd: i32,
)
    requires
        call_ensures(AtomicInt::add, (a, n), ra),
        call_ensures(AtomicInt::sub, (b, n), rb),
        call_ensures(AtomicInt::inc, (c,), rc),
        call_ensures(AtomicInt::dec, (d,), rd),
    ensures
        ra == old(a).value && wraps_to(old(a).value + n, final(a).value),
        rb == old(b).value && wraps_to(old(b).value - n, final(b).value),
        rc == old(c).value && wraps_to(old(c).value + 1, final(c).value),
        rd == old(d).value && wraps_to(old(d).value - 1, final(d).value),
{
}

/// How important messages of a level are, from 0 for the most important.
pub open spec fn importance(l: LogLevel) -> int {
    match l {
        LogLevel::Emergency => 0,
        LogLevel::Alert => 1,
        LogLevel::Critical => 2,
        LogLevel::Error => 3,
        LogLevel::Warning => 4,
        LogLevel::Notice => 5,
        LogLevel::Info => 6,
        LogLevel::Debug => 7,
    }
}

/// A message is shown exactly if it is at least as important as the level that is set. At
/// the start everything but debugging is shown.
pub proof fn law_important_messages_are_shown(
    fresh: Logger,
    logger: &Logger,
    level: LogLevel,
    r: Option<&'static str>,
    n: u8,
)
    requires
        call_ensures(Logger::new, (), fresh),
        call_ensures(Logger::prefix, (logger, level), r),
        call_ensures(LogLevel::number, (level,), n),
    ensures
        fresh.level == LogLevel::Info,
        r is Some <==> importance(level) <= importance(logger.level),
        n == importance(level),
{
}

/// The level that is set is the one that was asked for.
pub proof fn law_level_is_set(logger: &mut Logger, level: LogLevel)
    requires
        call_ensures(linux_shim::set_log_level, (logger, level), ()),
    ensures
        final(logger).level == level,
{
}

} // verus!
