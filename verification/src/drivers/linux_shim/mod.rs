//! What drivers written for another kernel expect: page-wise memory, locks,
//! counters, delays, log levels and error codes under their usual names.
//!
//! A lock and a counter are plain values here; each of their operations is one
//! step. A pointer is a physical address, 0 is null.

use vstd::prelude::*;
use crate::memory::paging;
use crate::memory::paging::Mem;
use crate::memory::phys;
use crate::memory::phys::{FrameAllocator, Frames};
use crate::memory::ram;
use crate::memory::{align_up, PAGE_SIZE};

verus! {

/// How memory is to be allocated.
pub type GfpFlags = u32;

pub const GFP_KERNEL: GfpFlags = 0x0;

pub const GFP_ATOMIC: GfpFlags = 0x1;

pub const GFP_DMA: GfpFlags = 0x2;

pub const GFP_DMA32: GfpFlags = 0x4;

/// Clear the memory.
pub const GFP_ZERO: GfpFlags = 0x8;

/// The flags ask for cleared memory.
pub open spec fn wants_zero(flags: GfpFlags) -> bool {
    flags as int / 8 % 2 == 1
}

/// The frames with the `n` lowest free ones taken, and whether there were as
/// many.
pub open spec fn frames_popped(f: Frames, n: nat) -> (Frames, bool)
    decreases n,
{
    if n == 0 {
        (f, true)
    } else {
        match f.lowest_free() {
            Some(k) => frames_popped(f.take(k as int), (n - 1) as nat),
            None => (f, false),
        }
    }
}

/// Pages that `size` bytes take.
pub open spec fn pages_for(size: int) -> int {
    (size + 4095) / 4096
}

/// Takes `n` frames. Returns whether there were as many.
fn pop_frames(frames: &mut FrameAllocator, n: usize) -> (r: bool)
    requires
        old(frames).wf(),
    ensures
        final(frames).wf(),
        (final(frames)@, r) == frames_popped(old(frames)@, n as nat),
        final(frames)@.total == old(frames)@.total,
{
    let ghost f = frames@;
    let mut i: usize = 0;
    while i < n
        invariant
            i <= n,
            frames.wf(),
            f == old(frames)@,
            frames@.total == f.total,
            frames_popped(f, n as nat) == frames_popped(frames@, (n - i) as nat),
        decreases n - i,
    {
        match phys::alloc_frame(frames) {
            Some(_) => {},
            None => {
                return false;
            },
        }
        i = i + 1;
    }
    true
}

/// The lowest of some frames that were taken has as many frames behind it.
proof fn lemma_pages_in_ram(f: Frames, n: nat)
    requires
        f.used.len() == phys::MAX_FRAMES,
        f.total <= phys::MAX_FRAMES,
        n > 0,
        frames_popped(f, n).1,
    ensures
        f.lowest_free() is Some,
        f.lowest_free()->0 + n <= f.total,
    decreases n,
{
    phys::law_alloc_takes_a_free_frame(f);
    if n > 1 {
        lemma_pages_in_ram(f.take(f.lowest_free()->0 as int), (n - 1) as nat);
        phys::law_allocations_are_disjoint(f);
    }
}

/// What `kmalloc` leaves behind and returns.
pub open spec fn allocated(m: Mem, size: int, flags: GfpFlags) -> (Mem, int) {
    let n = pages_for(size);
    let (f, enough) = frames_popped(m.frames, n as nat);
    if size == 0 {
        (m, 0)
    } else if !enough {
        (Mem { bytes: m.bytes, frames: f }, 0)
    } else if wants_zero(flags) {
        (Mem { bytes: ram::filled(m.bytes, m.fresh_addr(), n * 4096, 0), frames: f }, m.fresh_addr())
    } else {
        (Mem { bytes: m.bytes, frames: f }, m.fresh_addr())
    }
}

/// Allocates memory in whole pages, and returns its address: that of the lowest
/// free frame, with as many more frames taken as the size needs. 0 if the size
/// is 0 or there are too few frames; those taken by then stay taken.
pub fn kmalloc(
    frames: &mut FrameAllocator,
    bytes: &mut [u8],
    size: usize,
    flags: GfpFlags,
) -> (r: usize)
    requires
        old(frames).wf(),
        paging::mem(old(frames), old(bytes)@).sane(),
        size + 4095 <= usize::MAX,
    ensures
        final(frames).wf(),
        final(bytes)@.len() == old(bytes)@.len(),
        paging::mem(final(frames), final(bytes)@).sane(),
        (paging::mem(final(frames), final(bytes)@), r as int) == allocated(
            paging::mem(old(frames), old(bytes)@),
            size as int,
            flags,
        ),
{
    if size == 0 {
        return 0;
    }
    let ghost m = paging::mem(frames, bytes@);
    let pages_needed: usize = align_up(size, PAGE_SIZE) / PAGE_SIZE;
    assert(pages_needed == pages_for(size as int));
    let addr: usize = match phys::alloc_frame(frames) {
        Some(a) => a,
        None => {
            return 0;
        },
    };
    assert(frames@ == m.fresh().frames);
    if !pop_frames(frames, pages_needed - 1) {
        return 0;
    }
    if flags / 8 % 2 == 1 {
        proof {
            lemma_pages_in_ram(m.frames, pages_needed as nat);
        }
        assert(addr + pages_needed * 4096 <= bytes.len());
        ram::fill(bytes, addr, pages_needed * PAGE_SIZE, 0);
    }
    addr
}

/// Allocates cleared memory. See `kmalloc`.
pub fn kzalloc(
    frames: &mut FrameAllocator,
    bytes: &mut [u8],
    size: usize,
    flags: GfpFlags,
) -> (r: usize)
    requires
        old(frames).wf(),
        paging::mem(old(frames), old(bytes)@).sane(),
        size + 4095 <= usize::MAX,
    ensures
        final(frames).wf(),
        final(bytes)@.len() == old(bytes)@.len(),
        paging::mem(final(frames), final(bytes)@).sane(),
        (paging::mem(final(frames), final(bytes)@), r as int) == allocated(
            paging::mem(old(frames), old(bytes)@),
            size as int,
            GFP_ZERO,
        ),
{
    let all: GfpFlags = if flags / 8 % 2 == 1 {
        flags
    } else {
        flags + GFP_ZERO
    };
    kmalloc(frames, bytes, size, all)
}

/// Frees the page that holds an address; a null pointer is passed over.
pub fn kfree(frames: &mut FrameAllocator, addr: usize)
    requires
        old(frames).wf(),
        addr as int / 4096 < phys::MAX_FRAMES,
    ensures
        final(frames).wf(),
        final(frames)@ == (if addr == 0 {
            old(frames)@
        } else {
            old(frames)@.release(addr as int / 4096)
        }),
{
    if addr == 0 {
        return;
    }
    let frame_addr: usize = addr - addr % PAGE_SIZE;
    phys::free_frame(frames, frame_addr);
}

/// What `kmalloc` of one page took, `kfree` gives back.
pub proof fn law_kfree_gives_back_a_page(m: Mem, size: int, flags: GfpFlags)
    requires
        m.sane(),
        0 < size <= 4096,
        m.frames.lowest_free() is Some,
    ensures
        allocated(m, size, flags).0.frames.release(allocated(m, size, flags).1 / 4096) == m.frames,
{
    reveal_with_fuel(frames_popped, 2);
    phys::law_free_undoes_alloc(m.frames);
    assert(pages_for(size) == 1);
}

/// Where the registers of a device are seen: at their physical address.
pub fn ioremap(phys_addr: u64, _size: u64) -> (r: u64)
    ensures
        r == phys_addr,
{
    phys_addr
}

/// Rounds of a busy loop that take about `us` microseconds.
pub fn udelay_rounds(us: u64) -> (r: u64)
    requires
        us * 1000 <= u64::MAX,
    ensures
        r == us * 1000,
{
    us * 1000
}

/// Rounds of a busy loop that take about `ms` milliseconds.
pub fn mdelay_rounds(ms: u64) -> (r: u64)
    requires
        ms * 1_000_000 <= u64::MAX,
    ensures
        r == ms * 1_000_000,
{
    udelay_rounds(ms * 1000)
}

/// A lock in its two states. It is a plain value, which one owner changes: it
/// cannot be shared between processors. State that is shared lies behind the
/// lock of the `lock` module.
#[derive(Debug, Clone, Copy, PartialEq, Eq, Structural)]
pub struct SpinLock {
    pub locked: bool,
}

impl SpinLock {
    /// A lock that nobody holds.
    pub fn new() -> (r: SpinLock)
        ensures
            !r.locked,
    {
        SpinLock { locked: false }
    }

    /// Takes the lock, which nobody may hold: otherwise this would never end.
    pub fn lock(&mut self)
        requires
            !old(self).locked,
        ensures
            final(self).locked,
    {
        self.locked = true;
    }

    /// Gives the lock up.
    pub fn unlock(&mut self)
        ensures
            !final(self).locked,
    {
        self.locked = false;
    }

    /// Takes the lock if nobody holds it. Returns whether it was taken.
    pub fn try_lock(&mut self) -> (r: bool)
        ensures
            r == !old(self).locked,
            final(self).locked,
    {
        let free: bool = !self.locked;
        self.locked = true;
        free
    }
}

/// A sum of two numbers, wrapped around to 32 bits.
pub open spec fn wrapped(v: int) -> int {
    if v > i32::MAX {
        v - 0x1_0000_0000
    } else if v < i32::MIN {
        v + 0x1_0000_0000
    } else {
        v
    }
}

/// A counter that wraps around. It is a plain value, which one owner changes: it
/// cannot be shared between processors.
#[derive(Debug, Clone, Copy, PartialEq, Eq, Structural)]
pub struct AtomicInt {
    pub value: i32,
}

impl AtomicInt {
    /// A counter with a value.
    pub fn new(val: i32) -> (r: AtomicInt)
        ensures
            r.value == val,
    {
        AtomicInt { value: val }
    }

    /// Its value.
    pub fn read(&self) -> (r: i32)
        ensures
            r == self.value,
    {
        self.value
    }

    /// Sets its value.
    pub fn set(&mut self, val: i32)
        ensures
            final(self).value == val,
    {
        self.value = val;
    }

    /// Adds to its value, wrapping around, and returns what it was.
    pub fn add(&mut self, val: i32) -> (r: i32)
        ensures
            r == old(self).value,
            final(self).value == wrapped(old(self).value + val),
    {
        let before: i32 = self.value;
        self.value = before.wrapping_add(val);
        before
    }

    /// Takes from its value, wrapping around, and returns what it was.
    pub fn sub(&mut self, val: i32) -> (r: i32)
        ensures
            r == old(self).value,
            final(self).value == wrapped(old(self).value - val),
    {
        let before: i32 = self.value;
        self.value = before.wrapping_sub(val);
        before
    }

    /// Adds one, and returns what the value was.
    pub fn inc(&mut self) -> (r: i32)
        ensures
            r == old(self).value,
            final(self).value == wrapped(old(self).value + 1),
    {
        self.add(1)
    }

    /// Takes one away, and returns what the value was.
    pub fn dec(&mut self) -> (r: i32)
        ensures
            r == old(self).value,
            final(self).value == wrapped(old(self).value - 1),
    {
        self.sub(1)
    }
}

/// How important a message is.
#[derive(Debug, Clone, Copy, PartialEq, Eq, PartialOrd, Structural)]
pub enum LogLevel {
    Emergency,
    Alert,
    Critical,
    Error,
    Warning,
    Notice,
    Info,
    Debug,
}

impl LogLevel {
    /// The level as a number: the lower, the more important.
    pub open spec fn rank(self) -> int {
        match self {
            LogLevel::Emergency => 0,
            LogLevel::Alert => 1,
            LogLevel::Critical => 2,
            LogLevel::Error => 3,
            LogLevel::Warning => 4,
            LogLevel::Notice => 5,
            LogLevel::Info => 6,
            LogLevel::Debug => 7,
        }
    }

    /// The level as a number: the lower, the more important.
    pub fn number(self) -> (r: u8)
        ensures
            r == self.rank(),
    {
        match self {
            LogLevel::Emergency => 0,
            LogLevel::Alert => 1,
            LogLevel::Critical => 2,
            LogLevel::Error => 3,
            LogLevel::Warning => 4,
            LogLevel::Notice => 5,
            LogLevel::Info => 6,
            LogLevel::Debug => 7,
        }
    }

    /// What stands in front of messages of a level.
    pub open spec fn label(self) -> &'static str {
        match self {
            LogLevel::Emergency => "[EMERG]",
            LogLevel::Alert => "[ALERT]",
            LogLevel::Critical => "[CRIT] ",
            LogLevel::Error => "[ERR]  ",
            LogLevel::Warning => "[WARN] ",
            LogLevel::Notice => "[NOTE] ",
            LogLevel::Info => "[INFO] ",
            LogLevel::Debug => "[DBG]  ",
        }
    }
}

/// Which messages are shown.
#[derive(Debug, Clone, Copy, PartialEq, Eq, Structural)]
pub struct Logger {
    pub level: LogLevel,
}

impl Logger {
    /// Everything but debugging is shown.
    pub fn new() -> (r: Logger)
        ensures
            r.level == LogLevel::Info,
    {
        Logger { level: LogLevel::Info }
    }

    /// What stands in front of a message, if it is shown: it has to be at least
    /// as important as the level that was set.
    pub fn prefix(&self, level: LogLevel) -> (r: Option<&'static str>)
        ensures
            match r {
                Some(p) => level.rank() <= self.level.rank() && p@ == level.label()@,
                None => level.rank() > self.level.rank(),
            },
    {
        if level.number() > self.level.number() {
            return None;
        }
        Some(
            match level {
                LogLevel::Emergency => "[EMERG]",
                LogLevel::Alert => "[ALERT]",
                LogLevel::Critical => "[CRIT] ",
                LogLevel::Error => "[ERR]  ",
                LogLevel::Warning => "[WARN] ",
                LogLevel::Notice => "[NOTE] ",
                LogLevel::Info => "[INFO] ",
                LogLevel::Debug => "[DBG]  ",
            },
        )
    }
}

/// Sets the level of the messages that are shown.
pub fn set_log_level(logger: &mut Logger, level: LogLevel)
    ensures
        final(logger).level == level,
{
    logger.level = level;
}

pub const ENOMEM: i32 = -12;

pub const ENODEV: i32 = -19;

pub const EINVAL: i32 = -22;

pub const ENOSYS: i32 = -38;

pub const ENOENT: i32 = -2;

pub const EIO: i32 = -5;

pub const EBUSY: i32 = -16;

pub const EEXIST: i32 = -17;

pub const EPERM: i32 = -1;

pub const EAGAIN: i32 = -11;

pub const EFAULT: i32 = -14;

pub const ETIMEDOUT: i32 = -110;

} // verus!
