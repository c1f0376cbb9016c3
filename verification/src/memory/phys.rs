//! The bitmap allocator of physical frames.
//!
//! Every frame of 4 KiB has one bit: set where the frame is taken, clear where
//! it is free.

use vstd::prelude::*;
use crate::search;
use super::{align_up, PAGE_SIZE};

verus! {

/// Frames that the bitmap covers: 512 MiB of RAM.
pub const MAX_FRAMES: usize = 131_072;

/// Bytes of the bitmap.
pub const BITMAP_SIZE: usize = 16_384;

/// Frames of the first MiB, which always belongs to the firmware.
pub const RESERVED_FRAMES: usize = 256;

/// The allocator of physical frames.
pub struct FrameAllocator {
    /// One bit per frame.
    pub bitmap: [u8; BITMAP_SIZE],
    /// How many frames of RAM there are.
    pub total_frames: usize,
    /// How many of them are free.
    pub free_frames: usize,
}

/// What an allocator knows: how many frames there are and which are taken.
#[verifier::ext_equal]
pub struct Frames {
    pub total: nat,
    pub used: Seq<bool>,
}

impl Frames {
    /// The lowest free frame.
    pub open spec fn lowest_free(self) -> Option<usize> {
        search::first(self.total, |f: int| !self.used[f])
    }

    /// The frames with frame `f` taken.
    pub open spec fn take(self, f: int) -> Frames {
        Frames { total: self.total, used: self.used.update(f, true) }
    }

    /// The frames with frame `f` free.
    pub open spec fn release(self, f: int) -> Frames {
        Frames { total: self.total, used: self.used.update(f, false) }
    }

    /// How many frames are free.
    pub open spec fn free(self) -> nat {
        search::count(self.total, |f: int| !self.used[f])
    }
}

/// Bit `k` of `b`.
pub open spec fn bit_of(b: u8, k: u8) -> bool {
    b & (1u8 << k) != 0
}

proof fn lemma_bits(b: u8, k: u8, j: u8)
    by (bit_vector)
    requires
        k < 8,
        j < 8,
    ensures
        0u8 & (1u8 << j) == 0,
        (b | (1u8 << k)) & (1u8 << j) != 0 <==> j == k || b & (1u8 << j) != 0,
        (b & !(1u8 << k)) & (1u8 << j) != 0 <==> j != k && b & (1u8 << j) != 0,
{
}

impl View for FrameAllocator {
    type V = Frames;

    open spec fn view(&self) -> Frames {
        Frames {
            total: self.total_frames as nat,
            used: Seq::new(
                MAX_FRAMES as nat,
                |f: int| bit_of(self.bitmap@[f / 8], (f % 8) as u8),
            ),
        }
    }
}

impl FrameAllocator {
    /// The free count is that of the clear bits, and the bitmap covers the RAM.
    pub open spec fn wf(&self) -> bool {
        &&& self.total_frames <= MAX_FRAMES
        &&& self.free_frames == self@.free()
    }

    /// An allocator that knows of no memory yet.
    pub fn new() -> (r: FrameAllocator)
        ensures
            r.wf(),
            r@.total == 0,
            forall|f: int| 0 <= f < MAX_FRAMES ==> !r@.used[f],
    {
        let r = FrameAllocator { bitmap: [0u8; BITMAP_SIZE], total_frames: 0, free_frames: 0 };
        assert forall|f: int| 0 <= f < MAX_FRAMES implies !r@.used[f] by {
            lemma_bits(0, 0, (f % 8) as u8);
        }
        r
    }
}

/// Marks a frame as taken.
fn set_bit(a: &mut FrameAllocator, frame: usize)
    requires
        frame < MAX_FRAMES,
    ensures
        final(a)@ == old(a)@.take(frame as int),
        final(a).free_frames == old(a).free_frames,
        final(a).total_frames == old(a).total_frames,
{
    let byte: usize = frame / 8;
    let bit: u8 = (frame % 8) as u8;
    let b: u8 = a.bitmap[byte];
    a.bitmap[byte] = b | (1u8 << bit);
    proof {
        assert forall|f: int| 0 <= f < MAX_FRAMES implies a@.used[f] == old(a)@.take(
            frame as int,
        ).used[f] by {
            lemma_bits(b, bit, (f % 8) as u8);
        }
        assert(a@.used =~= old(a)@.take(frame as int).used);
    }
}

/// Marks a frame as free.
fn clear_bit(a: &mut FrameAllocator, frame: usize)
    requires
        frame < MAX_FRAMES,
    ensures
        final(a)@ == old(a)@.release(frame as int),
        final(a).free_frames == old(a).free_frames,
        final(a).total_frames == old(a).total_frames,
{
    let byte: usize = frame / 8;
    let bit: u8 = (frame % 8) as u8;
    let b: u8 = a.bitmap[byte];
    a.bitmap[byte] = b & !(1u8 << bit);
    proof {
        assert forall|f: int| 0 <= f < MAX_FRAMES implies a@.used[f] == old(a)@.release(
            frame as int,
        ).used[f] by {
            lemma_bits(b, bit, (f % 8) as u8);
        }
        assert(a@.used =~= old(a)@.release(frame as int).used);
    }
}

/// Whether a frame is taken.
fn test_bit(a: &FrameAllocator, frame: usize) -> (r: bool)
    requires
        frame < MAX_FRAMES,
    ensures
        r == a@.used[frame as int],
{
    let byte: usize = frame / 8;
    let bit: u8 = (frame % 8) as u8;
    (a.bitmap[byte] & (1u8 << bit)) != 0
}

/// The frame that holds a physical address.
pub fn addr_to_frame(addr: usize) -> (r: usize)
    ensures
        r == addr as int / 4096,
{
    addr / PAGE_SIZE
}

/// The physical address at which a frame starts.
pub fn frame_to_addr(frame: usize) -> (r: usize)
    requires
        frame < MAX_FRAMES,
    ensures
        r == frame * 4096,
{
    frame * PAGE_SIZE
}

/// Whether frame `f` is taken once the allocator has been set up for a kernel
/// in `kernel_start..kernel_end`.
pub open spec fn taken_at_boot(f: int, kernel_start: int, kernel_end: int) -> bool {
    f < RESERVED_FRAMES || kernel_start / 4096 <= f < super::aligned_up(kernel_end, 4096) / 4096
}

/// Sets the allocator up for `memory_size` bytes of RAM: the first MiB and the
/// frames of the kernel are taken, everything else is free.
pub fn init(a: &mut FrameAllocator, memory_size: usize, kernel_start: usize, kernel_end: usize)
    requires
        memory_size >= 1024 * 1024,
        kernel_end + 4095 <= usize::MAX,
        kernel_start as int / 4096 < super::aligned_up(kernel_end as int, 4096) / 4096
            ==> super::aligned_up(kernel_end as int, 4096) / 4096 <= MAX_FRAMES,
    ensures
        final(a).wf(),
        final(a)@.total == if memory_size as int / 4096 < MAX_FRAMES {
            memory_size as int / 4096
        } else {
            MAX_FRAMES as int
        },
        forall|f: int|
            0 <= f < MAX_FRAMES ==> #[trigger] final(a)@.used[f] == taken_at_boot(
                f,
                kernel_start as int,
                kernel_end as int,
            ),
{
    let frames: usize = memory_size / PAGE_SIZE;
    let total: usize = if frames < MAX_FRAMES {
        frames
    } else {
        MAX_FRAMES
    };
    *a = FrameAllocator::new();
    a.total_frames = total;
    a.free_frames = total;
    proof {
        lemma_count_all(total as nat, |f: int| !a@.used[f]);
    }
    let reserved_end: usize = align_up(1024 * 1024, PAGE_SIZE);
    let reserved_frames: usize = reserved_end / PAGE_SIZE;
    let mut i: usize = 0;
    while i < reserved_frames
        invariant
            i <= reserved_frames == 256,
            a.total_frames == total <= MAX_FRAMES,
            total >= 256,
            a.wf(),
            forall|f: int| 0 <= f < MAX_FRAMES ==> a@.used[f] == (f < i),
        decreases reserved_frames - i,
    {
        reserve(a, i);
        i = i + 1;
    }
    let kstart: usize = addr_to_frame(kernel_start);
    let kend: usize = addr_to_frame(align_up(kernel_end, PAGE_SIZE));
    let mut j: usize = kstart;
    while j < kend
        invariant
            kstart <= j,
            j <= kend || kend < kstart,
            j == kstart || j <= kend,
            kstart < kend ==> kend <= MAX_FRAMES,
            a.total_frames == total <= MAX_FRAMES,
            a.wf(),
            forall|f: int|
                0 <= f < MAX_FRAMES ==> a@.used[f] == (f < RESERVED_FRAMES || kstart <= f < j),
        decreases kend - j,
    {
        reserve(a, j);
        j = j + 1;
    }
}

/// Every index satisfies the predicate: the count is the whole range.
proof fn lemma_count_all(n: nat, p: spec_fn(int) -> bool)
    requires
        forall|j: int| 0 <= j < n ==> #[trigger] p(j),
    ensures
        search::count(n, p) == n,
    decreases n,
{
    if n > 0 {
        lemma_count_all((n - 1) as nat, p);
    }
}

/// Takes one frame out of use, whether or not it is free.
fn reserve(a: &mut FrameAllocator, frame: usize)
    requires
        old(a).wf(),
        frame < MAX_FRAMES,
    ensures
        final(a).wf(),
        final(a)@ == old(a)@.take(frame as int),
{
    if !test_bit(a, frame) {
        proof {
            lemma_take_counts(a@, frame as int);
        }
        set_bit(a, frame);
        if frame < a.total_frames {
            a.free_frames = a.free_frames - 1;
        }
    } else {
        assert(a@.take(frame as int) =~= a@);
    }
}

/// Taking a free frame leaves one free frame fewer, if the frame is RAM.
proof fn lemma_take_counts(v: Frames, f: int)
    requires
        v.used.len() == MAX_FRAMES,
        v.total <= MAX_FRAMES,
        0 <= f < MAX_FRAMES,
        !v.used[f],
    ensures
        f < v.total ==> v.free() == v.take(f).free() + 1,
        f >= v.total ==> v.free() == v.take(f).free(),
{
    let p = |g: int| !v.used[g];
    let q = |g: int| !v.take(f).used[g];
    if f < v.total {
        search::lemma_count_add(v.total, q, p, f);
    } else {
        search::lemma_count_same(v.total, q, p);
    }
}

/// Takes the lowest free frame and returns its address, or `None` if every
/// frame is taken.
pub fn alloc_frame(a: &mut FrameAllocator) -> (r: Option<usize>)
    requires
        old(a).wf(),
    ensures
        final(a).wf(),
        match old(a)@.lowest_free() {
            Some(f) => {
                &&& f < old(a)@.total
                &&& r == Some((f * 4096) as usize)
                &&& r.unwrap() == f * 4096
                &&& final(a)@ == old(a)@.take(f as int)
                &&& final(a).free_frames == old(a).free_frames - 1
            },
            None => r is None && *final(a) == *old(a) && old(a).free_frames == 0,
        },
{
    let mut i: usize = 0;
    while i < a.total_frames
        invariant
            *a == *old(a),
            a.wf(),
            i <= a.total_frames,
            forall|f: int| 0 <= f < i ==> a@.used[f],
        decreases a.total_frames - i,
    {
        if !test_bit(a, i) {
            proof {
                search::lemma_first_is(a@.total, |f: int| !a@.used[f], i);
                lemma_take_counts(a@, i as int);
            }
            set_bit(a, i);
            a.free_frames = a.free_frames - 1;
            return Some(frame_to_addr(i));
        }
        i = i + 1;
    }
    proof {
        search::lemma_first_none(a@.total, |f: int| !a@.used[f]);
        search::lemma_count_zero(a@.total, |f: int| !a@.used[f]);
    }
    None
}

/// Frees the frame that holds `addr`. Freeing a free frame changes nothing.
pub fn free_frame(a: &mut FrameAllocator, addr: usize)
    requires
        old(a).wf(),
        addr as int / 4096 < MAX_FRAMES,
    ensures
        final(a).wf(),
        final(a)@ == old(a)@.release(addr as int / 4096),
        final(a).free_frames == old(a).free_frames + if addr as int / 4096 < old(a)@.total
            && old(a)@.used[addr as int / 4096] {
            1int
        } else {
            0int
        },
{
    let frame: usize = addr_to_frame(addr);
    if test_bit(a, frame) {
        clear_bit(a, frame);
        proof {
            lemma_take_counts(a@, frame as int);
            assert(a@.take(frame as int) =~= old(a)@);
            search::lemma_count_bound(a@.total, |f: int| !a@.used[f]);
        }
        if frame < a.total_frames {
            a.free_frames = a.free_frames + 1;
        }
    } else {
        assert(a@.release(frame as int) =~= a@);
    }
}

/// How many frames are free.
pub fn free_count(a: &FrameAllocator) -> (r: usize)
    requires
        a.wf(),
    ensures
        r == a.free_frames,
        r == a@.free(),
{
    a.free_frames
}

/// How many frames there are.
pub fn total_count(a: &FrameAllocator) -> (r: usize)
    ensures
        r == a@.total,
{
    a.total_frames
}

/// The free memory in KiB.
pub fn free_memory_kb(a: &FrameAllocator) -> (r: usize)
    requires
        a.wf(),
    ensures
        r == a@.free() * 4,
{
    proof {
        search::lemma_count_bound(a@.total, |f: int| !a@.used[f]);
    }
    free_count(a) * (PAGE_SIZE / 1024)
}

/// The total memory in KiB.
pub fn total_memory_kb(a: &FrameAllocator) -> (r: usize)
    requires
        a.wf(),
    ensures
        r == a@.total * 4,
{
    total_count(a) * (PAGE_SIZE / 1024)
}

/// A frame that the allocator hands out was free, lies in RAM and starts on a
/// frame boundary; afterwards it is taken, every other frame is as before, and
/// one frame fewer is free.
pub proof fn law_alloc_takes_a_free_frame(v: Frames)
    requires
        v.used.len() == MAX_FRAMES,
        v.total <= MAX_FRAMES,
        v.lowest_free() is Some,
    ensures
        ({
            let f = v.lowest_free()->0 as int;
            &&& 0 <= f < v.total
            &&& !v.used[f]
            &&& v.take(f).used[f]
            &&& forall|g: int| 0 <= g < MAX_FRAMES && g != f ==> v.take(f).used[g] == v.used[g]
            &&& v.take(f).free() == v.free() - 1
        }),
{
    search::lemma_first(v.total, |f: int| !v.used[f]);
    lemma_take_counts(v, v.lowest_free()->0 as int);
}

/// An allocation succeeds exactly when some frame is free.
pub proof fn law_alloc_succeeds_while_frames_are_free(v: Frames)
    requires
        v.used.len() == MAX_FRAMES,
        v.total <= MAX_FRAMES,
    ensures
        v.lowest_free() is Some <==> v.free() > 0,
{
    let p = |f: int| !v.used[f];
    search::lemma_first(v.total, p);
    match v.lowest_free() {
        Some(f) => search::lemma_count_positive(v.total, p, f as int),
        None => search::lemma_count_zero(v.total, p),
    }
}

/// Freeing what was just allocated restores the allocator.
pub proof fn law_free_undoes_alloc(v: Frames)
    requires
        v.used.len() == MAX_FRAMES,
        v.total <= MAX_FRAMES,
        v.lowest_free() is Some,
    ensures
        v.take(v.lowest_free()->0 as int).release(v.lowest_free()->0 as int) == v,
{
    search::lemma_first(v.total, |f: int| !v.used[f]);
    let f = v.lowest_free()->0 as int;
    assert(v.take(f).release(f).used =~= v.used);
}

/// Two allocations without a free between them hand out different frames.
pub proof fn law_allocations_are_disjoint(v: Frames)
    requires
        v.used.len() == MAX_FRAMES,
        v.total <= MAX_FRAMES,
        v.lowest_free() is Some,
        v.take(v.lowest_free()->0 as int).lowest_free() is Some,
    ensures
        v.take(v.lowest_free()->0 as int).lowest_free()->0 > v.lowest_free()->0,
{
    let f = v.lowest_free()->0 as int;
    let w = v.take(f);
    search::lemma_first(v.total, |g: int| !v.used[g]);
    search::lemma_first(w.total, |g: int| !w.used[g]);
    let h = w.lowest_free()->0 as int;
    assert(!w.used[h]);
    if h < f {
        assert((|g: int| !v.used[g])(h));
    }
}

/// A second free of the same frame changes nothing.
pub proof fn law_double_free_is_harmless(v: Frames, f: int)
    requires
        v.used.len() == MAX_FRAMES,
        0 <= f < MAX_FRAMES,
    ensures
        v.release(f).release(f) == v.release(f),
{
    assert(v.release(f).release(f).used =~= v.release(f).used);
}

} // verus!
