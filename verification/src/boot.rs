//! Starting the subsystems of the kernel and its threads.

use vstd::prelude::*;
use vstd::string::*;
use crate::kernel::{Kernel, World, ASSUMED_MEMORY, KERNEL_START};
use crate::ktest::run;
use crate::ktest::sound;
use crate::memory::paging::Mem;
use crate::memory::phys;
use crate::memory::phys::MAX_FRAMES;
use crate::scheduler;
use crate::scheduler::{Tasks, MAX_PROCESSES, MAX_THREADS};
use crate::search;
use crate::task::{Priority, TaskIds, Tid};
use crate::vfs;
use crate::vfs::ramfs;

verus! {

/// Starts the memory and the file system.
pub fn start(k: &mut Kernel, kernel_end: usize)
    requires
        kernel_end <= phys::MAX_FRAMES * 4096,
    ensures
        *final(k) == (Kernel { frames: final(k).frames, vfs: final(k).vfs, ..*old(k) }),
        final(k).frames.wf(),
        final(k).vfs.wf(),
        run::frames_reset(final(k).frames@, kernel_end as int),
        ramfs::is_fresh(final(k).vfs@),
        forall|bytes: Seq<u8>|
            old(k).tasks.wf() && old(k).ipc.wf() && bytes.len() >= ASSUMED_MEMORY
                ==> #[trigger] final(k).wf(bytes),
{
    phys::init(&mut k.frames, ASSUMED_MEMORY, KERNEL_START, kernel_end);
    vfs::init(&mut k.vfs);
}

/// The numbers of the threads that a boot makes.
#[derive(Debug, Clone, Copy, PartialEq, Eq, Structural)]
pub struct BootThreads {
    pub health: Option<Tid>,
    pub stats: Option<Tid>,
    pub reaper: Option<Tid>,
}

/// What starting the threads leaves behind: whoever calls it is the idle thread,
/// and the threads that watch, report and reap are made, in this order.
pub open spec fn threads_started(
    w: World,
    health: u64,
    stats: u64,
    reaper: u64,
    w2: World,
    r: BootThreads,
) -> bool {
    exists|v0: Tasks, v1: Tasks, v2: Tasks, i1: TaskIds, i2: TaskIds, m1: Mem, m2: Mem|
        scheduler::is_started(w.tasks, v0) && #[trigger] scheduler::spawned(
            v0,
            w.ids,
            w.mem,
            health,
            "health_mon".spec_bytes(),
            Priority::High,
            v1,
            i1,
            m1,
            r.health,
        ) && #[trigger] scheduler::spawned(
            v1,
            i1,
            m1,
            stats,
            "stats".spec_bytes(),
            Priority::Low,
            v2,
            i2,
            m2,
            r.stats,
        ) && scheduler::spawned(
            v2,
            i2,
            m2,
            reaper,
            "reaper".spec_bytes(),
            Priority::Low,
            w2.tasks,
            w2.ids,
            w2.mem,
            r.reaper,
        ) && w2 == (World { tasks: w2.tasks, ids: w2.ids, mem: w2.mem, ..w })
}

/// Starts the scheduler and makes the threads of the kernel, given where they
/// start.
pub fn start_threads(
    k: &mut Kernel,
    bytes: &mut [u8],
    health: u64,
    stats: u64,
    reaper: u64,
) -> (r: BootThreads)
    requires
        old(k).wf(old(bytes)@),
        old(k).ids.next_tid + 3 <= u64::MAX,
    ensures
        final(k).wf(final(bytes)@),
        final(bytes)@.len() == old(bytes)@.len(),
        threads_started(
            old(k).world(old(bytes)@),
            health,
            stats,
            reaper,
            final(k).world(final(bytes)@),
            r,
        ),
{
    scheduler::init(&mut k.tasks);
    let ghost w0 = k.world(bytes@);
    let t1: Option<Tid> = scheduler::spawn_kernel_thread_with_priority(
        &mut k.tasks,
        &mut k.ids,
        &mut k.frames,
        bytes,
        health,
        "health_mon",
        Priority::High,
    );
    let ghost w1 = k.world(bytes@);
    let t2: Option<Tid> = scheduler::spawn_kernel_thread_with_priority(
        &mut k.tasks,
        &mut k.ids,
        &mut k.frames,
        bytes,
        stats,
        "stats",
        Priority::Low,
    );
    let ghost w2 = k.world(bytes@);
    let t3: Option<Tid> = scheduler::spawn_kernel_thread_with_priority(
        &mut k.tasks,
        &mut k.ids,
        &mut k.frames,
        bytes,
        reaper,
        "reaper",
        Priority::Low,
    );
    let r = BootThreads { health: t1, stats: t2, reaper: t3 };
    let ghost w = old(k).world(old(bytes)@);
    let ghost end = k.world(bytes@);
    assert(w0.ids == w.ids && w0.mem == w.mem);
    assert(scheduler::spawned(
        w0.tasks,
        w.ids,
        w.mem,
        health,
        "health_mon".spec_bytes(),
        Priority::High,
        w1.tasks,
        w1.ids,
        w1.mem,
        r.health,
    ));
    assert(scheduler::spawned(
        w1.tasks,
        w1.ids,
        w1.mem,
        stats,
        "stats".spec_bytes(),
        Priority::Low,
        w2.tasks,
        w2.ids,
        w2.mem,
        r.stats,
    ));
    assert(scheduler::spawned(
        w2.tasks,
        w2.ids,
        w2.mem,
        reaper,
        "reaper".spec_bytes(),
        Priority::Low,
        end.tasks,
        end.ids,
        end.mem,
        r.reaper,
    ));
    assert(end == (World { tasks: end.tasks, ids: end.ids, mem: end.mem, ..w }));
    r
}

/// Whatever is at the end of a range is counted.
proof fn lemma_count_tail(n: nat, m: nat, p: spec_fn(int) -> bool)
    requires
        m <= n,
        forall|i: int| n - m <= i < n ==> #[trigger] p(i),
    ensures
        search::count(n, p) >= m,
    decreases m,
{
    if m > 0 {
        lemma_count_tail((n - 1) as nat, (m - 1) as nat, p);
    }
}

/// Taking frames leaves the others as they are.
proof fn lemma_taken(m: Mem, n: nat)
    requires
        m.sane(),
        m.frames.used[0],
        m.frames.free() >= n,
    ensures
        ({
            let (t, enough) = scheduler::frames_taken(m, n);
            &&& enough
            &&& t.sane()
            &&& t.frames.used[0]
            &&& t.frames.free() == m.frames.free() - n
        }),
    decreases n,
{
    if n > 0 {
        phys::law_alloc_succeeds_while_frames_are_free(m.frames);
        phys::law_alloc_takes_a_free_frame(m.frames);
        lemma_taken(m.fresh(), (n - 1) as nat);
    }
}

/// Making a thread takes four frames, and leaves the threads and processes that
/// are there.
proof fn lemma_spawned(
    v: Tasks,
    ids: TaskIds,
    m: Mem,
    entry: u64,
    name: Seq<u8>,
    priority: Priority,
    v2: Tasks,
    ids2: TaskIds,
    m2: Mem,
    r: Option<Tid>,
)
    requires
        scheduler::spawned(v, ids, m, entry, name, priority, v2, ids2, m2, r),
        m.sane(),
        m.frames.used[0],
        m.frames.free() >= 4,
        v.threads.len() == MAX_THREADS,
        v.processes.len() == MAX_PROCESSES,
        scheduler::alive(v.threads[0]),
        v.processes[0] is Some,
    ensures
        m2.sane(),
        m2.frames.used[0],
        m2.frames.free() == m.frames.free() - 4,
        v2.threads.len() == MAX_THREADS,
        v2.processes.len() == MAX_PROCESSES,
        scheduler::alive(v2.threads[0]),
        v2.processes[0] is Some,
        v.free_slot() is Some <==> r is Some,
{
    reveal(scheduler::spawned);
    lemma_taken(m, 4);
    search::lemma_first(MAX_THREADS as nat, |i: int| v.threads[i] is None);
}

/// A kernel that was started, with no endpoint or driver registered and a slot
/// left for a device, is in the state in which it passes every test of the
/// diagnostics.
pub proof fn law_start_leaves_a_booted_kernel(
    w: World,
    kernel_end: int,
    health: u64,
    stats: u64,
    reaper: u64,
    w2: World,
    r: BootThreads,
)
    requires
        0 <= kernel_end <= ASSUMED_MEMORY - 0x1_0000,
        run::frames_reset(w.mem.frames, kernel_end),
        w.mem.bytes.len() >= ASSUMED_MEMORY,
        ramfs::is_fresh(w.vfs),
        w.tasks.threads.len() == MAX_THREADS,
        w.tasks.processes.len() == MAX_PROCESSES,
        sound::idle_from(w.ipc, 0),
        w.devices.len() == crate::drivers::MAX_DEVICES,
        !w.devices[crate::drivers::MAX_DEVICES - 1].active,
        w.drivers.len() == crate::drivers::MAX_DRIVERS,
        forall|i: int|
            0 <= i < crate::drivers::MAX_DRIVERS ==> !(#[trigger] w.drivers[i]).active,
        threads_started(w, health, stats, reaper, w2, r),
    ensures
        sound::is_booted(w2),
{
    let f = w.mem.frames;
    let p = |i: int| !f.used[i];
    assert forall|i: int| 16384 - 16 <= i < 16384 implies #[trigger] p(i) by {
        assert(!phys::taken_at_boot(i, KERNEL_START as int, kernel_end));
    }
    lemma_count_tail(16384, 16, p);
    assert(f.free() >= 16);
    assert(phys::taken_at_boot(0, KERNEL_START as int, kernel_end));
    let (v0, v1, v2, i1, i2, m1, m2) = choose|
        v0: Tasks,
        v1: Tasks,
        v2: Tasks,
        i1: TaskIds,
        i2: TaskIds,
        m1: Mem,
        m2: Mem,
    |
        scheduler::is_started(w.tasks, v0) && #[trigger] scheduler::spawned(
            v0,
            w.ids,
            w.mem,
            health,
            "health_mon".spec_bytes(),
            Priority::High,
            v1,
            i1,
            m1,
            r.health,
        ) && #[trigger] scheduler::spawned(
            v1,
            i1,
            m1,
            stats,
            "stats".spec_bytes(),
            Priority::Low,
            v2,
            i2,
            m2,
            r.stats,
        ) && scheduler::spawned(
            v2,
            i2,
            m2,
            reaper,
            "reaper".spec_bytes(),
            Priority::Low,
            w2.tasks,
            w2.ids,
            w2.mem,
            r.reaper,
        ) && w2 == (World { tasks: w2.tasks, ids: w2.ids, mem: w2.mem, ..w });
    lemma_spawned(
        v0,
        w.ids,
        w.mem,
        health,
        "health_mon".spec_bytes(),
        Priority::High,
        v1,
        i1,
        m1,
        r.health,
    );
    lemma_spawned(
        v1,
        i1,
        m1,
        stats,
        "stats".spec_bytes(),
        Priority::Low,
        v2,
        i2,
        m2,
        r.stats,
    );
    lemma_spawned(
        v2,
        i2,
        m2,
        reaper,
        "reaper".spec_bytes(),
        Priority::Low,
        w2.tasks,
        w2.ids,
        w2.mem,
        r.reaper,
    );
    search::lemma_count_positive(
        MAX_PROCESSES as nat,
        |i: int| w2.tasks.processes[i] is Some,
        0,
    );
    search::lemma_count_positive(
        MAX_THREADS as nat,
        |i: int| scheduler::alive(w2.tasks.threads[i]),
        0,
    );
}

} // verus!
