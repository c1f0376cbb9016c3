//! A run of the diagnostics on the live kernel.

use vstd::prelude::*;
use crate::kernel::{Kernel, World, ASSUMED_MEMORY, KERNEL_START};
use crate::memory::paging::Mem;
use crate::memory::phys;
use crate::memory::phys::{Frames, MAX_FRAMES};
use crate::scheduler;
use crate::search;
use crate::vfs;
use super::checks;
use super::{
    conclude, diag_test, record, DiagTest, Diag, Diagnostics, Health, Severity, Subsystem,
    TestResults, Verdict, MAX_RECOVERY_ATTEMPTS, TEST_COUNT,
};

verus! {

/// What test `i` makes of the kernel, and whether it passes.
pub open spec fn checked(i: int, w: World, w2: World, ok: bool) -> bool {
    if i == 0 || i == 1 || i == 3 {
        w2 == w && ok == (w.mem.frames.lowest_free() is Some)
    } else if i == 2 {
        let (taken, enough) = crate::drivers::linux_shim::frames_popped(w.mem.frames, 4);
        &&& ok == enough
        &&& w2 == (World {
            mem: Mem {
                bytes: w.mem.bytes,
                frames: if ok {
                    w.mem.frames
                } else {
                    taken
                },
            },
            ..w
        })
    } else if i == 4 {
        w2 == w && ok == w.vfs.dentries[0].active
    } else if i == 5 {
        w2 == w && ok == (w.vfs.found(checks::DEV_PATH@) is Some)
    } else if i == 6 {
        w2 == w && ok == (w.vfs.found(checks::NO_PATH@) is None)
    } else if i == 7 {
        &&& w2 == (World { mem: w2.mem, vfs: w2.vfs, ..w })
        &&& checks::wrote_file(w.vfs, w.mem, w2.vfs, w2.mem, ok)
    } else if i == 8 {
        &&& w2 == (World { mem: w2.mem, vfs: w2.vfs, ..w })
        &&& checks::read_file(w.vfs, w.mem, w2.vfs, w2.mem, ok)
    } else if i == 9 {
        w2 == (World { ipc: w2.ipc, ..w }) && checks::endpoint_found(w.ipc, w2.ipc, ok)
    } else if i == 10 {
        w2 == (World { ipc: w2.ipc, ..w }) && checks::message_returned(w.ipc, w2.ipc, ok)
    } else if i == 11 {
        w2 == (World { ipc: w2.ipc, ..w }) && checks::queue_filled(w.ipc, w2.ipc, ok)
    } else if i == 12 {
        checks::device_counted(w, w2, ok)
    } else if i == 13 {
        checks::driver_matched(w, w2, ok)
    } else if i == 14 {
        w2 == w && ok == (process_total(w) >= 1)
    } else if i == 15 {
        w2 == w && ok == (thread_total(w) >= 1)
    } else if i == 16 {
        w2 == (World { mem: w2.mem, ..w }) && checks::memory_written(w.mem, w2.mem, ok)
    } else {
        w2 == w && ok
    }
}

/// How many processes there are.
pub open spec fn process_total(w: World) -> nat {
    search::count(scheduler::MAX_PROCESSES as nat, |i: int| w.tasks.processes[i] is Some)
}

/// How many threads have not ended.
pub open spec fn thread_total(w: World) -> nat {
    search::count(
        scheduler::MAX_THREADS as nat,
        |i: int| scheduler::alive(w.tasks.threads[i]),
    )
}

/// The tests from `i` on can number their inodes and devices.
pub open spec fn numbers_left(i: int, k: &Kernel) -> bool {
    &&& k.vfs.next_ino + (if i <= 7 {
        2int
    } else if i == 8 {
        1
    } else {
        0
    }) <= u64::MAX
    &&& k.devices.next_device_id + (if i <= 12 {
        2int
    } else if i == 13 {
        1
    } else {
        0
    }) <= u32::MAX
}

/// Runs test `i`, and returns whether it passes.
pub fn run_check(i: usize, k: &mut Kernel, bytes: &mut [u8]) -> (ok: bool)
    requires
        i < TEST_COUNT,
        old(k).wf(old(bytes)@),
        numbers_left(i as int, old(k)),
    ensures
        final(k).wf(final(bytes)@),
        final(bytes)@.len() == old(bytes)@.len(),
        checked(i as int, old(k).world(old(bytes)@), final(k).world(final(bytes)@), ok),
        numbers_left(i + 1, final(k)),
        super::test_of(i as int).recovery ==> numbers_left(i as int, final(k)),
{
    match i {
        0 => checks::test_phys_alloc_and_free(k),
        1 => checks::test_phys_alloc_aligned(k),
        2 => checks::test_phys_free_restores(k),
        3 => checks::test_phys_double_free(k),
        4 => checks::test_vfs_root_exists(k),
        5 => checks::test_vfs_lookup_dev(k),
        6 => checks::test_vfs_lookup_nonexistent(k),
        7 => checks::test_vfs_create_and_write(k, bytes),
        8 => checks::test_vfs_create_and_read(k, bytes),
        9 => checks::test_ipc_register(k),
        10 => checks::test_ipc_send_receive(k),
        11 => checks::test_ipc_queue_overflow(k),
        12 => checks::test_driver_register_device(k, bytes),
        13 => checks::test_driver_match(k, bytes),
        14 => checks::test_sched_init_state(k),
        15 => checks::test_sched_thread_count(k),
        16 => checks::test_shim_kmalloc(k, bytes),
        17 => checks::test_shim_spinlock(),
        _ => checks::test_shim_atomic_ops(),
    }
}

/// The frames once the allocator was set up again for a kernel that ends at
/// `kernel_end`.
pub open spec fn frames_reset(f: Frames, kernel_end: int) -> bool {
    &&& f.total == ASSUMED_MEMORY / 4096
    &&& f.used.len() == MAX_FRAMES
    &&& forall|n: int|
        0 <= n < MAX_FRAMES ==> f.used[n] == phys::taken_at_boot(
            n,
            KERNEL_START as int,
            kernel_end,
        )
}

/// What recovering a subsystem makes of the kernel, and whether it seems to have
/// helped. The memory, the file system and the scheduler are started again.
pub open spec fn restored(
    sub: Subsystem,
    kernel_end: int,
    w: World,
    w2: World,
    ok: bool,
) -> bool {
    match sub {
        Subsystem::Memory => {
            &&& w2 == (World { mem: Mem { bytes: w.mem.bytes, frames: w2.mem.frames }, ..w })
            &&& frames_reset(w2.mem.frames, kernel_end)
            &&& ok == (w2.mem.frames.free() > 0)
        },
        Subsystem::Vfs => {
            &&& w2 == (World { vfs: w2.vfs, ..w })
            &&& vfs::ramfs::is_fresh(w2.vfs)
            &&& ok
        },
        Subsystem::Scheduler => {
            &&& w2 == (World { tasks: w2.tasks, ..w })
            &&& scheduler::is_started(w.tasks, w2.tasks)
            &&& ok
        },
        _ => w2 == w && !ok,
    }
}

/// Starts the allocator of frames again. It seems to work if a frame is free.
pub fn recovery_memory(k: &mut Kernel, kernel_end: usize) -> (ok: bool)
    requires
        kernel_end <= phys::MAX_FRAMES * 4096,
    ensures
        *final(k) == (Kernel { frames: final(k).frames, ..*old(k) }),
        final(k).frames.wf(),
        frames_reset(final(k).frames@, kernel_end as int),
        ok == (final(k).frames@.free() > 0),
{
    phys::init(&mut k.frames, ASSUMED_MEMORY, KERNEL_START, kernel_end);
    phys::free_count(&k.frames) > 0
}

/// Starts the file system again. Files that were open are lost.
pub fn recovery_vfs(k: &mut Kernel) -> (ok: bool)
    ensures
        *final(k) == (Kernel { vfs: final(k).vfs, ..*old(k) }),
        final(k).vfs.wf(),
        vfs::ramfs::is_fresh(final(k).vfs@),
        ok,
{
    vfs::init(&mut k.vfs);
    assert(k.vfs@.dentries[0].active);
    vfs::get_dentry(&k.vfs, 0).is_some()
}

/// Starts the scheduler again.
pub fn recovery_scheduler(k: &mut Kernel) -> (ok: bool)
    ensures
        *final(k) == (Kernel { tasks: final(k).tasks, ..*old(k) }),
        final(k).tasks.wf(),
        scheduler::is_started(old(k).tasks@, final(k).tasks@),
        ok,
{
    scheduler::init(&mut k.tasks);
    proof {
        let t = k.tasks@;
        search::lemma_count_positive(
            scheduler::MAX_PROCESSES as nat,
            |i: int| t.processes[i] is Some,
            0,
        );
        search::lemma_count_positive(
            scheduler::MAX_THREADS as nat,
            |i: int| scheduler::alive(t.threads[i]),
            0,
        );
    }
    scheduler::process_count(&k.tasks) >= 1 && scheduler::thread_count(&k.tasks) >= 1
}

/// Recovers a subsystem, and returns whether that seems to have helped.
pub fn recover(sub: Subsystem, k: &mut Kernel, bytes: &[u8], kernel_end: usize) -> (ok: bool)
    requires
        old(k).wf(bytes@),
        bytes@.len() >= ASSUMED_MEMORY,
        kernel_end <= phys::MAX_FRAMES * 4096,
    ensures
        final(k).wf(bytes@),
        restored(sub, kernel_end as int, old(k).world(bytes@), final(k).world(bytes@), ok),
        forall|i: int| #[trigger] numbers_left(i, old(k)) ==> numbers_left(i, final(k)),
{
    match sub {
        Subsystem::Memory => recovery_memory(k, kernel_end),
        Subsystem::Vfs => recovery_vfs(k),
        Subsystem::Scheduler => recovery_scheduler(k),
        _ => false,
    }
}

/// What happened to the kernel while a test was run: it started as `start`, the
/// test left `tested`, recovering left `repaired`, and running the test again
/// left `end`.
pub struct Step {
    pub verdict: Verdict,
    pub start: World,
    pub tested: World,
    pub repaired: World,
    pub end: World,
}

/// A step is one of test `i`, when recovering its subsystem was tried `attempts`
/// times before.
#[verifier::opaque]
pub open spec fn is_step(i: int, kernel_end: int, attempts: u8, s: Step) -> bool {
    let sub = super::test_of(i).subsystem;
    match s.verdict {
        Verdict::Passed => checked(i, s.start, s.tested, true) && s.end == s.tested,
        Verdict::Failed => {
            &&& checked(i, s.start, s.tested, false)
            &&& s.end == s.tested
            &&& !super::may_recover(i, attempts)
        },
        Verdict::Recovered => {
            &&& checked(i, s.start, s.tested, false)
            &&& super::may_recover(i, attempts)
            &&& restored(sub, kernel_end, s.tested, s.repaired, true)
            &&& checked(i, s.repaired, s.end, true)
        },
        Verdict::Unrecovered => {
            &&& checked(i, s.start, s.tested, false)
            &&& super::may_recover(i, attempts)
            &&& {
                ||| restored(sub, kernel_end, s.tested, s.repaired, false) && s.end == s.repaired
                ||| restored(sub, kernel_end, s.tested, s.repaired, true) && checked(
                    i,
                    s.repaired,
                    s.end,
                    false,
                )
            }
        },
    }
}

/// How the tests of some steps came out.
pub open spec fn verdicts(steps: Seq<Step>) -> Seq<Verdict> {
    Seq::new(steps.len(), |i: int| steps[i].verdict)
}

/// How often recovering the subsystem of test `i` was tried before it.
#[verifier::opaque]
pub open spec fn attempts_before(d: Diag, steps: Seq<Step>, i: int) -> u8 {
    super::all_noted(d, verdicts(steps.subrange(0, i))).attempts[super::test_of(
        i,
    ).subsystem.place()]
}

/// Step `i` starts where the one before it ended, the first one with `w`.
pub open spec fn follows(steps: Seq<Step>, w: World, i: int) -> bool {
    steps[i].start == (if i == 0 {
        w
    } else {
        steps[i - 1].end
    })
}

/// The steps are those of a run that started with the kernel as `w` and the
/// diagnostics as `d`, and left the kernel as `w2`.
pub open spec fn is_run(
    steps: Seq<Step>,
    kernel_end: int,
    d: Diag,
    w: World,
    w2: World,
) -> bool {
    &&& forall|i: int|
        0 <= i < steps.len() ==> is_step(
            i,
            kernel_end,
            attempts_before(d, steps, i),
            #[trigger] steps[i],
        )
    &&& forall|i: int| 0 <= i < steps.len() ==> #[trigger] follows(steps, w, i)
    &&& w2 == (if steps.len() == 0 {
        w
    } else {
        steps.last().end
    })
}

/// Runs test `i` with what follows if it fails.
fn run_step(
    i: usize,
    k: &mut Kernel,
    bytes: &mut [u8],
    kernel_end: usize,
    attempts: u8,
) -> (v: Verdict)
    requires
        i < TEST_COUNT,
        old(k).wf(old(bytes)@),
        old(bytes)@.len() >= ASSUMED_MEMORY,
        kernel_end <= phys::MAX_FRAMES * 4096,
        numbers_left(i as int, old(k)),
    ensures
        final(k).wf(final(bytes)@),
        final(bytes)@.len() == old(bytes)@.len(),
        numbers_left(i + 1, final(k)),
        v == Verdict::Recovered || v == Verdict::Unrecovered ==> super::may_recover(
            i as int,
            attempts,
        ),
        exists|tested: World, repaired: World|
            is_step(
                i as int,
                kernel_end as int,
                attempts,
                #[trigger] step_of(
                    v,
                    old(k).world(old(bytes)@),
                    tested,
                    repaired,
                    final(k).world(final(bytes)@),
                ),
            ),
{
    reveal(is_step);
    let ghost start = k.world(bytes@);
    let t: DiagTest = diag_test(i);
    if run_check(i, k, bytes) {
        let ghost end = k.world(bytes@);
        assert(is_step(
            i as int,
            kernel_end as int,
            attempts,
            step_of(Verdict::Passed, start, end, end, end),
        ));
        return Verdict::Passed;
    }
    let ghost tested = k.world(bytes@);
    if t.severity != Severity::Optional && t.recovery && attempts < MAX_RECOVERY_ATTEMPTS {
        let recovered: bool = recover(t.subsystem, k, bytes, kernel_end);
        let ghost repaired = k.world(bytes@);
        if recovered {
            if run_check(i, k, bytes) {
                assert(is_step(
                    i as int,
                    kernel_end as int,
                    attempts,
                    step_of(Verdict::Recovered, start, tested, repaired, k.world(bytes@)),
                ));
                return Verdict::Recovered;
            }
        }
        assert(is_step(
            i as int,
            kernel_end as int,
            attempts,
            step_of(Verdict::Unrecovered, start, tested, repaired, k.world(bytes@)),
        ));
        return Verdict::Unrecovered;
    }
    assert(is_step(
        i as int,
        kernel_end as int,
        attempts,
        step_of(Verdict::Failed, start, tested, tested, tested),
    ));
    Verdict::Failed
}

/// A step from its parts.
pub open spec fn step_of(
    verdict: Verdict,
    start: World,
    tested: World,
    repaired: World,
    end: World,
) -> Step {
    Step { verdict, start, tested, repaired, end }
}

/// Runs the diagnostics: every test in turn; where one fails that is not
/// optional, the subsystem is recovered if it can be, and tested again. Then the
/// states of the subsystems and the boot mode are set. `None` if the memory has
/// failed: the caller has to halt.
pub fn run_all(
    d: &mut Diagnostics,
    k: &mut Kernel,
    bytes: &mut [u8],
    kernel_end: usize,
) -> (r: Option<TestResults>)
    requires
        old(d).log.wf(),
        old(k).wf(old(bytes)@),
        old(bytes)@.len() >= ASSUMED_MEMORY,
        kernel_end <= phys::MAX_FRAMES * 4096,
        numbers_left(0, old(k)),
    ensures
        final(d).log.wf(),
        final(k).wf(final(bytes)@),
        final(bytes)@.len() == old(bytes)@.len(),
        exists|steps: Seq<Step>|
            steps.len() == TEST_COUNT && #[trigger] is_run(
                steps,
                kernel_end as int,
                old(d)@,
                old(k).world(old(bytes)@),
                final(k).world(final(bytes)@),
            ) && (final(d)@, r) == super::concluded(old(d)@, verdicts(steps)),
{
    let ghost w = k.world(bytes@);
    let mut results: Vec<Verdict> = Vec::new();
    let ghost mut steps: Seq<Step> = Seq::empty();
    let mut i: usize = 0;
    while i < TEST_COUNT
        invariant
            i <= TEST_COUNT,
            d.log.wf(),
            k.wf(bytes@),
            bytes@.len() == old(bytes)@.len(),
            bytes@.len() >= ASSUMED_MEMORY,
            kernel_end <= phys::MAX_FRAMES * 4096,
            numbers_left(i as int, k),
            w == old(k).world(old(bytes)@),
            results@.len() == i,
            steps.len() == i,
            results@ == verdicts(steps),
            d@ == super::all_noted(old(d)@, results@),
            is_run(steps, kernel_end as int, old(d)@, w, k.world(bytes@)),
        decreases TEST_COUNT - i,
    {
        let ghost before = k.world(bytes@);
        let t: DiagTest = diag_test(i);
        let attempts: u8 = d.attempts[t.subsystem.index()];
        let v: Verdict = run_step(i, k, bytes, kernel_end, attempts);
        let ghost had = steps;
        let ghost noted = d@;
        proof {
            let (tested, repaired) = choose|tested: World, repaired: World|
                is_step(
                    i as int,
                    kernel_end as int,
                    attempts,
                    #[trigger] step_of(v, before, tested, repaired, k.world(bytes@)),
                );
            let s = step_of(v, before, tested, repaired, k.world(bytes@));
            steps = had.push(s);
            lemma_run_grows(had, kernel_end as int, old(d)@, w, before, s, attempts);
            assert(verdicts(steps) =~= results@.push(v));
            assert(results@.push(v).drop_last() =~= results@);
        }
        record(d, &mut results, v);
        i = i + 1;
    }
    conclude(d, &results)
}

/// A run goes on with a step of the next test.
proof fn lemma_run_grows(
    steps: Seq<Step>,
    kernel_end: int,
    d: Diag,
    w: World,
    mid: World,
    s: Step,
    attempts: u8,
)
    requires
        is_run(steps, kernel_end, d, w, mid),
        s.start == mid,
        attempts == super::all_noted(d, verdicts(steps)).attempts[super::test_of(
            steps.len() as int,
        ).subsystem.place()],
        is_step(steps.len() as int, kernel_end, attempts, s),
    ensures
        is_run(steps.push(s), kernel_end, d, w, s.end),
{
    reveal(attempts_before);
    let all = steps.push(s);
    assert forall|i: int| 0 <= i < all.len() implies is_step(
        i,
        kernel_end,
        attempts_before(d, all, i),
        #[trigger] all[i],
    ) by {
        assert(all.subrange(0, i) =~= steps.subrange(0, i));
        if i == steps.len() {
            assert(steps.subrange(0, i) =~= steps);
        } else {
            assert(all[i] == steps[i]);
        }
    }
    assert forall|i: int| 0 <= i < all.len() implies #[trigger] follows(all, w, i) by {
        if i < steps.len() {
            assert(follows(steps, w, i));
        }
    }
}

/// Whether memory works: a frame can be taken and freed.
pub fn quick_check_memory(k: &mut Kernel) -> (ok: bool)
    requires
        old(k).frames.wf(),
    ensures
        ok == (old(k).frames@.lowest_free() is Some),
        *final(k) == (Kernel { frames: final(k).frames, ..*old(k) }),
        final(k).frames.wf(),
        final(k).frames@ == old(k).frames@,
{
    match phys::alloc_frame(&mut k.frames) {
        Some(addr) => {
            proof {
                phys::law_free_undoes_alloc(old(k).frames@);
            }
            phys::free_frame(&mut k.frames, addr);
            true
        },
        None => false,
    }
}

/// Whether the file system has its root.
pub fn quick_check_vfs(k: &Kernel) -> (ok: bool)
    ensures
        ok == k.vfs@.dentries[0].active,
{
    vfs::get_dentry(&k.vfs, 0).is_some()
}

/// Whether there is a thread.
pub fn quick_check_scheduler(k: &Kernel) -> (ok: bool)
    ensures
        ok == (search::count(
            scheduler::MAX_THREADS as nat,
            |i: int| scheduler::alive(k.tasks@.threads[i]),
        ) >= 1),
{
    scheduler::thread_count(&k.tasks) >= 1
}

/// A subsystem that is checked at run time works: a frame is free, the file
/// system has its root, there is a thread.
pub open spec fn works(sub: Subsystem, w: World) -> bool {
    match sub {
        Subsystem::Memory => w.mem.frames.lowest_free() is Some,
        Subsystem::Vfs => w.vfs.dentries[0].active,
        Subsystem::Scheduler => thread_total(w) >= 1,
        _ => true,
    }
}

/// What a check at run time leaves of the state of a subsystem: a healthy one
/// that fails it is degraded.
pub open spec fn health_checked(h: Health, ok: bool) -> Health {
    if !ok && h == Health::Healthy {
        Health::Degraded
    } else {
        h
    }
}

/// What the diagnostics know after a check at run time, in which the memory, the
/// file system and the scheduler came out as given.
pub open spec fn rechecked(d: Diag, memory: bool, files: bool, sched: bool) -> Diag {
    Diag {
        health: d.health.update(0, health_checked(d.health[0], memory)).update(
            1,
            health_checked(d.health[1], files),
        ).update(4, health_checked(d.health[4], sched)),
        ..d
    }
}

/// How many of three checks failed.
pub open spec fn failed_checks(memory: bool, files: bool, sched: bool) -> nat {
    (if memory {
        0nat
    } else {
        1
    }) + (if files {
        0nat
    } else {
        1
    }) + (if sched {
        0nat
    } else {
        1
    })
}

/// Sets the state of a subsystem after a check. Returns how many problems there
/// are with it: 0 or 1.
fn note_check(d: &mut Diagnostics, sub: Subsystem, ok: bool) -> (r: usize)
    ensures
        final(d)@ == (Diag {
            health: old(d)@.health.update(
                sub.place(),
                health_checked(old(d)@.health[sub.place()], ok),
            ),
            ..old(d)@
        }),
        final(d).log == old(d).log,
        r == (if ok {
            0int
        } else {
            1
        }),
{
    let i: usize = sub.index();
    if !ok && d.health[i] == Health::Healthy {
        d.health[i] = Health::Degraded;
    } else {
        assert(d@.health =~= old(d)@.health.update(i as int, old(d)@.health[i as int]));
    }
    if ok {
        0
    } else {
        1
    }
}

/// Checks the memory, the file system and the scheduler of the running kernel.
/// One that was healthy and fails is degraded from then on. Returns how many of
/// them fail.
pub fn runtime_health_check(d: &mut Diagnostics, k: &mut Kernel) -> (r: usize)
    requires
        old(k).frames.wf(),
    ensures
        *final(k) == (Kernel { frames: final(k).frames, ..*old(k) }),
        final(k).frames.wf(),
        final(k).frames@ == old(k).frames@,
        final(d).log == old(d).log,
        ({
            let memory = old(k).frames@.lowest_free() is Some;
            let files = old(k).vfs@.dentries[0].active;
            let sched = search::count(
                scheduler::MAX_THREADS as nat,
                |i: int| scheduler::alive(old(k).tasks@.threads[i]),
            ) >= 1;
            &&& final(d)@ == rechecked(old(d)@, memory, files, sched)
            &&& r == failed_checks(memory, files, sched)
        }),
{
    let memory: bool = quick_check_memory(k);
    let a: usize = note_check(d, Subsystem::Memory, memory);
    let files: bool = quick_check_vfs(k);
    let b: usize = note_check(d, Subsystem::Vfs, files);
    let sched: bool = quick_check_scheduler(k);
    let c: usize = note_check(d, Subsystem::Scheduler, sched);
    a + b + c
}

/// Restoring a subsystem at run time is tried: it fails its check, and restoring
/// it was not tried too often.
pub open spec fn to_restore(sub: Subsystem, d: Diag, w: World) -> bool {
    !works(sub, w) && d.attempts[sub.place()] < MAX_RECOVERY_ATTEMPTS
}

/// What the diagnostics know after restoring a subsystem was tried, and the
/// subsystem works again or does not.
pub open spec fn restoring_noted(d: Diag, sub: Subsystem, ok: bool) -> Diag {
    let s = sub.place();
    Diag {
        health: if ok {
            d.health.update(s, Health::Recovered)
        } else {
            d.health
        },
        attempts: d.attempts.update(s, (d.attempts[s] + 1) as u8),
        ..d
    }
}

/// What a subsystem leaves of the diagnostics once it was restored where that was
/// to be tried. `w` is the kernel before, `w2` after.
pub open spec fn watched_over(d: Diag, sub: Subsystem, w: World, w2: World) -> Diag {
    if to_restore(sub, d, w) {
        restoring_noted(d, sub, works(sub, w2))
    } else {
        d
    }
}

/// What a round of the watch over the subsystems leaves behind: those that fail
/// are noted, and restored as far as that is to be tried. The others stay as
/// they are.
pub open spec fn watched(d: Diag, w: World, kernel_end: int, d2: Diag, w2: World) -> bool {
    let noted = rechecked(
        d,
        works(Subsystem::Memory, w),
        works(Subsystem::Vfs, w),
        works(Subsystem::Scheduler, w),
    );
    &&& w2 == (World { mem: w2.mem, vfs: w2.vfs, tasks: w2.tasks, ..w })
    &&& w2.mem.bytes == w.mem.bytes
    &&& if to_restore(Subsystem::Memory, noted, w) {
        frames_reset(w2.mem.frames, kernel_end)
    } else {
        w2.mem.frames == w.mem.frames
    }
    &&& if to_restore(Subsystem::Vfs, noted, w) {
        vfs::ramfs::is_fresh(w2.vfs)
    } else {
        w2.vfs == w.vfs
    }
    &&& if to_restore(Subsystem::Scheduler, noted, w) {
        scheduler::is_started(w.tasks, w2.tasks)
    } else {
        w2.tasks == w.tasks
    }
    &&& d2 == watched_over(
        watched_over(
            watched_over(noted, Subsystem::Memory, w, w2),
            Subsystem::Vfs,
            w,
            w2,
        ),
        Subsystem::Scheduler,
        w,
        w2,
    )
}

/// Whether a subsystem that is checked at run time works. See `works`.
fn quick_check(sub: Subsystem, k: &mut Kernel, bytes: &[u8]) -> (ok: bool)
    requires
        old(k).wf(bytes@),
    ensures
        final(k).wf(bytes@),
        final(k).world(bytes@) == old(k).world(bytes@),
        ok == works(sub, old(k).world(bytes@)),
{
    match sub {
        Subsystem::Memory => quick_check_memory(k),
        Subsystem::Vfs => quick_check_vfs(k),
        Subsystem::Scheduler => quick_check_scheduler(k),
        _ => true,
    }
}

/// Restores a subsystem if it fails its check, unless that was tried too often.
fn watch_over(
    d: &mut Diagnostics,
    sub: Subsystem,
    k: &mut Kernel,
    bytes: &[u8],
    kernel_end: usize,
)
    requires
        old(k).wf(bytes@),
        bytes@.len() >= ASSUMED_MEMORY,
        kernel_end <= phys::MAX_FRAMES * 4096,
    ensures
        final(k).wf(bytes@),
        final(d).log == old(d).log,
        final(d)@ == watched_over(
            old(d)@,
            sub,
            old(k).world(bytes@),
            final(k).world(bytes@),
        ),
        if to_restore(sub, old(d)@, old(k).world(bytes@)) {
            exists|ok: bool| #[trigger]
                restored(
                    sub,
                    kernel_end as int,
                    old(k).world(bytes@),
                    final(k).world(bytes@),
                    ok,
                )
        } else {
            final(k).world(bytes@) == old(k).world(bytes@)
        },
{
    let s: usize = sub.index();
    if !quick_check(sub, k, bytes) && d.attempts[s] < MAX_RECOVERY_ATTEMPTS {
        let _helped: bool = recover(sub, k, bytes, kernel_end);
        d.attempts[s] = d.attempts[s] + 1;
        if quick_check(sub, k, bytes) {
            d.health[s] = Health::Recovered;
        }
        assert(restored(
            sub,
            kernel_end as int,
            old(k).world(bytes@),
            k.world(bytes@),
            _helped,
        ));
    }
}

/// Checks the subsystems of the running kernel, and restores those that fail.
/// Returns how many failed. See `watched`.
pub fn watch(d: &mut Diagnostics, k: &mut Kernel, bytes: &[u8], kernel_end: usize) -> (r: usize)
    requires
        old(k).wf(bytes@),
        bytes@.len() >= ASSUMED_MEMORY,
        kernel_end <= phys::MAX_FRAMES * 4096,
    ensures
        final(k).wf(bytes@),
        final(d).log == old(d).log,
        watched(
            old(d)@,
            old(k).world(bytes@),
            kernel_end as int,
            final(d)@,
            final(k).world(bytes@),
        ),
        r == failed_checks(
            works(Subsystem::Memory, old(k).world(bytes@)),
            works(Subsystem::Vfs, old(k).world(bytes@)),
            works(Subsystem::Scheduler, old(k).world(bytes@)),
        ),
{
    let problems: usize = runtime_health_check(d, k);
    watch_over(d, Subsystem::Memory, k, bytes, kernel_end);
    watch_over(d, Subsystem::Vfs, k, bytes, kernel_end);
    watch_over(d, Subsystem::Scheduler, k, bytes, kernel_end);
    problems
}

} // verus!
