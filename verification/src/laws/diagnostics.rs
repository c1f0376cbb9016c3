//! The start of the kernel and its diagnostics: what is there after the start, and what
//! the tests say of each subsystem.

use vstd::prelude::*;
use vstd::string::*;
use crate::boot;
use crate::boot::BootThreads;
use crate::kernel::{Kernel, World};
use crate::ktest;
use crate::ktest::run;
use crate::ktest::run::Step;
use crate::ktest::sound;
use crate::ktest::{
    BootEvent, BootEventType, BootMode, Diag, DiagTest, Diagnostics, Health, Severity, Subsystem,
    TestResults, Verdict,
};
use crate::kthread;
use crate::memory::paging::Mem;
use crate::memory::phys;
use crate::memory::phys::Frames;
use crate::scheduler;
use crate::scheduler::{Scheduler, Tasks};
use crate::search;
use crate::task::{Priority, TaskIds, TaskState, Tid};
use crate::vfs;
use crate::vfs::{InodeType, Tables, Vfs};
use super::files;
use super::memory::{clear_frames, lemma_clear, lemma_popped};
use super::threads;

verus! {

/// The subsystem that test `i` is about, by its number.
pub open spec fn subject(i: int) -> int {
    if i < 4 {
        0
    } else if i < 9 {
        1
    } else if i < 12 {
        2
    } else if i < 14 {
        3
    } else if i < 16 {
        4
    } else {
        5
    }
}

/// The kernel needs test `i` to pass.
pub open spec fn is_critical(i: int) -> bool {
    i == 0 || i == 1 || i == 4 || i == 14
}

/// Test `i` may fail without anything being done about it.
pub open spec fn is_optional(i: int) -> bool {
    i == 3 || i == 6 || i == 11 || i == 13 || i == 17 || i == 18
}

/// There is a way to restore what test `i` is about.
pub open spec fn can_restore(i: int) -> bool {
    i == 0 || i == 1 || i == 4 || i == 5 || i == 14
}

/// A subsystem by its number.
pub open spec fn numbered(s: Subsystem, n: int) -> bool {
    match s {
        Subsystem::Memory => n == 0,
        Subsystem::Vfs => n == 1,
        Subsystem::Ipc => n == 2,
        Subsystem::Drivers => n == 3,
        Subsystem::Scheduler => n == 4,
        Subsystem::Syscall => n == 5,
    }
}

proof fn lemma_test(i: int)
    requires
        0 <= i < 19,
    ensures
        numbered(ktest::test_of(i).subsystem, subject(i)),
        ktest::test_of(i).subsystem.place() == subject(i),
        ktest::test_of(i).severity == Severity::Critical <==> is_critical(i),
        ktest::test_of(i).severity == Severity::Optional <==> is_optional(i),
        ktest::test_of(i).recovery <==> can_restore(i),
{
}

/// Every test is about its subsystem, and as important as that.
pub proof fn law_tests_are_about_their_subsystems(i: usize, r: DiagTest)
    requires
        i < 19,
        call_ensures(ktest::diag_test, (i,), r),
    ensures
        numbered(r.subsystem, subject(i as int)),
        r.severity == Severity::Critical <==> is_critical(i as int),
        r.severity == Severity::Optional <==> is_optional(i as int),
        r.recovery <==> can_restore(i as int),
{
    lemma_test(i as int);
}

/// A log of at most 64 events gets one more behind the others; the oldest one goes if it
/// is full.
pub open spec fn event_added(a: Seq<BootEvent>, b: Seq<BootEvent>, e: BootEvent) -> bool {
    &&& b.len() > 0
    &&& b[b.len() - 1] == e
    &&& a.len() < 64 ==> b.len() == a.len() + 1 && forall|i: int|
        0 <= i < a.len() ==> #[trigger] b[i] == a[i]
    &&& a.len() >= 64 ==> b.len() == a.len() && forall|i: int|
        0 <= i < a.len() - 1 ==> #[trigger] b[i] == a[i + 1]
}

proof fn lemma_logged(a: Seq<BootEvent>, e: BootEvent)
    ensures
        event_added(a, ktest::logged(a, e), e),
{
}

/// What came of the next test is kept, and an event about it is logged: that it passed or
/// failed, and if restoring was tried, that too, and whether it helped. The times that
/// restoring was tried are counted by subsystem.
pub proof fn law_outcome_of_a_test_is_noted(
    d: &mut Diagnostics,
    vs: &mut Vec<Verdict>,
    v: Verdict,
)
    requires
        old(d).log.wf(),
        old(vs)@.len() < 19,
        v == Verdict::Recovered || v == Verdict::Unrecovered ==> old(d)@.attempts[subject(
            old(vs)@.len() as int,
        )] < 3,
        call_ensures(ktest::record, (d, vs, v), ()),
    ensures
        ({
            let i = old(vs)@.len() as int;
            let s = subject(i);
            let tried = v == Verdict::Recovered || v == Verdict::Unrecovered;
            let told = |k: BootEventType|
                BootEvent { subsystem: s as u8, event_type: k, test_index: i as u8 };
            &&& final(vs)@ == old(vs)@.push(v)
            &&& final(d)@.health == old(d)@.health
            &&& final(d)@.mode == old(d)@.mode
            &&& !tried ==> final(d)@.attempts == old(d)@.attempts && event_added(
                old(d)@.log,
                final(d)@.log,
                told(
                    if v == Verdict::Passed {
                        BootEventType::TestPass
                    } else {
                        BootEventType::TestFail
                    },
                ),
            )
            &&& tried ==> {
                &&& final(d)@.attempts[s] == old(d)@.attempts[s] + 1
                &&& forall|j: int|
                    0 <= j < 6 && j != s ==> #[trigger] final(d)@.attempts[j] == old(d)@.attempts[j]
                &&& exists|a: Seq<BootEvent>, b: Seq<BootEvent>|
                    {
                        &&& #[trigger] event_added(
                            old(d)@.log,
                            a,
                            told(BootEventType::TestFail),
                        )
                        &&& #[trigger] event_added(a, b, told(BootEventType::RecoveryAttempt))
                        &&& event_added(
                            b,
                            final(d)@.log,
                            told(
                                if v == Verdict::Recovered {
                                    BootEventType::RecoverySuccess
                                } else {
                                    BootEventType::RecoveryFailed
                                },
                            ),
                        )
                    }
            }
        }),
{
    let i = old(vs)@.len() as int;
    lemma_test(i);
    let s = subject(i);
    assert(final(d)@ == ktest::noted(old(d)@, i, v));
    assert(old(d)@.attempts.len() == 6);
    let told = |k: BootEventType|
        BootEvent { subsystem: s as u8, event_type: k, test_index: i as u8 };
    if v == Verdict::Passed || v == Verdict::Failed {
        lemma_logged(
            old(d)@.log,
            told(
                if v == Verdict::Passed {
                    BootEventType::TestPass
                } else {
                    BootEventType::TestFail
                },
            ),
        );
    } else {
        let a = ktest::logged(old(d)@.log, told(BootEventType::TestFail));
        let b = ktest::logged(a, told(BootEventType::RecoveryAttempt));
        lemma_logged(old(d)@.log, told(BootEventType::TestFail));
        lemma_logged(a, told(BootEventType::RecoveryAttempt));
        let last = told(
            if v == Verdict::Recovered {
                BootEventType::RecoverySuccess
            } else {
                BootEventType::RecoveryFailed
            },
        );
        lemma_logged(b, last);
        assert(event_added(old(d)@.log, a, told(BootEventType::TestFail)));
        assert(event_added(a, b, told(BootEventType::RecoveryAttempt)));
    }
}

/// Test `i` did not pass in the end.
pub open spec fn bad(vs: Seq<Verdict>, i: int) -> bool {
    vs[i] == Verdict::Failed || vs[i] == Verdict::Unrecovered
}

/// A test about a subsystem did not pass in the end.
pub open spec fn trouble(vs: Seq<Verdict>, s: int) -> bool {
    exists|i: int| 0 <= i < 19 && subject(i) == s && #[trigger] bad(vs, i)
}

/// A test about a subsystem that the kernel needs did not pass in the end.
pub open spec fn ruin(vs: Seq<Verdict>, s: int) -> bool {
    exists|i: int| 0 <= i < 19 && subject(i) == s && is_critical(i) && #[trigger] bad(vs, i)
}

/// How a subsystem is after all tests: it has failed if one that the kernel needs did not
/// pass, it is degraded if another one did not, recovered if all passed and restoring was
/// tried, and healthy otherwise.
pub open spec fn fares(vs: Seq<Verdict>, attempts: u8, s: int, h: Health) -> bool {
    &&& ruin(vs, s) ==> h == Health::Failed
    &&& !ruin(vs, s) && trouble(vs, s) ==> h == Health::Degraded
    &&& !trouble(vs, s) && attempts > 0 ==> h == Health::Recovered
    &&& !trouble(vs, s) && attempts == 0 ==> h == Health::Healthy
}

/// How many of the first `n` tests came out in a way.
pub open spec fn outcomes(vs: Seq<Verdict>, n: nat, v: Verdict) -> nat
    decreases n,
{
    if n == 0 {
        0
    } else {
        outcomes(vs, (n - 1) as nat, v) + if vs[n - 1] == v {
            1nat
        } else {
            0
        }
    }
}

/// 1 for a subsystem that is degraded or has failed, 0 for another.
pub open spec fn harmed(h: Health) -> int {
    if h == Health::Degraded || h == Health::Failed {
        1
    } else {
        0
    }
}

/// How many subsystems are degraded or have failed.
pub open spec fn harm(h: Seq<Health>) -> int {
    harmed(h[0]) + harmed(h[1]) + harmed(h[2]) + harmed(h[3]) + harmed(h[4]) + harmed(h[5])
}

proof fn lemma_harm(h: Seq<Health>)
    ensures
        ktest::impaired_count(h) == harm(h),
{
    reveal_with_fuel(search::count, 7);
}

proof fn lemma_outcomes(vs: Seq<Verdict>, n: nat)
    requires
        n <= vs.len(),
    ensures
        search::count(n, |i: int| !ktest::fails(vs[i])) == outcomes(vs, n, Verdict::Passed)
            + outcomes(vs, n, Verdict::Recovered),
        search::count(n, |i: int| ktest::fails(vs[i])) == outcomes(vs, n, Verdict::Failed)
            + outcomes(vs, n, Verdict::Unrecovered),
        search::count(n, |i: int| vs[i] == Verdict::Recovered) == outcomes(
            vs,
            n,
            Verdict::Recovered,
        ),
        search::count(n, |i: int| !ktest::fails(vs[i])) <= n,
        search::count(n, |i: int| ktest::fails(vs[i])) <= n,
    decreases n,
{
    if n > 0 {
        lemma_outcomes(vs, (n - 1) as nat);
    }
}

proof fn lemma_fares(vs: Seq<Verdict>, attempts: Seq<u8>, s: int)
    requires
        vs.len() == 19,
        0 <= s < 6,
    ensures
        fares(vs, attempts[s], s, ktest::health_after(vs, attempts, s)),
        ktest::has_critical_failure(vs, s) <==> ruin(vs, s),
{
    assert forall|i: int| 0 <= i < 19 implies #[trigger] ktest::test_of(i).subsystem.place()
        == subject(i) && (ktest::test_of(i).severity == Severity::Critical <==> is_critical(i)) by {
        lemma_test(i);
    }
    if ruin(vs, s) {
        let i = choose|i: int|
            0 <= i < 19 && subject(i) == s && is_critical(i) && #[trigger] bad(vs, i);
        assert(ktest::test_of(i).subsystem.place() == s);
        assert(bad(vs, i));
        assert(trouble(vs, s));
    }
    if trouble(vs, s) {
        let i = choose|i: int| 0 <= i < 19 && subject(i) == s && #[trigger] bad(vs, i);
        assert(ktest::test_of(i).subsystem.place() == s);
    }
    if ktest::has_critical_failure(vs, s) {
        let i = choose|i: int|
            0 <= i < vs.len() && (#[trigger] ktest::test_of(i)).subsystem.place() == s
                && ktest::test_of(i).severity == Severity::Critical && ktest::fails(vs[i]);
        lemma_test(i);
        assert(bad(vs, i));
    }
    if ktest::has_failure(vs, s) {
        let i = choose|i: int|
            0 <= i < vs.len() && (#[trigger] ktest::test_of(i)).subsystem.place() == s
                && ktest::fails(vs[i]);
        lemma_test(i);
        assert(bad(vs, i));
    }
    let first: int = if s == 0 {
        0
    } else if s == 1 {
        4
    } else if s == 2 {
        9
    } else if s == 3 {
        12
    } else if s == 4 {
        14
    } else {
        16
    };
    assert(subject(first) == s);
    assert(ktest::test_of(first).subsystem.place() == s);
    assert(ktest::has_test(19, s));
}

/// What is known and reported once all tests came out: each subsystem fares as its tests
/// say; there is no report if a test that the memory needs did not pass. The kernel boots
/// with the least if the scheduler or the file system has failed, and safely if two or more
/// subsystems are harmed and it was to boot normally. The report counts the tests.
pub open spec fn summed_up(
    d: Diag,
    vs: Seq<Verdict>,
    d2: Diag,
    r: Option<TestResults>,
) -> bool {
    &&& d2.attempts == d.attempts
    &&& d2.health.len() == 6
    &&& forall|s: int| 0 <= s < 6 ==> fares(vs, d.attempts[s], s, #[trigger] d2.health[s])
    &&& r is None <==> bad(vs, 0) || bad(vs, 1)
    &&& r matches Some(t) ==> {
        let least = bad(vs, 14) || bad(vs, 4);
        &&& t.boot_mode == d2.mode
        &&& least ==> d2.mode == BootMode::Minimal
        &&& !least && harm(d2.health) >= 2 && d.mode == BootMode::Normal ==> d2.mode
            == BootMode::Safe
        &&& !least && !(harm(d2.health) >= 2 && d.mode == BootMode::Normal) ==> d2.mode == d.mode
        &&& t.total == 19
        &&& t.passed == outcomes(vs, 19, Verdict::Passed) + outcomes(vs, 19, Verdict::Recovered)
        &&& t.failed == outcomes(vs, 19, Verdict::Failed) + outcomes(vs, 19, Verdict::Unrecovered)
        &&& t.recovered == outcomes(vs, 19, Verdict::Recovered)
    }
}

proof fn lemma_summed_up(d: Diag, vs: Seq<Verdict>)
    requires
        vs.len() == 19,
    ensures
        summed_up(d, vs, ktest::closing(d, vs).0, ktest::closing(d, vs).1),
{
    let (d2, r) = ktest::closing(d, vs);
    assert forall|s: int| 0 <= s < 6 implies fares(
        vs,
        d.attempts[s],
        s,
        #[trigger] d2.health[s],
    ) by {
        lemma_fares(vs, d.attempts, s);
    }
    lemma_fares(vs, d.attempts, 0);
    lemma_fares(vs, d.attempts, 1);
    lemma_fares(vs, d.attempts, 4);
    lemma_ruin(vs);
    lemma_outcomes(vs, 19);
    lemma_harm(d2.health);
}

proof fn lemma_ruin(vs: Seq<Verdict>)
    ensures
        ruin(vs, 0) <==> bad(vs, 0) || bad(vs, 1),
        ruin(vs, 1) <==> bad(vs, 4),
        ruin(vs, 4) <==> bad(vs, 14),
{
    if bad(vs, 0) {
        assert(subject(0) == 0 && is_critical(0));
    }
    if bad(vs, 1) {
        assert(subject(1) == 0 && is_critical(1));
    }
    if bad(vs, 4) {
        assert(subject(4) == 1 && is_critical(4));
    }
    if bad(vs, 14) {
        assert(subject(14) == 4 && is_critical(14));
    }
}

/// A run of the tests is summed up. See `summed_up`.
pub proof fn law_tests_decide_the_boot(
    d: &mut Diagnostics,
    vs: &Vec<Verdict>,
    r: Option<TestResults>,
)
    requires
        vs@.len() == 19,
        call_ensures(ktest::conclude, (d, vs), r),
    ensures
        summed_up(old(d)@, vs@, final(d)@, r),
{
    assert((final(d)@, r) == ktest::closing(old(d)@, vs@));
    lemma_summed_up(old(d)@, vs@);
}

proof fn lemma_noted_len(d: Diag, vs: Seq<Verdict>)
    ensures
        ktest::all_noted(d, vs).mode == d.mode,
    decreases vs.len(),
{
    if vs.len() > 0 {
        lemma_noted_len(d, vs.drop_last());
    }
}

/// A run of the diagnostics is summed up from what came of its 19 tests, see `summed_up`,
/// and a kernel fresh from its start passes all of them: every subsystem is healthy and the
/// kernel boots normally.
pub proof fn law_fresh_kernel_passes_its_tests(
    d: &mut Diagnostics,
    k: &mut Kernel,
    bytes: &mut [u8],
    kernel_end: usize,
    r: Option<TestResults>,
)
    requires
        call_ensures(run::run_all, (d, k, bytes, kernel_end), r),
    ensures
        exists|e: Diag, vs: Seq<Verdict>|
            vs.len() == 19 && e.mode == old(d)@.mode && #[trigger] summed_up(
                e,
                vs,
                final(d)@,
                r,
            ),
        sound::is_booted(old(k).world(old(bytes)@)) && old(d)@.mode == BootMode::Normal && (forall|
            s: int,
        |
            0 <= s < 6 ==> #[trigger] old(d)@.attempts[s] == 0) ==> (r matches Some(t) && t.passed
            == 19 && t.failed == 0 && t.recovered == 0 && t.boot_mode == BootMode::Normal)
            && forall|s: int| 0 <= s < 6 ==> #[trigger] final(d)@.health[s] == Health::Healthy,
{
    let w = old(k).world(old(bytes)@);
    let w2 = final(k).world(final(bytes)@);
    let steps = choose|steps: Seq<Step>|
        steps.len() == 19 && #[trigger] run::is_run(steps, kernel_end as int, old(d)@, w, w2) && (
        final(d)@,
        r,
    ) == ktest::concluded(old(d)@, run::verdicts(steps));
    let vs = run::verdicts(steps);
    let e = ktest::all_noted(old(d)@, vs);
    lemma_noted_len(old(d)@, vs);
    lemma_summed_up(e, vs);
    assert(summed_up(e, vs, final(d)@, r));
    assert(old(d)@.attempts.len() == 6 && old(d)@.health.len() == 6);
    if sound::is_booted(w) && old(d)@.mode == BootMode::Normal && (forall|s: int|
        0 <= s < 6 ==> #[trigger] old(d)@.attempts[s] == 0) {
        assert(old(d)@.attempts =~= Seq::new(6, |i: int| 0u8));
        sound::law_booted_kernel_passes_every_test(steps, kernel_end as int, old(d)@, w, w2);
    }
}

/// What a test finds of the kernel, where that can be seen at once: the memory works if a
/// frame is free, or four for the test that takes four; the file system has a root, a
/// directory "/dev" and no "/nonexistent"; there is a process and a thread; a lock and a
/// counter work.
pub open spec fn passes(i: int, w: World, dev: Option<usize>, no: Option<usize>) -> bool {
    if i == 0 || i == 1 || i == 3 {
        clear_frames(w.mem.frames.used, w.mem.frames.total) >= 1
    } else if i == 2 {
        clear_frames(w.mem.frames.used, w.mem.frames.total) >= 4
    } else if i == 4 {
        w.vfs.dentries[0].active
    } else if i == 5 {
        dev is Some
    } else if i == 6 {
        no is None
    } else if i == 14 {
        in_table(w.tasks, 16) >= 1
    } else if i == 15 {
        living(w.tasks, 64) >= 1
    } else {
        true
    }
}

/// Test `i` finds what can be seen at once, see `passes`, and then leaves the kernel as it
/// was.
pub proof fn law_tests_find_what_is_there(
    i: usize,
    k: &mut Kernel,
    bytes: &mut [u8],
    before: &Vfs,
    dev_path: &[u8],
    no_path: &[u8],
    dev: Option<usize>,
    no: Option<usize>,
    ok: bool,
)
    requires
        i < 7 || i == 14 || i == 15 || i == 17 || i == 18,
        old(k).wf(old(bytes)@),
        *before == old(k).vfs,
        dev_path@ == seq![0x2Fu8, 0x64, 0x65, 0x76],
        no_path@ == seq![
            0x2Fu8, 0x6E, 0x6F, 0x6E, 0x65, 0x78, 0x69, 0x73, 0x74, 0x65, 0x6E, 0x74,
        ],
        call_ensures(vfs::path_lookup, (before, dev_path), dev),
        call_ensures(vfs::path_lookup, (before, no_path), no),
        call_ensures(run::run_check, (i, k, bytes), ok),
    ensures
        ok <==> passes(i as int, old(k).world(old(bytes)@), dev, no),
        ok ==> final(k).world(final(bytes)@) == old(k).world(old(bytes)@),
{
    let w = old(k).world(old(bytes)@);
    let w2 = final(k).world(final(bytes)@);
    assert(run::checked(i as int, w, w2, ok));
    phys::law_alloc_succeeds_while_frames_are_free(w.mem.frames);
    lemma_clear(w.mem.frames, w.mem.frames.total);
    lemma_popped(w.mem.frames, 4);
    lemma_living(w.tasks, 64);
    lemma_living(w.tasks, 16);
    assert(crate::ktest::checks::DEV_PATH@ =~= dev_path@);
    assert(crate::ktest::checks::NO_PATH@ =~= no_path@);
}

/// What comes of a test that fails: restoring is tried exactly if the test is not optional,
/// there is a way, and it was tried fewer than three times for the subsystem before; the
/// verdict is then whether the test passes afterwards. The memory, the file system or the
/// scheduler is as new then.
#[verifier::opaque]
pub open spec fn goes_as_it_should(i: int, kernel_end: int, tries: u8, s: Step) -> bool {
    let ok = s.verdict == Verdict::Passed;
    let tried = s.verdict == Verdict::Recovered || s.verdict == Verdict::Unrecovered;
    &&& run::checked(i, s.start, s.tested, ok)
    &&& tried <==> !ok && !is_optional(i) && can_restore(i) && tries < 3
    &&& !tried ==> s.end == s.tested
    &&& s.verdict == Verdict::Recovered ==> run::checked(i, s.repaired, s.end, true)
    &&& s.verdict == Verdict::Unrecovered ==> s.end == s.repaired || run::checked(
        i,
        s.repaired,
        s.end,
        false,
    )
    &&& tried && subject(i) == 0 ==> frames_as_new(s.repaired.mem.frames, kernel_end)
    &&& tried && subject(i) == 1 ==> files_as_new(s.repaired.vfs)
    &&& tried && subject(i) == 4 && s.tested.tasks.threads.len() == 64
        && s.tested.tasks.processes.len() == 16 ==> idle_runs(s.tested.tasks, s.repaired.tasks)
}

proof fn lemma_step(i: int, kernel_end: int, tries: u8, s: Step)
    requires
        0 <= i < 19,
        run::is_step(i, kernel_end, tries, s),
    ensures
        goes_as_it_should(i, kernel_end, tries, s),
{
    reveal(run::is_step);
    reveal(goes_as_it_should);
    lemma_test(i);
    if run::frames_reset(s.repaired.mem.frames, kernel_end) {
        lemma_as_new(s.repaired.mem.frames, kernel_end);
    }
    if vfs::ramfs::is_fresh(s.repaired.vfs) {
        lemma_files_as_new(s.repaired.vfs);
    }
}

/// What came of each step.
pub open spec fn outcomes_of(steps: Seq<Step>) -> Seq<Verdict> {
    Seq::new(steps.len(), |i: int| steps[i].verdict)
}

/// The steps are those of the 19 tests in their order, from the kernel as `w` to the kernel
/// as `w2`, each on what the one before has left. `tries` says how often restoring the
/// subsystem was tried before each.
pub open spec fn tests_in_order(
    steps: Seq<Step>,
    tries: Seq<u8>,
    kernel_end: int,
    w: World,
    w2: World,
) -> bool {
    &&& steps.len() == 19
    &&& tries.len() == 19
    &&& steps[0].start == w
    &&& steps[18].end == w2
    &&& forall|i: int| 0 < i < 19 ==> (#[trigger] steps[i]).start == steps[i - 1].end
    &&& forall|i: int|
        0 <= i < 19 ==> goes_as_it_should(i, kernel_end, tries[i], #[trigger] steps[i])
}

/// A run is 19 tests in their order, each on the kernel as the one before has left it, and
/// each goes as it should, see `goes_as_it_should`. What came of them is summed up, see
/// `summed_up`.
pub proof fn law_run_tests_the_kernel_in_order(
    d: &mut Diagnostics,
    k: &mut Kernel,
    bytes: &mut [u8],
    kernel_end: usize,
    r: Option<TestResults>,
)
    requires
        call_ensures(run::run_all, (d, k, bytes, kernel_end), r),
    ensures
        exists|e: Diag, steps: Seq<Step>, tries: Seq<u8>| #[trigger]
            tests_in_order(
                steps,
                tries,
                kernel_end as int,
                old(k).world(old(bytes)@),
                final(k).world(final(bytes)@),
            ) && e.mode == old(d)@.mode && #[trigger] summed_up(
                e,
                outcomes_of(steps),
                final(d)@,
                r,
            ),
{
    let w = old(k).world(old(bytes)@);
    let w2 = final(k).world(final(bytes)@);
    let steps = choose|steps: Seq<Step>|
        steps.len() == 19 && #[trigger] run::is_run(steps, kernel_end as int, old(d)@, w, w2) && (
        final(d)@,
        r,
    ) == ktest::concluded(old(d)@, run::verdicts(steps));
    let vs = outcomes_of(steps);
    assert(vs =~= run::verdicts(steps));
    let e = ktest::all_noted(old(d)@, vs);
    let tries = Seq::new(19, |i: int| run::attempts_before(old(d)@, steps, i));
    lemma_noted_len(old(d)@, vs);
    lemma_summed_up(e, vs);
    assert forall|i: int| 0 < i < 19 implies (#[trigger] steps[i]).start == steps[i - 1].end by {
        assert(run::follows(steps, w, i));
    }
    assert(run::follows(steps, w, 0));
    assert forall|i: int| 0 <= i < 19 implies goes_as_it_should(
        i,
        kernel_end as int,
        tries[i],
        #[trigger] steps[i],
    ) by {
        lemma_step(i, kernel_end as int, tries[i], steps[i]);
    }
    assert(tests_in_order(steps, tries, kernel_end as int, w, w2));
    assert(summed_up(e, outcomes_of(steps), final(d)@, r));
}

/// What is told of the diagnostics.
pub proof fn law_health_is_told(
    d: &Diagnostics,
    sub: Subsystem,
    n: int,
    h: Health,
    m: BootMode,
    ok: bool,
    count: usize,
    events: usize,
    fresh: Diagnostics,
)
    requires
        numbered(sub, n),
        call_ensures(ktest::health, (d, sub), h),
        call_ensures(ktest::boot_mode, (d,), m),
        call_ensures(ktest::is_subsystem_ok, (d, sub), ok),
        call_ensures(ktest::degraded_count, (d,), count),
        call_ensures(ktest::boot_log_count, (d,), events),
        call_ensures(Diagnostics::new, (), fresh),
    ensures
        fresh@.mode == BootMode::Normal,
        fresh@.log.len() == 0,
        h == d.health@[n],
        m == d.boot_mode,
        ok <==> h == Health::Healthy || h == Health::Recovered,
        count == harm(d.health@),
        events == d@.log.len(),
{
    lemma_harm(d@.health);
}

/// The first `n` threads that have not ended.
pub open spec fn living(v: Tasks, n: nat) -> nat
    decreases n,
{
    if n == 0 {
        0
    } else {
        living(v, (n - 1) as nat) + if threads::lives(v, n - 1) {
            1nat
        } else {
            0
        }
    }
}

/// The first `n` places of processes that are in use.
pub open spec fn in_table(v: Tasks, n: nat) -> nat
    decreases n,
{
    if n == 0 {
        0
    } else {
        in_table(v, (n - 1) as nat) + if v.processes[n - 1] is Some {
            1nat
        } else {
            0
        }
    }
}

pub proof fn lemma_living(v: Tasks, n: nat)
    ensures
        search::count(n, |i: int| scheduler::alive(v.threads[i])) == living(v, n),
        search::count(n, |i: int| v.processes[i] is Some) == in_table(v, n),
    decreases n,
{
    if n > 0 {
        lemma_living(v, (n - 1) as nat);
    }
}

/// Threads that have not ended are counted, and processes, and the ticks are told.
pub proof fn law_threads_and_processes_are_counted(
    s: &Scheduler,
    t: usize,
    p: usize,
    ticks: u64,
)
    requires
        call_ensures(scheduler::thread_count, (s,), t),
        call_ensures(scheduler::process_count, (s,), p),
        call_ensures(scheduler::ticks, (s,), ticks),
    ensures
        t == living(s@, 64),
        p == in_table(s@, 16),
        ticks == s.tick_count,
{
    lemma_living(s@, 64);
    lemma_living(s@, 16);
}

/// Every frame is as after a start with 64 MiB for a kernel from 1 MiB on.
pub open spec fn frames_as_new(f: Frames, kernel_end: int) -> bool {
    &&& f.total == 16_384
    &&& forall|n: int|
        0 <= n < 131_072 ==> (#[trigger] f.used[n] <==> n < 256 || 256 <= n && n * 4096
            < kernel_end)
}

proof fn lemma_as_new(f: Frames, kernel_end: int)
    requires
        run::frames_reset(f, kernel_end),
    ensures
        frames_as_new(f, kernel_end),
{
    assert forall|n: int| 0 <= n < 131_072 implies (#[trigger] f.used[n] <==> n < 256 || 256 <= n
        && n * 4096 < kernel_end) by {
        assert(f.used[n] == phys::taken_at_boot(n, 0x10_0000, kernel_end));
    }
}

/// The name of entry `i` of a new file system.
pub open spec fn first_names(i: int) -> Seq<u8> {
    if i == 0 {
        seq![0x2Fu8]
    } else if i == 1 {
        seq![0x64u8, 0x65, 0x76]
    } else if i == 2 {
        seq![0x73u8, 0x79, 0x73]
    } else if i == 3 {
        seq![0x70u8, 0x72, 0x6F, 0x63]
    } else if i == 4 {
        seq![0x6Du8, 0x6E, 0x74]
    } else if i == 5 {
        seq![0x74u8, 0x6D, 0x70]
    } else {
        seq![0x64u8, 0x72, 0x69, 0x76, 0x65, 0x73]
    }
}

/// A new file system: the root, with the directories dev, sys, proc, mnt, tmp and drives
/// in it, each empty, and nothing else; no file is open.
pub open spec fn files_as_new(t: Tables) -> bool {
    &&& forall|i: int|
        0 <= i < 7 ==> {
            let d = #[trigger] t.dentries[i];
            &&& d.active
            &&& d.inode_idx == i
            &&& d.parent_idx == (if i == 0 {
                -1int
            } else {
                0
            })
            &&& d.name_len == first_names(i).len()
            &&& forall|k: int|
                0 <= k < first_names(i).len() ==> #[trigger] d.name@[k] == first_names(i)[k]
        }
    &&& forall|i: int| 7 <= i < 256 ==> !(#[trigger] t.dentries[i]).active
    &&& forall|i: int|
        0 <= i < 7 ==> {
            let n = #[trigger] t.inodes[i];
            n.active && n.itype == InodeType::Directory && n.ino == i + 1 && n.size == 0
                && files::works_as(n, InodeType::Directory)
        }
    &&& forall|i: int| 7 <= i < 256 ==> !(#[trigger] t.inodes[i]).active
    &&& forall|i: int| 0 <= i < 128 ==> !(#[trigger] t.files[i]).active
    &&& t.next_ino == 8
}

proof fn lemma_files_as_new(t: Tables)
    requires
        vfs::ramfs::is_fresh(t),
    ensures
        files_as_new(t),
{
    assert forall|i: int| 0 <= i < 7 implies {
        let d = #[trigger] t.dentries[i];
        &&& d.active
        &&& d.inode_idx == i
        &&& d.parent_idx == (if i == 0 {
            -1int
        } else {
            0
        })
        &&& d.name_len == first_names(i).len()
        &&& forall|k: int|
            0 <= k < first_names(i).len() ==> #[trigger] d.name@[k] == first_names(i)[k]
    } by {
        let d = t.dentries[i];
        assert(vfs::ramfs::is_entry(
            vfs::Dentry::spec_empty(),
            d,
            vfs::ramfs::base_name(i),
            i as usize,
            if i == 0 {
                -1i32
            } else {
                0
            },
            0,
        ));
        assert(vfs::ramfs::base_name(i) == first_names(i));
        assert(vfs::Dentry::spec_empty().name@.len() == 64);
    }
}

/// The file system starts as new. See `files_as_new`.
pub proof fn law_file_system_starts_with_its_directories(v: &mut Vfs)
    requires
        call_ensures(vfs::init, (v,), ()),
    ensures
        files_as_new(final(v)@),
{
    lemma_files_as_new(final(v)@);
}

/// The kernel starts with its frames and its file system as new, and nothing else changes.
pub proof fn law_kernel_starts_as_new(k: &mut Kernel, kernel_end: usize)
    requires
        kernel_end <= 0x2000_0000,
        call_ensures(boot::start, (k, kernel_end), ()),
    ensures
        frames_as_new(final(k).frames@, kernel_end as int),
        files_as_new(final(k).vfs@),
        *final(k) == (Kernel { frames: final(k).frames, vfs: final(k).vfs, ..*old(k) }),
{
    lemma_as_new(final(k).frames@, kernel_end as int);
    lemma_files_as_new(final(k).vfs@);
}

/// The scheduler is started: the first process is the kernel, the first thread the idle
/// one, which runs, and every other thread and process stays.
pub open spec fn idle_runs(a: Tasks, b: Tasks) -> bool {
    &&& b.active
    &&& b.current == 0
    &&& b.threads[0] matches Some(t) && t.tid == 0 && t.pid == 0 && t.state == TaskState::Running
        && t.priority == Priority::Idle
    &&& b.processes[0] matches Some(p) && p.pid == 0 && p.cr3 == 0
    &&& forall|i: int| 0 < i < 64 ==> #[trigger] b.threads[i] == a.threads[i]
    &&& forall|i: int| 0 < i < 16 ==> #[trigger] b.processes[i] == a.processes[i]
}

/// A check of the running kernel: which of the memory, the file system and the scheduler
/// works.
pub open spec fn sound_part(n: int, w: World) -> bool {
    if n == 0 {
        clear_frames(w.mem.frames.used, w.mem.frames.total) > 0
    } else if n == 1 {
        w.vfs.dentries[0].active
    } else {
        living(w.tasks, 64) > 0
    }
}

proof fn lemma_works(w: World)
    requires
        w.mem.sane(),
    ensures
        run::works(Subsystem::Memory, w) <==> sound_part(0, w),
        run::works(Subsystem::Vfs, w) <==> sound_part(1, w),
        run::works(Subsystem::Scheduler, w) <==> sound_part(4, w),
{
    phys::law_alloc_succeeds_while_frames_are_free(w.mem.frames);
    lemma_clear(w.mem.frames, w.mem.frames.total);
    lemma_living(w.tasks, 64);
}

/// The watch over the running kernel: a part that does not work is restored, unless that
/// was tried three times before, and then counts as recovered if it works again; where it
/// was healthy and is not restored, it is degraded. A part that works stays as it is, and
/// so does everything else. How many parts did not work is told.
pub proof fn law_broken_parts_are_restored(
    d: &mut Diagnostics,
    k: &mut Kernel,
    bytes: &[u8],
    kernel_end: usize,
    r: usize,
)
    requires
        old(k).wf(bytes@),
        call_ensures(kthread::kthread_health_monitor, (d, k, bytes, kernel_end), r),
    ensures
        ({
            let w = old(k).world(bytes@);
            let w2 = final(k).world(bytes@);
            let tried = |n: int| !sound_part(n, w) && old(d)@.attempts[n] < 3;
            &&& w2 == (World { mem: w2.mem, vfs: w2.vfs, tasks: w2.tasks, ..w })
            &&& w2.mem.bytes == w.mem.bytes
            &&& tried(0) ==> frames_as_new(w2.mem.frames, kernel_end as int)
            &&& !tried(0) ==> w2.mem.frames == w.mem.frames
            &&& tried(1) ==> files_as_new(w2.vfs)
            &&& !tried(1) ==> w2.vfs == w.vfs
            &&& tried(4) ==> idle_runs(w.tasks, w2.tasks)
            &&& !tried(4) ==> w2.tasks == w.tasks
            &&& r == (if sound_part(0, w) {
                0int
            } else {
                1
            }) + (if sound_part(1, w) {
                0int
            } else {
                1
            }) + (if sound_part(4, w) {
                0int
            } else {
                1
            })
            &&& forall|n: int|
                n == 0 || n == 1 || n == 4 ==> watched_part(
                    old(d)@,
                    w,
                    w2,
                    #[trigger] final(d)@.health[n],
                    final(d)@.attempts[n],
                    n,
                )
            &&& forall|n: int|
                n == 2 || n == 3 || n == 5 ==> #[trigger] final(d)@.health[n] == old(d)@.health[n] && final(d)@.attempts[n] == old(d)@.attempts[n]
        }),
{
    let w = old(k).world(bytes@);
    let w2 = final(k).world(bytes@);
    lemma_works(w);
    assert(final(k).wf(bytes@));
    lemma_works(w2);
    assert(run::watched(old(d)@, w, kernel_end as int, final(d)@, w2));
    assert(old(d)@.attempts.len() == 6 && old(d)@.health.len() == 6);
    if run::frames_reset(w2.mem.frames, kernel_end as int) {
        lemma_as_new(w2.mem.frames, kernel_end as int);
    }
    if vfs::ramfs::is_fresh(w2.vfs) {
        lemma_files_as_new(w2.vfs);
    }
}

/// How a part fares under the watch, and how often restoring it was tried.
pub open spec fn watched_part(d: Diag, w: World, w2: World, h: Health, tries: u8, n: int) -> bool {
    if sound_part(n, w) {
        h == d.health[n] && tries == d.attempts[n]
    } else if d.attempts[n] < 3 {
        &&& tries == d.attempts[n] + 1
        &&& sound_part(n, w2) ==> h == Health::Recovered
        &&& !sound_part(n, w2) ==> h == (if d.health[n] == Health::Healthy {
            Health::Degraded
        } else {
            d.health[n]
        })
    } else {
        &&& tries == d.attempts[n]
        &&& h == (if d.health[n] == Health::Healthy {
            Health::Degraded
        } else {
            d.health[n]
        })
    }
}

/// The kernel starts three threads, after the scheduler: one of high priority that watches
/// the subsystems, one of low priority that reports, and one of low priority that reaps.
/// See `threads::born`.
pub proof fn law_three_threads_are_started(
    k: &mut Kernel,
    bytes: &mut [u8],
    health: u64,
    stats: u64,
    reaper: u64,
    r: BootThreads,
)
    requires
        old(k).wf(old(bytes)@),
        old(k).ids.next_tid + 3 <= u64::MAX,
        call_ensures(boot::start_threads, (k, bytes, health, stats, reaper), r),
    ensures
        old(k).frames@.free() >= 12 && (forall|i: int|
            4 > i > 0 ==> (#[trigger] old(k).tasks@.threads[i]) is None) ==> {
            let t = final(k).tasks@.threads;
            let n = old(k).ids.next_tid;
            &&& r.health == Some(n) && r.stats == Some((n + 1) as Tid) && r.reaper == Some(
                (n + 2) as Tid,
            )
            &&& t[1] matches Some(x) && x.context.rip == health && x.priority == Priority::High
                && x.tid == n && x.state == TaskState::Ready
            &&& t[2] matches Some(x) && x.context.rip == stats && x.priority == Priority::Low
                && x.tid == n + 1 && x.state == TaskState::Ready
            &&& t[3] matches Some(x) && x.context.rip == reaper && x.priority == Priority::Low
                && x.tid == n + 2 && x.state == TaskState::Ready
        },
{
    let w = old(k).world(old(bytes)@);
    let w2 = final(k).world(final(bytes)@);
    assert(boot::threads_started(w, health, stats, reaper, w2, r));
    if old(k).frames@.free() >= 12 && (forall|i: int|
        4 > i > 0 ==> (#[trigger] old(k).tasks@.threads[i]) is None) {
        let (v0, v1, v2, i1, i2, m1, m2) = choose|
            v0: Tasks,
            v1: Tasks,
            v2: Tasks,
            i1: TaskIds,
            i2: TaskIds,
            m1: Mem,
            m2: Mem,
        |
            scheduler::is_started(w.tasks, v0) && #[trigger] scheduler::spawned(
                v0,
                w.ids,
                w.mem,
                health,
                "health_mon".spec_bytes(),
                Priority::High,
                v1,
                i1,
                m1,
                r.health,
            ) && #[trigger] scheduler::spawned(
                v1,
                i1,
                m1,
                stats,
                "stats".spec_bytes(),
                Priority::Low,
                v2,
                i2,
                m2,
                r.stats,
            ) && scheduler::spawned(
                v2,
                i2,
                m2,
                reaper,
                "reaper".spec_bytes(),
                Priority::Low,
                w2.tasks,
                w2.ids,
                w2.mem,
                r.reaper,
            ) && w2 == (World { tasks: w2.tasks, ids: w2.ids, mem: w2.mem, ..w });
        assert(v0.threads.len() == 64);
        lemma_next_slot(
            v0,
            w.ids,
            w.mem,
            health,
            "health_mon".spec_bytes(),
            Priority::High,
            v1,
            i1,
            m1,
            r.health,
            1,
        );
        lemma_next_slot(
            v1,
            i1,
            m1,
            stats,
            "stats".spec_bytes(),
            Priority::Low,
            v2,
            i2,
            m2,
            r.stats,
            2,
        );
        lemma_next_slot(
            v2,
            i2,
            m2,
            reaper,
            "reaper".spec_bytes(),
            Priority::Low,
            w2.tasks,
            w2.ids,
            w2.mem,
            r.reaper,
            3,
        );
    }
}

proof fn lemma_frames_left(m: Mem, n: nat)
    requires
        m.sane(),
        m.frames.free() >= n,
    ensures
        ({
            let (t, enough) = scheduler::frames_taken(m, n);
            enough && t.sane() && t.frames.free() == m.frames.free() - n
        }),
    decreases n,
{
    if n > 0 {
        phys::law_alloc_succeeds_while_frames_are_free(m.frames);
        phys::law_alloc_takes_a_free_frame(m.frames);
        lemma_frames_left(m.fresh(), (n - 1) as nat);
    }
}

proof fn lemma_next_slot(
    v: Tasks,
    ids: TaskIds,
    m: Mem,
    entry: u64,
    name: Seq<u8>,
    priority: Priority,
    v2: Tasks,
    ids2: TaskIds,
    m2: Mem,
    r: Option<Tid>,
    n: int,
)
    requires
        scheduler::spawned(v, ids, m, entry, name, priority, v2, ids2, m2, r),
        ids.next_tid < u64::MAX,
        m.sane(),
        m.frames.free() >= 4,
        v.threads.len() == 64,
        0 < n < 64,
        v.threads[n] is None,
        forall|j: int| 0 <= j < n ==> (#[trigger] v.threads[j]) is Some,
    ensures
        r == Some(ids.next_tid),
        ids2.next_tid == ids.next_tid + 1,
        m2.sane(),
        m2.frames.free() == m.frames.free() - 4,
        v2.threads.len() == 64,
        v2.threads[n] matches Some(t) && t.tid == ids.next_tid && t.state == TaskState::Ready
            && t.priority == priority && t.context.rip == entry,
        forall|j: int| 0 <= j < 64 && j != n ==> #[trigger] v2.threads[j] == v.threads[j],
{
    reveal(scheduler::spawned);
    lemma_frames_left(m, 4);
    let p = |i: int| v.threads[i] is None;
    assert forall|j: int| 0 <= j < n implies !#[trigger] p(j) by {
        assert(v.threads[j] is Some);
    }
    assert(p(n));
    search::lemma_first_is(64, p, n as usize);
}

} // verus!
