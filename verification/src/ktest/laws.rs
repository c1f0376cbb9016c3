//! What the diagnostics promise: how the outcome of the tests decides the boot.

use vstd::prelude::*;
use crate::kernel::{World, ASSUMED_MEMORY, KERNEL_START};
use crate::memory::phys;
use crate::scheduler;
use crate::search;
use super::run;
use super::run::Step;
use super::{
    BootMode, Diag, Health, Severity, Subsystem, TestResults, Verdict, SUBSYSTEM_COUNT, TEST_COUNT,
};

verus! {

/// If every test passes at once, every subsystem is healthy, the kernel boots as
/// before, and the report says so.
pub proof fn law_all_tests_passed_means_healthy(d: Diag, vs: Seq<Verdict>)
    requires
        d.health.len() == SUBSYSTEM_COUNT,
        d.attempts == Seq::new(SUBSYSTEM_COUNT as nat, |i: int| 0u8),
        vs == Seq::new(TEST_COUNT as nat, |i: int| Verdict::Passed),
    ensures
        ({
            let (d2, r) = super::concluded(d, vs);
            &&& forall|s: int| 0 <= s < SUBSYSTEM_COUNT ==> d2.health[s] == Health::Healthy
            &&& d2.mode == d.mode
            &&& r == Some(
                TestResults {
                    total: TEST_COUNT,
                    passed: TEST_COUNT,
                    failed: 0,
                    recovered: 0,
                    boot_mode: d.mode,
                },
            )
        }),
{
    lemma_noted_passes(d, vs);
    let d1 = super::all_noted(d, vs);
    assert(super::test_of(0).subsystem.place() == 0);
    assert(super::test_of(4).subsystem.place() == 1);
    assert(super::test_of(9).subsystem.place() == 2);
    assert(super::test_of(12).subsystem.place() == 3);
    assert(super::test_of(14).subsystem.place() == 4);
    assert(super::test_of(16).subsystem.place() == 5);
    let health = Seq::new(
        SUBSYSTEM_COUNT as nat,
        |s: int| super::health_after(vs, d1.attempts, s),
    );
    assert forall|s: int| 0 <= s < SUBSYSTEM_COUNT implies health[s] == Health::Healthy by {
        assert(super::has_test(TEST_COUNT as int, s));
    }
    search::lemma_count_zero(
        SUBSYSTEM_COUNT as nat,
        |i: int| super::impaired(health[i]),
    );
    search::lemma_count_zero(vs.len(), |i: int| super::fails(vs[i]));
    search::lemma_count_zero(vs.len(), |i: int| vs[i] == Verdict::Recovered);
    lemma_count_full(vs.len(), |i: int| !super::fails(vs[i]));
}

proof fn lemma_count_full(n: nat, p: spec_fn(int) -> bool)
    requires
        forall|i: int| 0 <= i < n ==> #[trigger] p(i),
    ensures
        search::count(n, p) == n,
    decreases n,
{
    if n > 0 {
        lemma_count_full((n - 1) as nat, p);
    }
}

/// Tests that pass at once change nothing but the log.
proof fn lemma_noted_passes(d: Diag, vs: Seq<Verdict>)
    requires
        forall|i: int| 0 <= i < vs.len() ==> vs[i] == Verdict::Passed,
    ensures
        super::all_noted(d, vs).attempts == d.attempts,
        super::all_noted(d, vs).mode == d.mode,
    decreases vs.len(),
{
    if vs.len() > 0 {
        lemma_noted_passes(d, vs.drop_last());
    }
}

/// The boot mode is left alone while the tests are run.
proof fn lemma_noted_mode(d: Diag, vs: Seq<Verdict>)
    ensures
        super::all_noted(d, vs).mode == d.mode,
    decreases vs.len(),
{
    if vs.len() > 0 {
        lemma_noted_mode(d, vs.drop_last());
    }
}

proof fn lemma_counts_split(vs: Seq<Verdict>, n: nat)
    ensures
        search::count(n, |i: int| !super::fails(vs[i])) + search::count(
            n,
            |i: int| super::fails(vs[i]),
        ) == n,
        search::count(n, |i: int| vs[i] == Verdict::Recovered) <= search::count(
            n,
            |i: int| !super::fails(vs[i]),
        ),
    decreases n,
{
    if n > 0 {
        lemma_counts_split(vs, (n - 1) as nat);
    }
}

/// A report adds up: every test that ran passed or failed, and those that passed
/// after a recovery are among those that passed.
pub proof fn law_report_adds_up(d: Diag, vs: Seq<Verdict>)
    requires
        vs.len() <= TEST_COUNT,
    ensures
        super::concluded(d, vs).1 matches Some(r) ==> {
            &&& r.total == vs.len()
            &&& r.passed + r.failed == r.total
            &&& r.recovered <= r.passed
        },
{
    lemma_counts_split(vs, vs.len());
}

/// Two degraded subsystems bring the kernel into safe mode, unless it is in
/// minimal mode already.
pub proof fn law_two_degraded_subsystems_mean_safe_mode(d: Diag, vs: Seq<Verdict>)
    requires
        d.mode == BootMode::Normal,
        !super::has_critical_failure(vs, Subsystem::Memory.place()),
        !super::has_critical_failure(vs, Subsystem::Scheduler.place()),
        !super::has_critical_failure(vs, Subsystem::Vfs.place()),
    ensures
        ({
            let (d2, r) = super::concluded(d, vs);
            &&& d2.mode == (if super::impaired_count(d2.health) >= 2 {
                BootMode::Safe
            } else {
                BootMode::Normal
            })
            &&& r is Some && r->0.boot_mode == d2.mode
        }),
{
    lemma_noted_mode(d, vs);
}

/// A failed scheduler or file system brings the kernel into minimal mode, and
/// failed memory stops it.
pub proof fn law_critical_failures_decide_the_boot(d: Diag, vs: Seq<Verdict>)
    ensures
        super::has_critical_failure(vs, Subsystem::Memory.place()) <==> super::concluded(
            d,
            vs,
        ).1 is None,
        !super::has_critical_failure(vs, Subsystem::Memory.place()) && (
        super::has_critical_failure(vs, Subsystem::Scheduler.place())
            || super::has_critical_failure(vs, Subsystem::Vfs.place())) ==> super::concluded(
            d,
            vs,
        ).0.mode == BootMode::Minimal,
{
}

/// An optional test never makes a subsystem fail, and a test of one subsystem
/// never touches the state of another.
pub proof fn law_failures_stay_in_their_subsystem(d: Diag, vs: Seq<Verdict>, s: int)
    requires
        0 <= s < SUBSYSTEM_COUNT,
        forall|i: int|
            0 <= i < vs.len() && (#[trigger] super::test_of(i)).subsystem.place() == s
                && super::test_of(i).severity == Severity::Critical ==> !super::fails(vs[i]),
    ensures
        super::concluded(d, vs).0.health[s] != Health::Failed,
        (forall|i: int|
            0 <= i < vs.len() && (#[trigger] super::test_of(i)).subsystem.place() == s
                ==> !super::fails(vs[i])) ==> !super::impaired(
            super::concluded(d, vs).0.health[s],
        ),
{
}

/// Recovering a subsystem is tried at most three times.
pub proof fn law_recovery_is_tried_three_times_at_most(
    steps: Seq<Step>,
    kernel_end: int,
    d: Diag,
    w: World,
    w2: World,
    s: int,
)
    requires
        run::is_run(steps, kernel_end, d, w, w2),
        d.attempts.len() == SUBSYSTEM_COUNT,
        0 <= s < SUBSYSTEM_COUNT,
        d.attempts[s] <= 3,
    ensures
        super::all_noted(d, run::verdicts(steps)).attempts[s] <= 3,
        super::all_noted(d, run::verdicts(steps)).attempts.len() == SUBSYSTEM_COUNT,
    decreases steps.len(),
{
    if steps.len() > 0 {
        let n = steps.len() - 1;
        let had = steps.subrange(0, n);
        lemma_run_before(steps, kernel_end, d, w, w2);
        law_recovery_is_tried_three_times_at_most(had, kernel_end, d, w, end_of(had, w), s);
        lemma_step_recovers(n, kernel_end, run::attempts_before(d, steps, n), steps[n]);
        assert(run::attempts_before(d, steps, n) == super::all_noted(
            d,
            run::verdicts(had),
        ).attempts[super::test_of(n).subsystem.place()]) by {
            reveal(run::attempts_before);
        }
        let vs = run::verdicts(steps);
        assert(vs.drop_last() =~= run::verdicts(had));
        assert(vs.last() == steps[n].verdict);
    }
}

/// Where some steps lead, starting with `w`.
spec fn end_of(steps: Seq<Step>, w: World) -> World {
    if steps.len() == 0 {
        w
    } else {
        steps.last().end
    }
}

/// A run without its last step is a run.
proof fn lemma_run_before(steps: Seq<Step>, kernel_end: int, d: Diag, w: World, w2: World)
    requires
        run::is_run(steps, kernel_end, d, w, w2),
        steps.len() > 0,
    ensures
        run::is_run(
            steps.subrange(0, steps.len() - 1),
            kernel_end,
            d,
            w,
            end_of(steps.subrange(0, steps.len() - 1), w),
        ),
{
    let had = steps.subrange(0, steps.len() - 1);
    assert forall|i: int| 0 <= i < had.len() implies run::is_step(
        i,
        kernel_end,
        run::attempts_before(d, had, i),
        #[trigger] had[i],
    ) by {
        reveal(run::attempts_before);
        assert(steps[i] == had[i]);
        assert(had.subrange(0, i) =~= steps.subrange(0, i));
    }
    assert forall|i: int| 0 <= i < had.len() implies #[trigger] run::follows(had, w, i) by {
        assert(run::follows(steps, w, i));
    }
}

/// Recovering is tried only where it may be.
proof fn lemma_step_recovers(i: int, kernel_end: int, attempts: u8, s: Step)
    requires
        run::is_step(i, kernel_end, attempts, s),
    ensures
        s.verdict == Verdict::Recovered || s.verdict == Verdict::Unrecovered
            ==> super::may_recover(i, attempts),
{
    reveal(run::is_step);
}

/// A subsystem that fails its check at run time is not healthy afterwards; the
/// state of one that passes stays as it was.
pub proof fn law_failing_subsystems_are_not_healthy(d: Diag, memory: bool, files: bool, sched: bool)
    requires
        d.health.len() == SUBSYSTEM_COUNT,
    ensures
        ({
            let h = run::rechecked(d, memory, files, sched).health;
            &&& if memory { h[0] == d.health[0] } else { h[0] != Health::Healthy }
            &&& if files { h[1] == d.health[1] } else { h[1] != Health::Healthy }
            &&& if sched { h[4] == d.health[4] } else { h[4] != Health::Healthy }
            &&& h[2] == d.health[2] && h[3] == d.health[3] && h[5] == d.health[5]
        }),
{
}

/// The watch over the subsystems restores each of them that fails, unless that
/// was tried three times before: it works again, and counts as recovered. The
/// kernel must leave a frame of the RAM that it counts on.
pub proof fn law_failing_subsystems_are_restored(
    d: Diag,
    w: World,
    kernel_end: int,
    d2: Diag,
    w2: World,
    sub: Subsystem,
)
    requires
        d.health.len() == SUBSYSTEM_COUNT,
        d.attempts.len() == SUBSYSTEM_COUNT,
        w.tasks.threads.len() == scheduler::MAX_THREADS,
        kernel_end + 8192 <= ASSUMED_MEMORY,
        run::watched(d, w, kernel_end, d2, w2),
        !run::works(sub, w),
        d.attempts[sub.place()] < 3,
    ensures
        run::works(sub, w2),
        d2.health[sub.place()] == Health::Recovered,
        d2.attempts[sub.place()] == d.attempts[sub.place()] + 1,
{
    match sub {
        Subsystem::Memory => {
            let p = |i: int| !w2.mem.frames.used[i];
            let last = w2.mem.frames.total - 1;
            search::lemma_first(w2.mem.frames.total, p);
            assert(!phys::taken_at_boot(last, KERNEL_START as int, kernel_end));
            assert(p(last));
        },
        Subsystem::Scheduler => {
            let q = |i: int| scheduler::alive(w2.tasks.threads[i]);
            search::lemma_count_positive(scheduler::MAX_THREADS as nat, q, 0);
        },
        _ => {},
    }
}

} // verus!
