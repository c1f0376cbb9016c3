//! Threads: who runs next, who sleeps, who wakes up, who stays blocked.

use vstd::prelude::*;
use vstd::string::*;
use crate::clock;
use crate::memory::paging;
use crate::memory::paging::Mem;
use crate::memory::phys::{FrameAllocator, Frames};
use crate::memory::ram;
use crate::scheduler;
use crate::scheduler::{Scheduler, Switch, Tasks, ThreadRow};
use crate::search;
use crate::task::{Pid, Priority, TaskIds, TaskState, Thread, Tid};

verus! {

/// How high a priority is.
pub open spec fn height(p: Priority) -> int {
    match p {
        Priority::Idle => 0,
        Priority::Low => 1,
        Priority::Normal => 2,
        Priority::High => 3,
        Priority::Realtime => 4,
    }
}

/// The thread in slot `i` wants the processor: it is ready, or it has it now.
pub open spec fn wants(a: Tasks, i: int) -> bool {
    a.threads[i] matches Some(t) && (t.state == TaskState::Ready || (i == a.current && t.state
        == TaskState::Running))
}

/// Some thread wants the processor.
pub open spec fn wanted(a: Tasks) -> bool {
    exists|i: int| 0 <= i < 64 && #[trigger] wants(a, i)
}

/// How many slots lie between the current one and slot `i`, going up and around.
pub open spec fn between(a: Tasks, i: int) -> int {
    if i > a.current {
        i - a.current - 1
    } else {
        i - a.current + 63
    }
}

/// Slot `n` is where the processor goes: its thread wants it, none that wants it
/// has a higher priority, and of those with the same one it comes first behind the
/// current slot.
pub open spec fn goes_to(a: Tasks, n: int) -> bool {
    &&& 0 <= n < 64
    &&& wants(a, n)
    &&& forall|j: int|
        0 <= j < 64 && #[trigger] wants(a, j) ==> {
            ||| height(a.threads[j]->0.priority) < height(a.threads[n]->0.priority)
            ||| height(a.threads[j]->0.priority) == height(a.threads[n]->0.priority) && between(
                a,
                n,
            ) <= between(a, j)
        }
}

/// The address space that a switch from a thread of process `from` to one of
/// process `to` loads: none within a process or where the process has none of its
/// own, otherwise that of the first entry for the process.
pub open spec fn loads(a: Tasks, from: Pid, to: Pid, cr3: Option<u64>) -> bool {
    if from == to {
        cr3 is None
    } else {
        &&& forall|i: int|
            0 <= i < 16 && (#[trigger] a.processes[i] matches Some(p) && p.pid == to) && (forall|
                j: int,
            |
                0 <= j < i ==> !(#[trigger] a.processes[j] matches Some(q) && q.pid == to))
                ==> cr3 == (if a.processes[i]->0.cr3 == 0 {
                None
            } else {
                Some(a.processes[i]->0.cr3)
            })
        &&& (forall|i: int|
            0 <= i < 16 ==> !(#[trigger] a.processes[i] matches Some(p) && p.pid == to))
            ==> cr3 is None
    }
}

/// `b` is what is left of `a` once the processor was handed on, and `r` the switch
/// that this takes.
pub open spec fn handed_on(a: Tasks, b: Tasks, r: Option<Switch>) -> bool {
    &&& b.processes == a.processes
    &&& b.ticks == a.ticks
    &&& b.active == a.active
    &&& b.sleep_until == a.sleep_until
    &&& b.threads.len() == 64
    &&& if a.active && a.current >= 0 && wanted(a) {
        let n = b.current as int;
        &&& goes_to(a, n)
        &&& forall|j: int|
            0 <= j < 64 ==> #[trigger] b.threads[j] == (if wants(a, j) {
                Some(
                    Thread {
                        state: if j == n {
                            TaskState::Running
                        } else {
                            TaskState::Ready
                        },
                        ..a.threads[j]->0
                    },
                )
            } else {
                a.threads[j]
            })
        &&& r is None <==> n == a.current
        &&& r matches Some(s) ==> {
            &&& s.from == a.current
            &&& s.to == n
            &&& s.rsp == a.threads[n]->0.context.rsp
            &&& loads(a, a.threads[a.current as int]->0.pid, a.threads[n]->0.pid, s.cr3)
        }
    } else {
        r is None && b.current == a.current && b.threads == a.threads
    }
}

/// What the scheduler's own terms say is a processor handed on.
pub proof fn lemma_handed_on(a: Tasks)
    requires
        a.wf(),
    ensures
        handed_on(a, a.scheduled().0, a.scheduled().1),
{
    let (b, r) = a.scheduled();
    if a.active && a.current >= 0 {
        let v = a.rested();
        let cur = a.current as int;
        assert forall|i: int| 0 <= i < 64 implies #[trigger] wants(a, i) == v.ready(i) by {}
        scheduler::lemma_next(v);
        match v.next() {
            Some(n) => {
                assert(v.ready(n) && wants(a, n));
                assert forall|j: int| 0 <= j < 64 && #[trigger] wants(a, j) implies {
                    ||| height(a.threads[j]->0.priority) < height(a.threads[n]->0.priority)
                    ||| height(a.threads[j]->0.priority) == height(a.threads[n]->0.priority)
                        && between(a, n) <= between(a, j)
                } by {
                    assert(v.ready(j));
                    assert(v.rank(j) <= v.rank(n));
                    if v.rank(j) == v.rank(n) {
                        assert(v.may_run(j)) by {
                            assert forall|k: int| 0 <= k < 64 && #[trigger] v.ready(k) implies v.rank(
                                k,
                            ) <= v.rank(j) by {}
                        }
                        assert(v.distance(n) <= v.distance(j));
                    }
                }
                assert(goes_to(a, n));
                let to = a.threads[n]->0.pid;
                search::lemma_first(
                    16,
                    |i: int| v.processes[i] matches Some(p) && p.pid == to,
                );
                if r is Some {
                    let from = a.threads[cur]->0.pid;
                    if from != to {
                        lemma_loads(a, from, to);
                    }
                }
            },
            None => {
                if wanted(a) {
                    let i = choose|i: int| 0 <= i < 64 && #[trigger] wants(a, i);
                    assert(v.ready(i));
                }
                if in_state_running(a, cur) {
                    assert(wants(a, cur));
                }
                assert(b.threads =~= a.threads);
            },
        }
    }
}

spec fn in_state_running(a: Tasks, i: int) -> bool {
    a.threads[i] matches Some(t) && t.state == TaskState::Running
}

proof fn lemma_loads(a: Tasks, from: Pid, to: Pid)
    requires
        from != to,
    ensures
        loads(a, from, to, a.space_of(to)),
{
    let p = |i: int| a.processes[i] matches Some(p) && p.pid == to;
    search::lemma_first(16, p);
    let c = a.space_of(to);
    assert forall|i: int|
        0 <= i < 16 && (#[trigger] a.processes[i] matches Some(q) && q.pid == to) && (forall|
            j: int,
        |
            0 <= j < i ==> !(#[trigger] a.processes[j] matches Some(q) && q.pid == to)) implies c
        == (if a.processes[i]->0.cr3 == 0 {
        None
    } else {
        Some(a.processes[i]->0.cr3)
    }) by {
        assert(p(i));
        assert forall|j: int| 0 <= j < i implies !#[trigger] p(j) by {
            assert(!(a.processes[j] matches Some(q) && q.pid == to));
        }
        search::lemma_first_is(16, p, i as usize);
    }
    if forall|i: int| 0 <= i < 16 ==> !(#[trigger] a.processes[i] matches Some(q) && q.pid == to) {
        assert forall|j: int| 0 <= j < 16 implies !#[trigger] p(j) by {
            assert(!(a.processes[j] matches Some(q) && q.pid == to));
        }
        search::lemma_first_none(16, p);
    }
}

/// The scheduler hands the processor to the thread of the highest priority, in
/// turn among equals; a thread that had it waits for its next turn. Threads that
/// neither wait for it nor have it stay as they are.
pub proof fn law_schedule_hands_the_processor_on(s: &mut Scheduler, r: Option<Switch>)
    requires
        old(s).wf(),
        call_ensures(scheduler::schedule, (s,), r),
    ensures
        handed_on(old(s)@, final(s)@, r),
{
    assert((final(s)@, r) == old(s)@.scheduled());
    lemma_handed_on(old(s)@);
}

/// The time for slot `i` to sleep is over with the tick after `a`.
pub open spec fn due(a: Tasks, i: int) -> bool {
    0 < a.sleep_until[i] <= a.ticks + 1
}

/// `b` is `a` one tick later: the threads whose time to sleep is over are ready,
/// and nothing else has changed.
pub open spec fn tick_later(a: Tasks, b: Tasks) -> bool {
    &&& b.ticks == a.ticks + 1
    &&& b.current == a.current
    &&& b.active == a.active
    &&& b.processes == a.processes
    &&& b.threads.len() == 64
    &&& b.sleep_until.len() == 64
    &&& forall|i: int|
        0 <= i < 64 ==> #[trigger] b.sleep_until[i] == (if due(a, i) {
            0
        } else {
            a.sleep_until[i]
        })
    &&& forall|i: int|
        0 <= i < 64 ==> #[trigger] b.threads[i] == (if due(a, i) && (a.threads[i] matches Some(t)
            && t.state == TaskState::Blocked) {
            Some(Thread { state: TaskState::Ready, ..a.threads[i]->0 })
        } else {
            a.threads[i]
        })
}

/// A tick of the timer wakes the threads whose time to sleep is over, and hands the
/// processor on. A blocked thread that does not sleep, or sleeps on, is the same
/// thread afterwards, still blocked, and has not come to run; so is one that has
/// ended. A tick takes no thread out of its slot and puts none into another.
pub proof fn law_tick_wakes_sleepers_alone(s: &mut Scheduler, r: Option<Switch>)
    requires
        old(s).wf(),
        old(s).tick_count < u64::MAX,
        call_ensures(scheduler::timer_tick, (s,), r),
    ensures
        final(s).tick_count == old(s).tick_count + 1,
        exists|b: Tasks| #[trigger] tick_later(old(s)@, b) && handed_on(b, final(s)@, r),
        forall|i: int|
            0 <= i < 64 && (#[trigger] old(s).threads@[i] matches Some(t) && t.state
                == TaskState::Blocked) && !(0 < old(s).sleep_until@[i] <= old(s).tick_count + 1)
                ==> final(s).threads@[i] == old(s).threads@[i] && final(s).sleep_until@[i] == old(s).sleep_until@[i],
        forall|i: int|
            0 <= i < 64 && (#[trigger] old(s).threads@[i] matches Some(t) && t.state
                == TaskState::Blocked) && 0 < old(s).sleep_until@[i] <= old(s).tick_count + 1 ==> (
            final(s).threads@[i] matches Some(t) && (t.state == TaskState::Ready || t.state
                == TaskState::Running)) && final(s).sleep_until@[i] == 0,
        forall|i: int|
            0 <= i < 64 && (#[trigger] old(s).threads@[i] matches Some(t) && t.state
                == TaskState::Dead) ==> final(s).threads@[i] == old(s).threads@[i],
        forall|i: int|
            0 <= i < 64 ==> (#[trigger] final(s).threads@[i] is Some <==> old(s).threads@[i] is Some),
{
    let a = old(s)@;
    let u = Tasks { ticks: (a.ticks + 1) as u64, ..a };
    let b = u.woken();
    assert((final(s)@, r) == b.scheduled());
    assert(tick_later(a, b));
    assert(b.wf()) by {
        search::lemma_count_same(
            64,
            |j: int| scheduler::of_kernel(a.threads[j]),
            |j: int| scheduler::of_kernel(b.threads[j]),
        );
    }
    lemma_handed_on(b);
    let w = final(s)@;
    assert forall|i: int|
        0 <= i < 64 && (#[trigger] old(s).threads@[i] matches Some(t) && t.state
            == TaskState::Blocked) && 0 < old(s).sleep_until@[i] <= old(s).tick_count + 1 implies (
    final(s).threads@[i] matches Some(t) && (t.state == TaskState::Ready || t.state
        == TaskState::Running)) && final(s).sleep_until@[i] == 0 by {
        assert(due(a, i));
        assert(wants(b, i));
        assert(w.threads[i] == s_thread(b, w, i));
    }
    assert forall|i: int| 0 <= i < 64 implies (#[trigger] final(s).threads@[i] is Some <==> old(s).threads@[i] is Some) by {
        assert(w.threads[i] == final(s).threads@[i]);
        assert(a.threads[i] == old(s).threads@[i]);
        assert(b.threads[i] is Some <==> a.threads[i] is Some);
    }
}

spec fn s_thread(b: Tasks, w: Tasks, i: int) -> Option<Thread> {
    if b.active && b.current >= 0 && wanted(b) {
        Some(
            Thread {
                state: if i == w.current {
                    TaskState::Running
                } else {
                    TaskState::Ready
                },
                ..b.threads[i]->0
            },
        )
    } else {
        b.threads[i]
    }
}

/// `b` is `a` with the thread in the current slot in another state, and set to
/// sleep until a tick.
pub open spec fn set_aside(a: Tasks, b: Tasks, state: TaskState, until: int) -> bool {
    let cur = a.current as int;
    &&& b == (Tasks { threads: b.threads, sleep_until: b.sleep_until, ..a })
    &&& b.threads == a.threads.update(cur, Some(Thread { state, ..a.threads[cur]->0 }))
    &&& b.sleep_until.len() == 64
    &&& b.sleep_until[cur] == until
    &&& forall|i: int| 0 <= i < 64 && i != cur ==> #[trigger] b.sleep_until[i] == a.sleep_until[i]
}

/// A thread that goes to sleep is blocked until its tick comes, and the processor
/// is handed on.
pub proof fn law_sleep_sets_the_thread_aside(s: &mut Scheduler, n: u64, r: Option<Switch>)
    requires
        old(s).wf(),
        0 <= old(s).current_thread,
        old(s).tick_count + n <= u64::MAX,
        call_ensures(scheduler::sleep_ticks, (s, n), r),
    ensures
        exists|b: Tasks| #[trigger]
            set_aside(old(s)@, b, TaskState::Blocked, old(s).tick_count + n) && handed_on(
                b,
                final(s)@,
                r,
            ),
        final(s).sleep_until@[old(s).current_thread as int] == old(s).tick_count + n,
        final(s).threads@[old(s).current_thread as int] matches Some(t) && t.state
            == TaskState::Blocked,
{
    let a = old(s)@;
    let cur = a.current as int;
    let v = Tasks { sleep_until: a.sleep_until.update(cur, (a.ticks + n) as u64), ..a };
    let b = v.with_state(cur, TaskState::Blocked);
    assert((final(s)@, r) == b.scheduled());
    assert(set_aside(a, b, TaskState::Blocked, a.ticks + n));
    lemma_in_order(a, b);
    lemma_handed_on(b);
    assert(!wants(b, cur));
    assert(final(s)@.threads[cur] == b.threads[cur]);
}

pub proof fn lemma_in_order(a: Tasks, b: Tasks)
    requires
        a.wf(),
        b == (Tasks { threads: b.threads, sleep_until: b.sleep_until, ..a }),
        b.threads.len() == 64,
        b.sleep_until.len() == 64,
        forall|j: int|
            0 <= j < 64 ==> scheduler::of_kernel(#[trigger] a.threads[j]) == scheduler::of_kernel(
                b.threads[j],
            ) && (a.threads[j] is Some ==> b.threads[j] is Some),
    ensures
        b.wf(),
{
    search::lemma_count_same(
        64,
        |j: int| scheduler::of_kernel(a.threads[j]),
        |j: int| scheduler::of_kernel(b.threads[j]),
    );
    if a.current >= 0 {
        assert(a.threads[a.current as int] is Some);
    }
}

/// A thread that blocks stays blocked, and the processor is handed on.
pub proof fn law_block_sets_the_thread_aside(s: &mut Scheduler, r: Option<Switch>)
    requires
        old(s).wf(),
        0 <= old(s).current_thread,
        call_ensures(scheduler::block_current, (s,), r),
    ensures
        exists|b: Tasks| #[trigger]
            set_aside(
                old(s)@,
                b,
                TaskState::Blocked,
                old(s).sleep_until@[old(s).current_thread as int] as int,
            ) && handed_on(b, final(s)@, r),
        final(s).threads@[old(s).current_thread as int] matches Some(t) && t.state
            == TaskState::Blocked,
{
    let a = old(s)@;
    let cur = a.current as int;
    let b = a.with_state(cur, TaskState::Blocked);
    assert((final(s)@, r) == b.scheduled());
    assert(set_aside(a, b, TaskState::Blocked, a.sleep_until[cur] as int));
    lemma_in_order(a, b);
    lemma_handed_on(b);
    assert(!wants(b, cur));
    assert(final(s)@.threads[cur] == b.threads[cur]);
}

/// A thread that exits has ended, and the processor is handed on.
pub proof fn law_exit_ends_the_thread(s: &mut Scheduler, r: Option<Switch>)
    requires
        old(s).wf(),
        0 <= old(s).current_thread,
        call_ensures(scheduler::exit_current, (s,), r),
    ensures
        exists|b: Tasks| #[trigger]
            set_aside(
                old(s)@,
                b,
                TaskState::Dead,
                old(s).sleep_until@[old(s).current_thread as int] as int,
            ) && handed_on(b, final(s)@, r),
        final(s).threads@[old(s).current_thread as int] matches Some(t) && t.state
            == TaskState::Dead,
{
    let a = old(s)@;
    let cur = a.current as int;
    let b = a.with_state(cur, TaskState::Dead);
    assert((final(s)@, r) == b.scheduled());
    assert(set_aside(a, b, TaskState::Dead, a.sleep_until[cur] as int));
    lemma_in_order(a, b);
    lemma_handed_on(b);
    assert(!wants(b, cur));
    assert(final(s)@.threads[cur] == b.threads[cur]);
}

/// Unblocking makes a blocked thread ready, and touches no other.
pub proof fn law_unblock_makes_that_thread_ready(s: &mut Scheduler, idx: usize)
    requires
        old(s).wf(),
        call_ensures(scheduler::unblock_thread, (s, idx), ()),
    ensures
        forall|i: int|
            0 <= i < 64 ==> #[trigger] final(s).threads@[i] == (if i == idx && (
            old(s).threads@[i] matches Some(t) && t.state == TaskState::Blocked) {
                Some(Thread { state: TaskState::Ready, ..old(s).threads@[i]->0 })
            } else {
                old(s).threads@[i]
            }),
        final(s).current_thread == old(s).current_thread,
        final(s).sleep_until@ == old(s).sleep_until@,
        final(s).tick_count == old(s).tick_count,
        final(s).processes@ == old(s).processes@,
{
    let a = old(s)@;
    let b = final(s)@;
    assert(b.threads == final(s).threads@ && a.threads == old(s).threads@);
    assert(b.current == final(s).current_thread && b.ticks == final(s).tick_count);
    assert(b.sleep_until == final(s).sleep_until@ && b.processes == final(s).processes@);
}

/// A blocked thread that nobody unblocks and that does not sleep stays blocked for
/// as many ticks as there are: what holds before a tick holds after it.
pub proof fn law_blocked_threads_stay_blocked(s: &mut Scheduler, i: int, r: Option<Switch>)
    requires
        old(s).wf(),
        old(s).tick_count < u64::MAX,
        call_ensures(scheduler::timer_tick, (s,), r),
        0 <= i < 64,
        old(s).sleep_until@[i] == 0,
        old(s).threads@[i] matches Some(t) && t.state == TaskState::Blocked,
    ensures
        final(s).sleep_until@[i] == 0,
        final(s).threads@[i] == old(s).threads@[i],
        old(s).current_thread != i ==> final(s).current_thread != i,
{
    law_tick_wakes_sleepers_alone(s, r);
    let a = old(s)@;
    let b = choose|b: Tasks| #[trigger] tick_later(a, b) && handed_on(b, final(s)@, r);
    assert(!wants(b, i));
}

/// The tick that comes `n` ticks later, or the last one of the clock.
pub open spec fn later(now: u64, n: u64) -> int {
    if now + n <= 0xFFFF_FFFF_FFFF_FFFF {
        now + n
    } else {
        0xFFFF_FFFF_FFFF_FFFF
    }
}

/// A pause sets the current thread aside until as many ticks have passed, at most
/// until the clock runs out; one of no ticks hands the processor on.
pub proof fn law_pause_sets_the_thread_aside(s: &mut Scheduler, n: u64, r: Option<Switch>)
    requires
        old(s).wf(),
        0 <= old(s).current_thread,
        call_ensures(clock::pause, (s, n), r),
    ensures
        n == 0 ==> handed_on(old(s)@, final(s)@, r),
        n > 0 ==> exists|b: Tasks| #[trigger]
            set_aside(
                old(s)@,
                b,
                TaskState::Blocked,
                later(old(s).tick_count, n),
            ) && handed_on(b, final(s)@, r),
{
    let a = old(s)@;
    assert((final(s)@, r) == clock::paused(a, n));
    if n == 0 {
        lemma_handed_on(a);
    } else {
        let cur = a.current as int;
        let until: u64 = if a.ticks + n <= u64::MAX {
            (a.ticks + n) as u64
        } else {
            u64::MAX
        };
        let b = (Tasks { sleep_until: a.sleep_until.update(cur, until), ..a }).with_state(
            cur,
            TaskState::Blocked,
        );
        assert(set_aside(a, b, TaskState::Blocked, later(a.ticks, n)));
        lemma_in_order(a, b);
        lemma_handed_on(b);
    }
}

/// Where no thread runs, there is nobody to set aside, and nothing changes.
pub proof fn law_nobody_is_set_aside_without_a_thread(
    a: &mut Scheduler,
    b: &mut Scheduler,
    c: &mut Scheduler,
    e: &mut Scheduler,
    n: u64,
    ra: Option<Switch>,
    rb: Option<Switch>,
    rc: Option<Switch>,
    re: Option<Switch>,
)
    requires
        old(a).wf() && old(b).wf() && old(c).wf() && old(e).wf(),
        old(a).current_thread < 0,
        old(b).current_thread < 0,
        old(c).current_thread < 0,
        old(e).current_thread < 0,
        call_ensures(clock::pause, (a, n), ra),
        call_ensures(scheduler::block_current, (b,), rb),
        call_ensures(scheduler::exit_current, (c,), rc),
        call_ensures(scheduler::sleep_ticks, (e, n), re),
    ensures
        ra is None && final(a)@ == old(a)@,
        rb is None && final(b)@ == old(b)@,
        rc is None && final(c)@ == old(c)@,
        re is None && final(e)@ == old(e)@,
{
    assert((final(a)@, ra) == clock::paused(old(a)@, n));
}

/// The ticks that cover a number of milliseconds: none too few, none too many, with
/// 91 ticks in 5000 milliseconds.
pub proof fn law_milliseconds_are_covered_by_ticks(ms: u64, r: u64)
    requires
        call_ensures(clock::ms_to_ticks, (ms,), r),
    ensures
        r * 5000 >= ms * 91,
        r * 5000 < ms * 91 + 5000,
{
}

/// The ticks that cover a number of steps of 100 nanoseconds: none too few, none too
/// many.
pub proof fn law_steps_are_covered_by_ticks(steps: u64, r: u64)
    requires
        call_ensures(clock::steps_to_ticks, (steps,), r),
    ensures
        r * 50_000_000 >= steps * 91,
        r * 50_000_000 < steps * 91 + 50_000_000,
{
}

/// A name as it stands in a buffer: the bytes in front of the closing zero, as many
/// as there is room for.
pub open spec fn holds_name(buf: Seq<u8>, name: Seq<u8>) -> bool {
    let n = if name.len() < buf.len() {
        name.len() as int
    } else {
        buf.len() - 1
    };
    buf[n] == 0 && forall|j: int| 0 <= j < n ==> #[trigger] buf[j] == name[j]
}

/// The stack of a thread that has not run yet: six registers of zero, and above them
/// the address to start at, in little-endian order.
pub open spec fn fresh_stack(bytes: Seq<u8>, top: int, entry: u64) -> bool {
    &&& forall|a: int| top - 56 <= a < top - 8 ==> #[trigger] bytes[a] == 0
    &&& bytes[top - 8] + 0x100 * bytes[top - 7] + 0x1_0000 * bytes[top - 6] + 0x100_0000
        * bytes[top - 5] + 0x1_0000_0000 * bytes[top - 4] + 0x100_0000_0000 * bytes[top - 3]
        + 0x1_0000_0000_0000 * bytes[top - 2] + 0x100_0000_0000_0000 * bytes[top - 1] == entry
}

/// `t` is a thread of the kernel as it is before it first runs.
pub open spec fn fresh_thread(
    t: Thread,
    tid: Tid,
    entry: u64,
    top: int,
    priority: Priority,
    name: Seq<u8>,
) -> bool {
    &&& t.tid == tid
    &&& t.pid == 0
    &&& t.state == TaskState::Ready
    &&& t.priority == priority
    &&& t.kernel_stack == top
    &&& t.context.rsp == top - 56
    &&& t.context.rip == entry
    &&& t.context.rflags == 0x200
    &&& holds_name(t.name@, name)
}

/// `b` holds the threads of `a`, and `t` in the first slot that was empty.
pub open spec fn thread_added(a: Seq<Option<Thread>>, b: Seq<Option<Thread>>, t: Thread) -> bool {
    exists|i: int|
        {
            &&& 0 <= i < 64
            &&& a[i] is None
            &&& forall|j: int| 0 <= j < i ==> #[trigger] a[j] is Some
            &&& b == #[trigger] a.update(i, Some(t))
        }
}

proof fn lemma_taken(m: Mem, n: nat)
    requires
        m.sane(),
        scheduler::frames_taken(m, n).1,
    ensures
        ({
            let w = scheduler::frames_taken(m, n).0;
            &&& w.bytes.len() == m.bytes.len()
            &&& w.frames.total == m.frames.total
            &&& w.frames.used.len() == m.frames.used.len()
            &&& forall|f: int| 0 <= f < 131_072 && m.frames.used[f] ==> #[trigger] w.frames.used[f]
            &&& forall|a: int|
                0 <= a < m.bytes.len() && (a / 4096 >= m.frames.total || m.frames.used[a / 4096])
                    ==> #[trigger] w.bytes[a] == m.bytes[a]
            &&& n > 0 ==> {
                &&& 0 <= m.fresh_addr() < 0x2000_0000
                &&& m.fresh_addr() % 4096 == 0
                &&& !m.frames.used[m.fresh_addr() / 4096]
                &&& w.frames.used[m.fresh_addr() / 4096]
            }
        }),
    decreases n,
{
    if n > 0 {
        crate::memory::phys::law_alloc_takes_a_free_frame(m.frames);
        lemma_taken(m.fresh(), (n - 1) as nat);
        let f = m.fresh_addr() / 4096;
        assert(m.fresh().frames.used[f]);
    }
}

pub proof fn lemma_entry_bytes(v: u64)
    by (bit_vector)
    ensures
        v % 0x100 + 0x100 * (v / 0x100 % 0x100) + 0x1_0000 * (v / 0x1_0000 % 0x100) + 0x100_0000 * (
        v / 0x100_0000 % 0x100) + 0x1_0000_0000 * (v / 0x1_0000_0000 % 0x100) + 0x100_0000_0000 * (v
            / 0x100_0000_0000 % 0x100) + 0x1_0000_0000_0000 * (v / 0x1_0000_0000_0000 % 0x100)
            + 0x100_0000_0000_0000 * (v / 0x100_0000_0000_0000 % 0x100) == v,
{
}

/// What making a thread of the kernel leaves behind, and its number: the thread gets
/// the next number, a stack in a frame that was free, and the first empty slot; it
/// waits for the processor, to start at its entry. No other thread changes. Where there
/// is no stack or no slot for it, no thread changes at all.
pub open spec fn born(
    v: Tasks,
    ids: TaskIds,
    m: Mem,
    entry: u64,
    name: Seq<u8>,
    priority: Priority,
    v2: Tasks,
    ids2: TaskIds,
    m2: Mem,
    r: Option<Tid>,
) -> bool {
    &&& match r {
        Some(tid) => {
            &&& tid == ids.next_tid
            &&& ids2.next_tid == tid + 1
            &&& ids2.next_pid == ids.next_pid
            &&& exists|t: Thread| #[trigger]
                fresh_thread(t, tid, entry, t.kernel_stack as int, priority, name) && thread_added(
                    v.threads,
                    v2.threads,
                    t,
                ) && fresh_stack(m2.bytes, t.kernel_stack as int, entry) && !m.frames.used[(
                t.kernel_stack - 16_384) / 4096] && m2.frames.used[(t.kernel_stack - 16_384) / 4096]
        },
        None => v2.threads == v.threads,
    }
    &&& v2.current == v.current
    &&& v2.sleep_until == v.sleep_until
    &&& v2.ticks == v.ticks
    &&& v2.active == v.active
    &&& m.frames.free() < 4 ==> r is None
    &&& (forall|i: int| 0 <= i < 64 ==> #[trigger] v.threads[i] is Some) ==> r is None
    &&& m.frames.free() >= 4 && !(forall|i: int|
        0 <= i < 64 ==> #[trigger] v.threads[i] is Some) ==> r is Some
}

proof fn lemma_enough(m: Mem, n: nat)
    requires
        m.sane(),
    ensures
        scheduler::frames_taken(m, n).1 <==> m.frames.free() >= n,
    decreases n,
{
    if n > 0 {
        crate::memory::phys::law_alloc_succeeds_while_frames_are_free(m.frames);
        if m.frames.lowest_free() is Some {
            crate::memory::phys::law_alloc_takes_a_free_frame(m.frames);
            lemma_enough(m.fresh(), (n - 1) as nat);
        }
    }
}

/// What the scheduler's own terms say of a new thread is what making one is for.
pub proof fn lemma_born(
    v: Tasks,
    ids: TaskIds,
    m: Mem,
    entry: u64,
    name: Seq<u8>,
    priority: Priority,
    v2: Tasks,
    ids2: TaskIds,
    m2: Mem,
    r: Option<Tid>,
)
    requires
        v.wf(),
        ids.next_tid < u64::MAX,
        m.sane(),
        scheduler::spawned(v, ids, m, entry, name, priority, v2, ids2, m2, r),
    ensures
        born(v, ids, m, entry, name, priority, v2, ids2, m2, r),
{
    reveal(scheduler::spawned);
    lemma_enough(m, 4);
    let p = |i: int| v.threads[i] is None;
    search::lemma_first(64, p);
    if r is Some {
        let i = v.free_slot()->0 as int;
        let t = v2.threads[i]->0;
        let top = m.fresh_addr() + 16_384;
        lemma_taken(m, 4);
        scheduler::lemma_stack_in_ram(m, 4);
        let b = m2.bytes;
        let e = ram::bytes64(entry);
        assert(b[top - 8] == e[0] && b[top - 7] == e[1] && b[top - 6] == e[2] && b[top - 5] == e[3]);
        assert(b[top - 4] == e[4] && b[top - 3] == e[5] && b[top - 2] == e[6] && b[top - 1] == e[7]);
        lemma_entry_bytes(entry);
        assert(fresh_stack(b, top, entry));
        assert(t.kernel_stack == top);
        assert(holds_name(t.name@, name));
        assert(fresh_thread(t, r->0, entry, t.kernel_stack as int, priority, name));
        assert forall|j: int| 0 <= j < i implies #[trigger] v.threads[j] is Some by {
            assert(!p(j));
        }
        assert(v2.threads == v.threads.update(i, Some(t)));
        assert(thread_added(v.threads, v2.threads, t));
        assert(p(i));
        assert(v.threads[i] is None);
    } else if v.free_slot() is None {
        assert forall|j: int| 0 <= j < 64 implies #[trigger] v.threads[j] is Some by {
            assert(!p(j));
        }
    }
}

/// A thread of the kernel that is made waits for the processor, to start at its entry.
/// See `born`.
pub proof fn law_new_thread_waits_at_its_entry(
    s: &mut Scheduler,
    ids: &mut TaskIds,
    frames: &mut FrameAllocator,
    bytes: &mut [u8],
    entry: u64,
    name: &str,
    priority: Priority,
    r: Option<Tid>,
)
    requires
        old(s).wf(),
        old(ids).next_tid < u64::MAX,
        old(frames).wf(),
        paging::mem(old(frames), old(bytes)@).sane(),
        call_ensures(
            scheduler::spawn_kernel_thread_with_priority,
            (s, ids, frames, bytes, entry, name, priority),
            r,
        ),
    ensures
        born(
            old(s)@,
            *old(ids),
            paging::mem(old(frames), old(bytes)@),
            entry,
            name.spec_bytes(),
            priority,
            final(s)@,
            *final(ids),
            paging::mem(final(frames), final(bytes)@),
            r,
        ),
{
    lemma_born(
        old(s)@,
        *old(ids),
        paging::mem(old(frames), old(bytes)@),
        entry,
        name.spec_bytes(),
        priority,
        final(s)@,
        *final(ids),
        paging::mem(final(frames), final(bytes)@),
        r,
    );
}

/// A thread that is made without a priority has the normal one.
pub proof fn law_new_thread_is_of_normal_priority(
    s: &mut Scheduler,
    ids: &mut TaskIds,
    frames: &mut FrameAllocator,
    bytes: &mut [u8],
    entry: u64,
    name: &str,
    r: Option<Tid>,
)
    requires
        old(s).wf(),
        old(ids).next_tid < u64::MAX,
        old(frames).wf(),
        paging::mem(old(frames), old(bytes)@).sane(),
        call_ensures(scheduler::spawn_kernel_thread, (s, ids, frames, bytes, entry, name), r),
    ensures
        born(
            old(s)@,
            *old(ids),
            paging::mem(old(frames), old(bytes)@),
            entry,
            name.spec_bytes(),
            Priority::Normal,
            final(s)@,
            *final(ids),
            paging::mem(final(frames), final(bytes)@),
            r,
        ),
{
    lemma_born(
        old(s)@,
        *old(ids),
        paging::mem(old(frames), old(bytes)@),
        entry,
        name.spec_bytes(),
        Priority::Normal,
        final(s)@,
        *final(ids),
        paging::mem(final(frames), final(bytes)@),
        r,
    );
}

/// The thread in slot `i` has ended, and is not the one whose stack is in use.
pub open spec fn gone(a: Tasks, i: int) -> bool {
    i != a.current && (a.threads[i] matches Some(t) && t.state == TaskState::Dead)
}

/// Frame `f` belongs to the stack of a thread that is gone.
pub open spec fn of_gone_stack(a: Tasks, n: int, f: int) -> bool {
    exists|i: int|
        0 <= i < n && #[trigger] gone(a, i) && 16_384 <= a.threads[i]->0.kernel_stack
            && a.threads[i]->0.kernel_stack as int / 4096 <= 131_072 && a.threads[i]->0.kernel_stack as int
            / 4096 - 4 <= f < a.threads[i]->0.kernel_stack as int / 4096
}

pub proof fn lemma_reaping(a: Tasks, f: crate::memory::phys::Frames, n: int)
    requires
        a.wf(),
        f.used.len() == 131_072,
        0 <= n <= 64,
    ensures
        ({
            let (b, g) = a.reaped(f, n);
            &&& b.threads.len() == 64
            &&& b.sleep_until.len() == 64
            &&& b.current == a.current
            &&& b.ticks == a.ticks
            &&& b.active == a.active
            &&& g.total == f.total
            &&& g.used.len() == 131_072
            &&& forall|i: int|
                0 <= i < 64 ==> #[trigger] b.threads[i] == (if i < n && gone(a, i) {
                    None
                } else {
                    a.threads[i]
                })
            &&& forall|i: int|
                0 <= i < 64 ==> #[trigger] b.sleep_until[i] == (if i < n && gone(a, i) {
                    0
                } else {
                    a.sleep_until[i]
                })
            &&& forall|k: int|
                0 <= k < 131_072 ==> #[trigger] g.used[k] == (f.used[k] && !of_gone_stack(a, n, k))
        }),
    decreases n,
{
    if n > 0 {
        lemma_reaping(a, f, n - 1);
        let (b, g) = a.reaped(f, n);
        let (b1, g1) = a.reaped(f, n - 1);
        assert forall|k: int| 0 <= k < 131_072 implies #[trigger] g.used[k] == (f.used[k]
            && !of_gone_stack(a, n, k)) by {
            assert(g1.used[k] == (f.used[k] && !of_gone_stack(a, n - 1, k)));
            if of_gone_stack(a, n, k) {
                let i = choose|i: int|
                    0 <= i < n && #[trigger] gone(a, i) && 16_384 <= a.threads[i]->0.kernel_stack
                        && a.threads[i]->0.kernel_stack as int / 4096 <= 131_072
                        && a.threads[i]->0.kernel_stack as int / 4096 - 4 <= k
                        < a.threads[i]->0.kernel_stack as int / 4096;
                if i < n - 1 {
                    assert(of_gone_stack(a, n - 1, k));
                }
            }
            if gone(a, n - 1) {
                assert(a.over(n - 1));
            }
        }
    }
}

/// Reaping takes the threads that have ended out of their slots, gives back the
/// frames of their stacks, and touches no other thread and no other frame.
pub proof fn law_reaping_takes_the_dead_alone(s: &mut Scheduler, frames: &mut FrameAllocator)
    requires
        old(s).wf(),
        old(frames).wf(),
        call_ensures(scheduler::reap_dead_threads, (s, frames), ()),
    ensures
        forall|i: int|
            0 <= i < 64 ==> #[trigger] final(s).threads@[i] == (if gone(old(s)@, i) {
                None
            } else {
                old(s).threads@[i]
            }),
        forall|i: int|
            0 <= i < 64 && !gone(old(s)@, i) ==> #[trigger] final(s).sleep_until@[i] == old(s).sleep_until@[i],
        final(s).current_thread == old(s).current_thread,
        forall|f: int|
            0 <= f < 131_072 ==> #[trigger] final(frames)@.used[f] == (old(frames)@.used[f]
                && !of_gone_stack(old(s)@, 64, f)),
{
    let a = old(s)@;
    let b = final(s)@;
    assert((b, final(frames)@) == a.reaped(old(frames)@, 64));
    assert(b.threads == final(s).threads@ && b.sleep_until == final(s).sleep_until@);
    assert(b.current == final(s).current_thread);
    lemma_reaping(a, old(frames)@, 64);
}

/// The threads stay in order once a process has ended.
pub proof fn lemma_ended(v: Tasks, pid: Pid)
    requires
        v.wf(),
        pid != 0,
    ensures
        v.ended(pid).wf(),
{
    let b = v.ended(pid);
    search::lemma_count_same(
        64,
        |j: int| scheduler::of_kernel(v.threads[j]),
        |j: int| scheduler::of_kernel(b.threads[j]),
    );
}

/// How many threads of the kernel in the first `n` slots are gone.
pub open spec fn kernel_gone(a: Tasks, n: int) -> int
    decreases n,
{
    if n <= 0 {
        0
    } else {
        kernel_gone(a, n - 1) + if gone(a, n - 1) && a.threads[n - 1]->0.pid == 0 {
            1int
        } else {
            0
        }
    }
}

/// From `a` to `b` the process of the kernel, the first one, counts `n` threads fewer, but
/// not less than none. Every other process stays.
pub open spec fn counts_fewer(a: Tasks, b: Tasks, n: int) -> bool {
    &&& b.processes.len() == 16
    &&& forall|i: int| 0 < i < 16 ==> #[trigger] b.processes[i] == a.processes[i]
    &&& a.processes[0] is None ==> b.processes[0] is None
    &&& a.processes[0] matches Some(p) ==> (b.processes[0] matches Some(q) && q == (
    crate::task::Process { thread_count: q.thread_count, ..p }) && q.thread_count == (if n
        < p.thread_count {
        p.thread_count - n
    } else {
        0
    }))
}

proof fn lemma_counts_fewer(a: Tasks, f: Frames, n: int)
    requires
        a.threads.len() == 64,
        a.processes.len() == 16,
        0 <= n <= 64,
    ensures
        counts_fewer(a, a.reaped(f, n).0, kernel_gone(a, n)),
        a.reaped(f, n).0.threads.len() == 64,
        forall|i: int| n <= i < 64 ==> #[trigger] a.reaped(f, n).0.threads[i] == a.threads[i],
        0 <= kernel_gone(a, n),
    decreases n,
{
    if n > 0 {
        lemma_counts_fewer(a, f, n - 1);
        let (t, g) = a.reaped(f, n - 1);
        assert(t.threads[n - 1] == a.threads[n - 1]);
        assert(a.over(n - 1) == gone(a, n - 1));
    }
}

/// The process of the kernel counts its threads: one more with each that is made, and one
/// fewer with each that was taken out. Every other process stays.
pub proof fn law_kernel_counts_its_threads(
    s: &mut Scheduler,
    frames: &mut FrameAllocator,
    s2: &mut Scheduler,
    ids: &mut TaskIds,
    frames2: &mut FrameAllocator,
    bytes: &mut [u8],
    entry: u64,
    name: &str,
    priority: Priority,
    r: Option<Tid>,
)
    requires
        old(s).wf(),
        old(s2).wf(),
        call_ensures(scheduler::reap_dead_threads, (s, frames), ()),
        call_ensures(
            scheduler::spawn_kernel_thread_with_priority,
            (s2, ids, frames2, bytes, entry, name, priority),
            r,
        ),
    ensures
        counts_fewer(old(s)@, final(s)@, kernel_gone(old(s)@, 64)),
        r is None ==> final(s2)@.processes == old(s2)@.processes,
        r is Some ==> (old(s2)@.processes[0] matches Some(p) ==> (
        final(s2)@.processes[0] matches Some(q) && q.pid == p.pid && q.cr3 == p.cr3
            && q.thread_count == p.thread_count + 1)),
        forall|i: int|
            0 < i < 16 ==> #[trigger] final(s2)@.processes[i] == old(s2)@.processes[i],
{
    let a = old(s)@;
    assert((final(s)@, final(frames)@) == a.reaped(old(frames)@, 64));
    lemma_counts_fewer(a, old(frames)@, 64);
    reveal(scheduler::spawned);
    assert(scheduler::spawned(
        old(s2)@,
        *old(ids),
        paging::mem(old(frames2), old(bytes)@),
        entry,
        name.spec_bytes(),
        priority,
        final(s2)@,
        *final(ids),
        paging::mem(final(frames2), final(bytes)@),
        r,
    ));
    let v = old(s2)@;
    search::lemma_first(64, |i: int| v.threads[i] is None);
    search::lemma_count_bound(64, |i: int| scheduler::of_kernel(v.threads[i]));
}

/// Ending a process ends each of its threads and takes it from the processes. The
/// threads and processes with other numbers stay.
pub proof fn law_ending_a_process_ends_its_threads(s: &mut Scheduler, pid: Pid)
    requires
        old(s).wf(),
        call_ensures(scheduler::end_process, (s, pid), ()),
    ensures
        forall|i: int|
            0 <= i < 64 ==> #[trigger] final(s).threads@[i] == (if (
            old(s).threads@[i] matches Some(t) && t.pid == pid) {
                Some(Thread { state: TaskState::Dead, ..old(s).threads@[i]->0 })
            } else {
                old(s).threads@[i]
            }),
        forall|i: int|
            0 <= i < 16 ==> #[trigger] final(s).processes@[i] == (if (
            old(s).processes@[i] matches Some(p) && p.pid == pid) {
                None
            } else {
                old(s).processes@[i]
            }),
        final(s).current_thread == old(s).current_thread,
{
    let b = final(s)@;
    assert(b.threads == final(s).threads@ && b.processes == final(s).processes@);
    assert(b.current == final(s).current_thread);
}

/// The stack pointer of a thread that was switched away from is kept with that
/// thread, and nothing else changes.
pub proof fn law_stack_pointer_is_kept(s: &mut Scheduler, idx: usize, rsp: u64)
    requires
        old(s).wf(),
        idx < 64,
        call_ensures(scheduler::save_rsp, (s, idx, rsp), ()),
    ensures
        forall|i: int|
            0 <= i < 64 && i != idx ==> #[trigger] final(s).threads@[i] == old(s).threads@[i],
        match (old(s).threads@[idx as int], final(s).threads@[idx as int]) {
            (Some(t), Some(u)) => {
                &&& u.context.rsp == rsp
                &&& u.context == (crate::task::CpuContext { rsp, ..t.context })
                &&& u == (Thread { context: u.context, ..t })
            },
            (None, None) => true,
            _ => false,
        },
        final(s).current_thread == old(s).current_thread,
        final(s).sleep_until@ == old(s).sleep_until@,
{
    let a = old(s)@;
    let b = final(s)@;
    assert(b.threads == final(s).threads@ && b.sleep_until == final(s).sleep_until@);
    assert(b.current == final(s).current_thread);
}

/// The numbers of the current thread and its process are those in its slot.
pub proof fn law_current_numbers_are_those_of_its_slot(s: Scheduler, pid: u64, tid: u64)
    requires
        s.wf(),
        call_ensures(scheduler::current_pid, (&s,), pid),
        call_ensures(scheduler::current_tid, (&s,), tid),
    ensures
        s.current_thread < 0 ==> pid == 0 && tid == 0,
        s.current_thread >= 0 ==> (s.threads@[s.current_thread as int] matches Some(t) && t.pid
            == pid && t.tid == tid),
{
}

/// Starting the scheduler makes its caller the idle thread of the kernel process,
/// in the first slots, and leaves the other slots.
pub proof fn law_scheduler_starts_with_the_idle_thread(s: &mut Scheduler)
    requires
        call_ensures(scheduler::init, (s,), ()),
    ensures
        final(s).active,
        final(s).current_thread == 0,
        final(s).threads@[0] matches Some(t) && t.tid == 0 && t.pid == 0 && t.state
            == TaskState::Running && t.priority == Priority::Idle && holds_name(
            t.name@,
            "idle".spec_bytes(),
        ),
        final(s).processes@[0] matches Some(p) && p.pid == 0 && p.cr3 == 0 && p.thread_count == 1
            && holds_name(p.name@, "kernel".spec_bytes()),
        forall|i: int| 0 < i < 64 ==> #[trigger] final(s).threads@[i] == old(s).threads@[i],
        forall|i: int| 0 < i < 16 ==> #[trigger] final(s).processes@[i] == old(s).processes@[i],
{
    let b = final(s)@;
    assert(scheduler::is_started(old(s)@, b));
    assert(b.threads == final(s).threads@ && b.processes == final(s).processes@);
    assert(b.current == final(s).current_thread && b.active == final(s).active);
}

/// The thread in slot `i` has not ended.
pub open spec fn lives(a: Tasks, i: int) -> bool {
    a.threads[i] matches Some(t) && t.state != TaskState::Dead
}

proof fn lemma_listed(a: Tasks, n: nat)
    ensures
        forall|k: int|
            0 <= k < a.listed(n).len() ==> 0 <= #[trigger] a.listed(n)[k] < n && lives(
                a,
                a.listed(n)[k],
            ),
        forall|j: int, k: int|
            0 <= j < k < a.listed(n).len() ==> #[trigger] a.listed(n)[j] < #[trigger] a.listed(n)[k],
        forall|i: int| 0 <= i < n && #[trigger] lives(a, i) ==> a.listed(n).contains(i),
    decreases n,
{
    if n > 0 {
        lemma_listed(a, (n - 1) as nat);
        let l = a.listed(n);
        let l1 = a.listed((n - 1) as nat);
        assert forall|i: int| 0 <= i < n && #[trigger] lives(a, i) implies l.contains(i) by {
            if i < n - 1 {
                let k = l1.index_of(i);
                assert(l[k] == i);
            } else {
                assert(l[l1.len() as int] == i);
            }
        }
    }
}

/// The text for a state.
pub open spec fn state_words(s: TaskState) -> Seq<char> {
    match s {
        TaskState::Created => "created"@,
        TaskState::Ready => "ready  "@,
        TaskState::Running => "RUNNING"@,
        TaskState::Blocked => "blocked"@,
        TaskState::Dead => "dead   "@,
    }
}

/// The text for a priority.
pub open spec fn priority_words(p: Priority) -> Seq<char> {
    match p {
        Priority::Idle => "idle"@,
        Priority::Low => "low "@,
        Priority::Normal => "norm"@,
        Priority::High => "high"@,
        Priority::Realtime => "rt  "@,
    }
}

/// The list of threads has one line for each thread that has not ended, in the order
/// of the slots, with what its slot holds.
pub proof fn law_every_living_thread_is_listed(s: Scheduler, r: Vec<ThreadRow>)
    requires
        s.wf(),
        call_ensures(scheduler::list_threads, (&s,), r),
    ensures
        exists|at: Seq<int>| #[trigger]
            is_order(at, s@) && at.len() == r@.len() && forall|k: int|
                0 <= k < r@.len() ==> {
                    let t = s.threads@[at[k]]->0;
                    &&& (#[trigger] r@[k]).current == (at[k] == s.current_thread)
                    &&& r@[k].tid == t.tid
                    &&& r@[k].pid == t.pid
                    &&& r@[k].state@ == state_words(t.state)
                    &&& r@[k].priority@ == priority_words(t.priority)
                },
{
    let at = s@.listed(64);
    lemma_listed(s@, 64);
    assert(is_order(at, s@));
    assert forall|k: int| 0 <= k < r@.len() implies {
        let t = s.threads@[at[k]]->0;
        &&& (#[trigger] r@[k]).current == (at[k] == s.current_thread)
        &&& r@[k].tid == t.tid
        &&& r@[k].pid == t.pid
        &&& r@[k].state@ == state_words(t.state)
        &&& r@[k].priority@ == priority_words(t.priority)
    } by {
        assert(s@.is_row(r@[k], at[k]));
    }
}

/// The slots of the threads that have not ended, each once, from the lowest up.
pub open spec fn is_order(at: Seq<int>, a: Tasks) -> bool {
    &&& forall|k: int| 0 <= k < at.len() ==> 0 <= #[trigger] at[k] < 64 && lives(a, at[k])
    &&& forall|j: int, k: int| 0 <= j < k < at.len() ==> #[trigger] at[j] < #[trigger] at[k]
    &&& forall|i: int| 0 <= i < 64 && #[trigger] lives(a, i) ==> at.contains(i)
}

} // verus!
