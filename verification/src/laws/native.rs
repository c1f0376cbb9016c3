//! The native interface: what the calls of programs do to objects, files, memory and
//! threads.

use vstd::prelude::*;
use crate::kernel::{Kernel, World};
use crate::memory::paging;
use crate::memory::paging::space;
use crate::memory::phys::FrameAllocator;
use crate::scheduler::{Scheduler, Switch, Tasks};
use crate::task::{TaskState, Thread};
use crate::userspace;
use crate::vfs;
use crate::vfs::{InodeType, Tables, Vfs};
use crate::win32::error;
use crate::win32::files as nt_files;
use crate::win32::ntapi;
use crate::win32::object;
use crate::win32::object::{
    HandleEntry, HandleTable, ObjectBody, ObjectHeader, ObjectPool, ObjectType,
};
use crate::win32::sync;
use crate::win32::types::{HANDLE, IO_STATUS_BLOCK, NTSTATUS, OBJECT_ATTRIBUTES};
use super::files;
use super::objects::{
    handle_gone, handle_made, leads, lemma_object, lemma_place, lemma_released, next_object,
    no_place, only_place, pool_full, stands,
};
use super::spaces;
use super::threads;

verus! {

/// The object without a name that a call has made: one handle leads to it, which is its
/// one reference.
pub open spec fn unnamed(o: Option<ObjectHeader>, kind: ObjectType, body: ObjectBody) -> bool {
    o matches Some(h) && {
        &&& h.object_type == kind
        &&& h.ref_count == 1
        &&& h.handle_count == 1
        &&& h.name_len == 0
        &&& !h.permanent
        &&& h.body == body
    }
}

/// A call has made an object and a handle to it, both in the lowest free place. It fails,
/// without a change, exactly if there is no place for one of the two.
pub open spec fn object_and_handle(
    p: Seq<Option<ObjectHeader>>,
    t: Seq<HandleEntry>,
    kind: ObjectType,
    body: ObjectBody,
    access: u32,
    p2: Seq<Option<ObjectHeader>>,
    t2: Seq<HandleEntry>,
    r: Result<HANDLE, NTSTATUS>,
) -> bool {
    if pool_full(p) || no_place(t) {
        (r matches Err(e) && e.0 == 0xC000_009A) && p2 == p && t2 == t
    } else {
        r matches Ok(h) && exists|i: int|
            {
                &&& #[trigger] next_object(p, i)
                &&& unnamed(p2[i], kind, body)
                &&& only_place(p, p2, i, p2[i])
                &&& handle_made(t, t2, i as u32, access, h)
            }
    }
}

proof fn lemma_object_made(
    p: Seq<Option<ObjectHeader>>,
    t: Seq<HandleEntry>,
    kind: ObjectType,
    body: ObjectBody,
    access: u32,
)
    requires
        p.len() == 1024,
        t.len() == 256,
    ensures
        ({
            let (p2, t2, r) = ntapi::object_made(p, t, kind, body, access);
            object_and_handle(p, t, kind, body, access, p2, t2, r)
        }),
{
    let (p2, t2, r) = ntapi::object_made(p, t, kind, body, access);
    lemma_object(p);
    lemma_place(t);
    if !pool_full(p) && !no_place(t) {
        let i = object::free_object(p)->0 as int;
        assert(next_object(p, i));
        assert(unnamed(p2[i], kind, body));
        assert(handle_made(t, t2, i as u32, access, r->Ok_0));
    }
}

/// A new event is set exactly if that was asked for, and resets itself unless it is to be
/// reset by hand. See `object_and_handle`.
pub proof fn law_new_event_is_as_asked_for(
    pool: &mut ObjectPool,
    table: &mut HandleTable,
    access: u32,
    attrs: Option<&OBJECT_ATTRIBUTES>,
    manual: bool,
    set: bool,
    r: Result<HANDLE, NTSTATUS>,
)
    requires
        call_ensures(ntapi::nt_create_event, (pool, table, access, attrs, manual, set), r),
    ensures
        object_and_handle(
            old(pool).objects@,
            old(table).entries@,
            ObjectType::Event,
            ObjectBody::Event { manual_reset: manual, signaled: set },
            access,
            final(pool).objects@,
            final(table).entries@,
            r,
        ),
{
    let body = ObjectBody::Event { manual_reset: manual, signaled: set };
    assert(old(pool).objects@.len() == 1024 && old(table).entries@.len() == 256);
    assert((final(pool).objects@, final(table).entries@, r) == ntapi::object_made(
        old(pool).objects@,
        old(table).entries@,
        ObjectType::Event,
        body,
        access,
    ));
    lemma_object_made(old(pool).objects@, old(table).entries@, ObjectType::Event, body, access);
}

/// A new mutex is free, or held once by the thread that makes it, as was asked for. See
/// `object_and_handle`.
pub proof fn law_new_mutex_is_free_or_held_by_its_maker(
    pool: &mut ObjectPool,
    table: &mut HandleTable,
    tasks: &Scheduler,
    access: u32,
    attrs: Option<&OBJECT_ATTRIBUTES>,
    owned: bool,
    r: Result<HANDLE, NTSTATUS>,
)
    requires
        tasks.wf(),
        tasks.current_thread >= 0,
        call_ensures(ntapi::nt_create_mutant, (pool, table, tasks, access, attrs, owned), r),
    ensures
        object_and_handle(
            old(pool).objects@,
            old(table).entries@,
            ObjectType::Mutant,
            if owned {
                ObjectBody::Mutant {
                    owner_tid: tasks.threads@[tasks.current_thread as int]->0.tid,
                    recursion_count: 1,
                    signaled: false,
                }
            } else {
                ObjectBody::Mutant { owner_tid: 0, recursion_count: 0, signaled: true }
            },
            access,
            final(pool).objects@,
            final(table).entries@,
            r,
        ),
{
    let body = if owned {
        ObjectBody::Mutant {
            owner_tid: tasks.threads@[tasks.current_thread as int]->0.tid,
            recursion_count: 1,
            signaled: false,
        }
    } else {
        ObjectBody::Mutant { owner_tid: 0, recursion_count: 0, signaled: true }
    };
    assert(old(pool).objects@.len() == 1024 && old(table).entries@.len() == 256);
    assert(tasks@.threads == tasks.threads@ && tasks@.current == tasks.current_thread);
    assert((final(pool).objects@, final(table).entries@, r) == ntapi::object_made(
        old(pool).objects@,
        old(table).entries@,
        ObjectType::Mutant,
        body,
        access,
    ));
    lemma_object_made(old(pool).objects@, old(table).entries@, ObjectType::Mutant, body, access);
}

/// A new section has the size that was asked for. See `object_and_handle`.
pub proof fn law_new_section_has_its_size(
    pool: &mut ObjectPool,
    table: &mut HandleTable,
    access: u32,
    attrs: Option<&OBJECT_ATTRIBUTES>,
    size: u64,
    protection: u32,
    kind: u32,
    file: HANDLE,
    r: Result<HANDLE, NTSTATUS>,
)
    requires
        call_ensures(
            ntapi::nt_create_section,
            (pool, table, access, attrs, size, protection, kind, file),
            r,
        ),
    ensures
        object_and_handle(
            old(pool).objects@,
            old(table).entries@,
            ObjectType::Section,
            ObjectBody::Section { base_address: 0, size },
            access,
            final(pool).objects@,
            final(table).entries@,
            r,
        ),
{
    let body = ObjectBody::Section { base_address: 0, size };
    assert(old(pool).objects@.len() == 1024 && old(table).entries@.len() == 256);
    assert((final(pool).objects@, final(table).entries@, r) == ntapi::object_made(
        old(pool).objects@,
        old(table).entries@,
        ObjectType::Section,
        body,
        access,
    ));
    lemma_object_made(old(pool).objects@, old(table).entries@, ObjectType::Section, body, access);
}

/// A key that is opened has an object and a handle. See `object_and_handle`.
pub proof fn law_opened_key_has_a_handle(
    pool: &mut ObjectPool,
    table: &mut HandleTable,
    access: u32,
    attrs: &OBJECT_ATTRIBUTES,
    r: Result<HANDLE, NTSTATUS>,
)
    requires
        call_ensures(ntapi::nt_open_key, (pool, table, access, attrs), r),
    ensures
        object_and_handle(
            old(pool).objects@,
            old(table).entries@,
            ObjectType::Key,
            ObjectBody::Key { path: [0u8; object::OBJECT_PATH_SIZE], path_len: 0 },
            access,
            final(pool).objects@,
            final(table).entries@,
            r,
        ),
{
    let body = ObjectBody::Key { path: [0u8; object::OBJECT_PATH_SIZE], path_len: 0 };
    assert(old(pool).objects@.len() == 1024 && old(table).entries@.len() == 256);
    assert((final(pool).objects@, final(table).entries@, r) == ntapi::object_made(
        old(pool).objects@,
        old(table).entries@,
        ObjectType::Key,
        body,
        access,
    ));
    lemma_object_made(old(pool).objects@, old(table).entries@, ObjectType::Key, body, access);
}

/// A handle that is closed leads nowhere afterwards and takes its reference along, see
/// `handle_gone`; no other handle changes. One that leads nowhere or is protected is
/// refused without a change.
pub proof fn law_closed_handle_is_gone(
    pool: &mut ObjectPool,
    table: &mut HandleTable,
    h: HANDLE,
    r: NTSTATUS,
)
    requires
        call_ensures(ntapi::nt_close, (pool, table, h), r),
    ensures
        ({
            let p = old(pool).objects@;
            let t = old(table).entries@;
            let e = t[h.0 as int / 4];
            &&& !leads(t, h) ==> r.0 == 0xC000_0008 && final(pool).objects@ == p && final(table).entries@ == t
            &&& leads(t, h) && e.protect ==> r.0 == 0xC000_0235 && final(pool).objects@ == p
                && final(table).entries@ == t
            &&& leads(t, h) && !e.protect ==> {
                &&& handle_gone(p, final(pool).objects@, e.object_index, r.0)
                &&& !leads(final(table).entries@, h)
                &&& forall|j: int|
                    0 <= j < 256 && j != h.0 as int / 4 ==> #[trigger] final(table).entries@[j]
                        == t[j]
            }
        }),
{
    let p = old(pool).objects@;
    let t = old(table).entries@;
    assert((final(pool).objects@, final(table).entries@, r.0) == object::closed(p, t, h));
    lemma_released(p, t[h.0 as int / 4].object_index);
}

/// A thread gets what it waits for, and the object changes from `b` to `c`: an event that
/// is set, and no longer is if it resets itself; a mutex that is free or that the thread
/// holds itself, which it holds once more; a semaphore with a unit left, which has one
/// less; a process or a thread that has ended.
pub open spec fn gets(b: ObjectBody, c: ObjectBody, tid: u64) -> bool {
    match b {
        ObjectBody::Event { manual_reset, signaled } => signaled && c == (ObjectBody::Event {
            manual_reset,
            signaled: manual_reset,
        }),
        ObjectBody::Mutant { owner_tid, recursion_count, signaled } => {
            ||| signaled && recursion_count < u32::MAX && c == (ObjectBody::Mutant {
                owner_tid: tid,
                recursion_count: 1,
                signaled: false,
            })
            ||| !signaled && owner_tid == tid && 0 < recursion_count < u32::MAX && c == (
            ObjectBody::Mutant {
                owner_tid: tid,
                recursion_count: (recursion_count + 1) as u32,
                signaled: false,
            })
        },
        ObjectBody::Semaphore { current_count, maximum_count } => current_count > 0 && c == (
        ObjectBody::Semaphore { current_count: (current_count - 1) as u32, maximum_count }),
        ObjectBody::Process { terminated, .. } => terminated && c == b,
        ObjectBody::Thread { terminated, .. } => terminated && c == b,
        _ => false,
    }
}

/// Nobody can wait for an object of this kind.
pub open spec fn no_wait(b: ObjectBody) -> bool {
    b is Nothing || b is File || b is Key || b is Section
}

/// The thread of the current slot sleeps for some ticks, and the processor is handed on;
/// with no ticks it is only handed on.
pub open spec fn sleeps(a: Tasks, b: Tasks, n: u64, r: Option<Switch>) -> bool {
    if n == 0 {
        threads::handed_on(a, b, r)
    } else {
        exists|s: Tasks| #[trigger]
            threads::set_aside(a, s, TaskState::Blocked, threads::later(a.ticks, n))
                && threads::handed_on(s, b, r)
    }
}

proof fn lemma_sleeps(a: Tasks, n: u64)
    requires
        a.wf(),
        a.current >= 0,
    ensures
        sleeps(a, crate::clock::paused(a, n).0, n, crate::clock::paused(a, n).1),
{
    if n == 0 {
        threads::lemma_handed_on(a);
    } else {
        let cur = a.current as int;
        let until: u64 = if a.ticks + n <= u64::MAX {
            (a.ticks + n) as u64
        } else {
            u64::MAX
        };
        let s = (Tasks { sleep_until: a.sleep_until.update(cur, until), ..a }).with_state(
            cur,
            TaskState::Blocked,
        );
        assert(threads::set_aside(a, s, TaskState::Blocked, threads::later(a.ticks, n)));
        threads::lemma_in_order(a, s);
        threads::lemma_handed_on(s);
    }
}

/// A wait looks at the object of the handle. A thread that can get it does, see `gets`, and
/// goes on; one that cannot fails if no time is left, and otherwise sleeps until the next
/// tick. A handle without an object, and an object that nobody can wait for, are refused.
/// No other object changes.
pub proof fn law_wait_is_over_when_the_object_is_free(
    pool: &mut ObjectPool,
    table: &HandleTable,
    tasks: &mut Scheduler,
    h: HANDLE,
    alertable: bool,
    timeout: Option<i64>,
    r: (NTSTATUS, Option<Switch>),
)
    requires
        old(tasks).wf(),
        old(tasks).current_thread >= 0,
        call_ensures(
            ntapi::nt_wait_for_single_object,
            (pool, table, tasks, h, alertable, timeout),
            r,
        ),
    ensures
        ({
            let p = old(pool).objects@;
            let p2 = final(pool).objects@;
            let i = table.entries@[h.0 as int / 4].object_index;
            let there = leads(table.entries@, h) && stands(p, i);
            let o = p[i as int]->0;
            let tid = old(tasks).threads@[old(tasks).current_thread as int]->0.tid;
            let can = exists|c: ObjectBody| #[trigger] gets(o.body, c, tid);
            &&& !there ==> r.0.0 == 0xC000_0008 && r.1 is None && p2 == p && final(tasks)@ == old(tasks)@
            &&& there && no_wait(o.body) ==> r.0.0 == 0xC000_0024 && r.1 is None && p2 == p
                && final(tasks)@ == old(tasks)@
            &&& there && can ==> {
                &&& r.0.0 == 0
                &&& r.1 is None
                &&& final(tasks)@ == old(tasks)@
                &&& exists|c: ObjectBody| #[trigger]
                    gets(o.body, c, tid) && only_place(
                        p,
                        p2,
                        i as int,
                        Some(ObjectHeader { body: c, ..o }),
                    )
            }
            &&& there && !no_wait(o.body) && !can && timeout == Some(0i64) ==> r.0.0 == 0x102
                && r.1 is None && p2 == p && final(tasks)@ == old(tasks)@
            &&& there && !no_wait(o.body) && !can && timeout != Some(0i64) ==> r.0.0 == 0x103 && p2
                == p && sleeps(old(tasks)@, final(tasks)@, 1, r.1)
        }),
{
    let p = old(pool).objects@;
    let v = old(tasks)@;
    let i = table.entries@[h.0 as int / 4].object_index;
    let tid = old(tasks).threads@[old(tasks).current_thread as int]->0.tid;
    assert(v.threads == old(tasks).threads@ && v.current == old(tasks).current_thread);
    assert(sync::running_tid(v) == tid);
    assert((final(pool).objects@, final(tasks)@, r.0.0, r.1) == sync::waited(
        p,
        table.entries@,
        v,
        h,
        timeout,
    ));
    lemma_sleeps(v, 1);
    if leads(table.entries@, h) && stands(p, i) {
        let o = p[i as int]->0;
        if sync::signaled(o.body, tid) {
            assert(gets(o.body, sync::acquired(o.body, tid), tid));
        }
        if exists|c: ObjectBody| #[trigger] gets(o.body, c, tid) {
            assert(sync::signaled(o.body, tid));
        }
    }
}

/// After a tick a wait has 549,451 steps of 100 nanoseconds less time left, but not less
/// than none; a wait without an end stays one.
pub proof fn law_time_of_a_wait_runs_out(timeout: Option<i64>, r: Option<i64>)
    requires
        call_ensures(sync::time_left, (timeout,), r),
    ensures
        timeout is None ==> r is None,
        timeout matches Some(t) ==> (r matches Some(u) && (t > 549_451 ==> u == t - 549_451) && (t
            <= 549_451 ==> u == 0)),
{
}

/// A delay lets the thread sleep for the ticks that cover it, 91 in five seconds: a
/// negative one from now on, another one from the start of the clock.
pub proof fn law_delay_covers_its_time(
    tasks: &mut Scheduler,
    alertable: bool,
    delay: i64,
    r: (NTSTATUS, Option<Switch>),
)
    requires
        old(tasks).wf(),
        old(tasks).current_thread >= 0,
        call_ensures(ntapi::nt_delay_execution, (tasks, alertable, delay), r),
    ensures
        r.0.0 == 0,
        exists|n: u64| #[trigger]
            sleeps(old(tasks)@, final(tasks)@, n, r.1) && (delay < 0 ==> -91 * delay <= n
                * 50_000_000 < -91 * delay + 50_000_000) && (delay >= 0 && n > 0 ==> 91 * delay <= (
            old(tasks).tick_count + n) * 50_000_000 < 91 * delay + 50_000_000) && (delay >= 0 && n
                == 0 ==> 91 * delay <= old(tasks).tick_count * 50_000_000),
{
    let v = old(tasks)@;
    let n = ntapi::delay_ticks(old(tasks).tick_count, delay);
    assert(v.current == old(tasks).current_thread);
    assert(0 <= n <= u64::MAX);
    assert((final(tasks)@, r.1) == crate::clock::paused(v, n as u64));
    lemma_sleeps(v, n as u64);
    assert(sleeps(v, final(tasks)@, n as u64, r.1));
}

/// The object of an ended process, and that of each of its threads, holds the exit code and
/// says that it has ended; every other object stays.
pub open spec fn end_is_told(o: Option<ObjectHeader>, u: Option<ObjectHeader>, pid: u64, code: u32) -> bool {
    match o {
        Some(h) => match h.body {
            ObjectBody::Process { pid: p, .. } => if p == pid {
                u == Some(
                    ObjectHeader {
                        body: ObjectBody::Process { pid, exit_code: code, terminated: true },
                        ..h
                    },
                )
            } else {
                u == o
            },
            ObjectBody::Thread { tid, owner_pid, .. } => if owner_pid == pid {
                u == Some(
                    ObjectHeader {
                        body: ObjectBody::Thread {
                            tid,
                            owner_pid: pid,
                            exit_code: code,
                            terminated: true,
                        },
                        ..h
                    },
                )
            } else {
                u == o
            },
            _ => u == o,
        },
        None => u is None,
    }
}

/// Every thread of a process has ended, the process has left the table, and every other
/// thread and process stays.
pub open spec fn all_ended(a: Tasks, b: Tasks, pid: u64) -> bool {
    &&& b == (Tasks { threads: b.threads, processes: b.processes, ..a })
    &&& b.threads.len() == 64
    &&& b.processes.len() == 16
    &&& forall|i: int|
        0 <= i < 64 ==> #[trigger] b.threads[i] == (if (a.threads[i] matches Some(t) && t.pid
            == pid) {
            Some(Thread { state: TaskState::Dead, ..a.threads[i]->0 })
        } else {
            a.threads[i]
        })
    &&& forall|i: int|
        0 <= i < 16 ==> #[trigger] b.processes[i] == (if (a.processes[i] matches Some(p) && p.pid
            == pid) {
            None
        } else {
            a.processes[i]
        })
}

/// A process that ends another one: all of its threads have ended, the objects say so, and
/// the handles and the processor stay with the caller.
pub proof fn law_ended_process_is_told_to_its_objects(
    pool: &mut ObjectPool,
    table: &mut HandleTable,
    tasks: &mut Scheduler,
    h: HANDLE,
    status: NTSTATUS,
    pid: u64,
    r: (NTSTATUS, Option<Switch>),
)
    requires
        old(tasks).wf(),
        old(tasks).current_thread >= 0,
        h.0 != usize::MAX,
        leads(old(table).entries@, h),
        stands(old(pool).objects@, old(table).entries@[h.0 as int / 4].object_index),
        old(pool).objects@[old(table).entries@[h.0 as int
            / 4].object_index as int]->0.body matches ObjectBody::Process { pid: p, .. } && p == pid,
        pid != 0,
        pid != old(tasks).threads@[old(tasks).current_thread as int]->0.pid,
        call_ensures(ntapi::nt_terminate_process, (pool, table, tasks, h, status), r),
    ensures
        r.0.0 == 0,
        r.1 is None,
        final(table).entries@ == old(table).entries@,
        final(pool).objects@.len() == 1024,
        forall|i: int|
            0 <= i < 1024 ==> end_is_told(
                old(pool).objects@[i],
                #[trigger] final(pool).objects@[i],
                pid,
                status.0,
            ),
        all_ended(old(tasks)@, final(tasks)@, pid),
{
    let v = old(tasks)@;
    assert(v.threads == old(tasks).threads@ && v.current == old(tasks).current_thread);
    assert(old(pool).objects@.len() == 1024);
    assert((final(pool).objects@, final(table).entries@, final(tasks)@, r.0.0, r.1)
        == sync::process_ended(old(pool).objects@, old(table).entries@, v, h, status.0));
    assert(final(pool).objects@ == sync::all_told(old(pool).objects@, pid, status.0));
}

/// How many of the handles in the first `n` places lead to an object.
pub open spec fn handles_to(t: Seq<HandleEntry>, i: int, n: int) -> int
    decreases n,
{
    if n <= 1 {
        0
    } else if t[n - 1].object_index == i {
        handles_to(t, i, n - 1) + 1
    } else {
        handles_to(t, i, n - 1)
    }
}

/// The object loses as many references as handles to it were closed, and goes if none is
/// left, unless it is permanent.
pub open spec fn lost_handles(o: Option<ObjectHeader>, u: Option<ObjectHeader>, k: int) -> bool {
    o matches Some(h) ==> h.ref_count >= k ==> {
        &&& h.ref_count == k && k > 0 && !h.permanent ==> u is None
        &&& h.ref_count > k || k == 0 || h.permanent ==> (u matches Some(w) && w.ref_count
            == h.ref_count - k && w.body == h.body && w.object_type == h.object_type && w.name
            == h.name && w.permanent == h.permanent)
    }
}

proof fn lemma_all_closed(p: Seq<Option<ObjectHeader>>, t: Seq<HandleEntry>, n: int)
    requires
        p.len() == 1024,
        t.len() == 256,
        1 <= n <= 256,
    ensures
        ({
            let (q, u) = sync::all_closed(p, t, n);
            &&& q.len() == 1024
            &&& u.len() == 256
            &&& forall|j: int| 1 <= j < n ==> (#[trigger] u[j]).object_index == 0xFFFF_FFFF
            &&& forall|j: int| n <= j < 256 ==> #[trigger] u[j] == t[j]
            &&& forall|i: int|
                0 <= i < 1024 ==> lost_handles(p[i], #[trigger] q[i], handles_to(t, i, n))
            &&& forall|i: int|
                0 <= i < 1024 && p[i] is None ==> (#[trigger] q[i]) is None
        }),
    decreases n,
{
    if n > 1 {
        lemma_all_closed(p, t, n - 1);
        let (q0, u0) = sync::all_closed(p, t, n - 1);
        let (q, u) = sync::all_closed(p, t, n);
        let x = t[n - 1].object_index;
        assert forall|i: int| 0 <= i < 1024 implies lost_handles(
            p[i],
            #[trigger] q[i],
            handles_to(t, i, n),
        ) by {
            assert(lost_handles(p[i], q0[i], handles_to(t, i, n - 1)));
            lemma_handles_bound(t, i, n - 1);
        }
        assert forall|i: int| 0 <= i < 1024 && p[i] is None implies (#[trigger] q[i]) is None by {
            assert(q0[i] is None);
        }
    }
}

proof fn lemma_handles_bound(t: Seq<HandleEntry>, i: int, n: int)
    ensures
        0 <= handles_to(t, i, n),
    decreases n,
{
    if n > 1 {
        lemma_handles_bound(t, i, n - 1);
    }
}

/// From `p` to `told` the end of a process is told to its objects, and from there to `q` the
/// handles of a table are closed.
pub open spec fn told_and_lost(
    p: Seq<Option<ObjectHeader>>,
    told: Seq<Option<ObjectHeader>>,
    q: Seq<Option<ObjectHeader>>,
    t: Seq<HandleEntry>,
    pid: u64,
    code: u32,
) -> bool {
    &&& told.len() == 1024
    &&& q.len() == 1024
    &&& forall|i: int| 0 <= i < 1024 ==> end_is_told(p[i], #[trigger] told[i], pid, code)
    &&& forall|i: int|
        0 <= i < 1024 ==> lost_handles(#[trigger] told[i], q[i], handles_to(t, i, 256))
}

/// A process that ends itself, by the handle -1 or by one that leads to its own object: all
/// of its threads have ended and the objects say so; every
/// handle is closed, with the reference that it was, and the processor is handed on.
pub proof fn law_process_that_ends_itself_closes_its_handles(
    pool: &mut ObjectPool,
    table: &mut HandleTable,
    tasks: &mut Scheduler,
    h: HANDLE,
    status: NTSTATUS,
    r: (NTSTATUS, Option<Switch>),
)
    requires
        old(tasks).wf(),
        old(tasks).current_thread >= 0,
        h.0 == usize::MAX || leads(old(table).entries@, h) && stands(
            old(pool).objects@,
            old(table).entries@[h.0 as int / 4].object_index,
        ) && (old(pool).objects@[old(table).entries@[h.0 as int
            / 4].object_index as int]->0.body matches ObjectBody::Process { pid: p, .. } && p
            == old(tasks).threads@[old(tasks).current_thread as int]->0.pid),
        old(tasks).threads@[old(tasks).current_thread as int]->0.pid != 0,
        call_ensures(ntapi::nt_terminate_process, (pool, table, tasks, h, status), r),
    ensures
        r.0.0 == 0,
        forall|j: int| 1 <= j < 256 ==> (#[trigger] final(table).entries@[j]).object_index
            == 0xFFFF_FFFF,
        ({
            let pid = old(tasks).threads@[old(tasks).current_thread as int]->0.pid;
            &&& exists|b: Tasks| #[trigger]
                all_ended(old(tasks)@, b, pid) && threads::handed_on(b, final(tasks)@, r.1)
            &&& exists|told: Seq<Option<ObjectHeader>>| #[trigger]
                told_and_lost(
                    old(pool).objects@,
                    told,
                    final(pool).objects@,
                    old(table).entries@,
                    pid,
                    status.0,
                )
        }),
{
    let v = old(tasks)@;
    let pid = old(tasks).threads@[old(tasks).current_thread as int]->0.pid;
    assert(v.threads == old(tasks).threads@ && v.current == old(tasks).current_thread);
    assert(old(pool).objects@.len() == 1024 && old(table).entries@.len() == 256);
    assert((final(pool).objects@, final(table).entries@, final(tasks)@, r.0.0, r.1)
        == sync::process_ended(old(pool).objects@, old(table).entries@, v, h, status.0));
    let told = sync::all_told(old(pool).objects@, pid, status.0);
    lemma_all_closed(told, old(table).entries@, 256);
    let b = v.ended(pid);
    assert(all_ended(v, b, pid));
    threads::lemma_ended(v, pid);
    threads::lemma_handed_on(b);
    assert forall|i: int| 0 <= i < 1024 implies lost_handles(
        #[trigger] told[i],
        final(pool).objects@[i],
        handles_to(old(table).entries@, i, 256),
    ) by {
        assert(final(pool).objects@[i] == sync::all_closed(told, old(table).entries@, 256).0[i]);
    }
    assert(told_and_lost(
        old(pool).objects@,
        told,
        final(pool).objects@,
        old(table).entries@,
        pid,
        status.0,
    ));
}

/// The kernel cannot be ended, and what is no process cannot either; nothing changes then.
pub proof fn law_only_processes_can_be_ended(
    pool: &mut ObjectPool,
    table: &mut HandleTable,
    tasks: &mut Scheduler,
    h: HANDLE,
    status: NTSTATUS,
    r: (NTSTATUS, Option<Switch>),
)
    requires
        old(tasks).wf(),
        old(tasks).current_thread >= 0,
        call_ensures(ntapi::nt_terminate_process, (pool, table, tasks, h, status), r),
    ensures
        ({
            let i = old(table).entries@[h.0 as int / 4].object_index;
            let there = leads(old(table).entries@, h) && stands(old(pool).objects@, i);
            let own = old(tasks).threads@[old(tasks).current_thread as int]->0.pid;
            &&& h.0 == usize::MAX && own == 0 ==> r.0.0 == 0xC000_0022
            &&& h.0 != usize::MAX && !there ==> r.0.0 == 0xC000_0008
            &&& h.0 != usize::MAX && there && !(old(pool).objects@[i as int]->0.body is Process) ==> r.0.0 == 0xC000_0024
            &&& r.0.0 != 0 ==> r.1 is None && final(pool).objects@ == old(pool).objects@ && final(table).entries@ == old(table).entries@ && final(tasks)@ == old(tasks)@
        }),
{
    let v = old(tasks)@;
    assert(v.threads == old(tasks).threads@ && v.current == old(tasks).current_thread);
    assert((final(pool).objects@, final(table).entries@, final(tasks)@, r.0.0, r.1)
        == sync::process_ended(old(pool).objects@, old(table).entries@, v, h, status.0));
}

/// What a program that asks for facts about a process is told: nothing yet.
pub proof fn law_facts_about_processes_are_not_told(
    h: HANDLE,
    class: ntapi::ProcessInfoClass,
    buffer: u64,
    size: u32,
    length: u64,
    r: NTSTATUS,
)
    requires
        call_ensures(
            ntapi::nt_query_information_process,
            (h, class, buffer, size, length),
            r,
        ),
    ensures
        r.0 == 0xC000_0002,
{
}

proof fn lemma_type_bits(f: u32)
    by (bit_vector)
    ensures
        f & 0x1000 != 0 <==> f / 0x1000 % 2 == 1,
        f & 0x4000 != 0 <==> f / 0x4000 % 2 == 1,
        f & 0x8000 != 0 <==> f / 0x8000 % 2 == 1,
{
}

/// Virtual memory that is committed is empty memory afterwards, from the page of the
/// address on up to the end of the size, which is rounded up to pages; other pages lead
/// where they did. The address is 0x1_0000 if none was named. It is granted if there are
/// four free frames for each page. Memory that is only reserved changes nothing.
pub proof fn law_committed_memory_is_empty(
    frames: &mut FrameAllocator,
    bytes: &mut [u8],
    cr3: u64,
    h: HANDLE,
    base: &mut u64,
    size: &mut u64,
    kind: u32,
    protect: u32,
    r: NTSTATUS,
)
    requires
        old(frames).wf(),
        paging::mem(old(frames), old(bytes)@).sane(),
        call_ensures(
            ntapi::nt_allocate_virtual_memory,
            (frames, bytes, cr3, h, base, size, kind, protect),
            r,
        ),
    ensures
        ({
            let m = paging::mem(old(frames), old(bytes)@);
            let at = if *old(base) == 0 {
                0x1_0000
            } else {
                *old(base) as int
            };
            let len = (*old(size) + 4095) / 4096 * 4096;
            let from = at - at % 4096;
            let end = from + (at % 4096 + len + 4095) / 4096 * 4096;
            let commit = kind / 0x1000 % 2 == 1;
            &&& r.0 != 0 ==> *final(base) == *old(base) && *final(size) == *old(size)
            &&& r.0 == 0 ==> *final(base) == at && *final(size) == len
            &&& *old(size) > 0xFFFF_FFFF_FFFF_F000 ==> r.0 == 0xC000_000D
            &&& *old(size) <= 0xFFFF_FFFF_FFFF_F000 && !commit ==> r.0 == 0 && final(bytes)@ == old(bytes)@ && final(frames)@ == old(frames)@
            &&& *old(size) <= 0xFFFF_FFFF_FFFF_F000 && commit && at + len > 0x8000_0000_0000
                ==> r.0 == 0xC000_000D && final(bytes)@ == old(bytes)@
            &&& *old(size) <= 0xFFFF_FFFF_FFFF_F000 && commit && at + len <= 0x8000_0000_0000 ==> {
                &&& r.0 == 0 || r.0 == 0xC000_0017
                &&& m.space_wf(cr3 as int) && r.0 == 0 ==> spaces::finds(
                    final(bytes)@,
                    cr3 as int,
                    from,
                    Seq::empty(),
                    end,
                ) && spaces::kept_outside(old(bytes)@, final(bytes)@, cr3 as int, from, end)
                &&& m.space_wf(cr3 as int) && old(frames)@.free() >= 4 * ((at % 4096 + len + 4095)
                    / 4096) ==> r.0 == 0
            }
        }),
{
    let m = paging::mem(old(frames), old(bytes)@);
    let w = paging::mem(final(frames), final(bytes)@);
    let at: u64 = if *old(base) == 0 {
        0x1_0000
    } else {
        *old(base)
    };
    lemma_type_bits(kind);
    assert((w, *final(base), *final(size), r.0) == ntapi::allocated(
        m,
        cr3,
        *old(base),
        *old(size),
        kind & 0x1000 != 0,
    ));
    assert(w.bytes == final(bytes)@ && w.frames == final(frames)@);
    let len = (*old(size) + 4095) / 4096 * 4096;
    let n = (at % 4096 + len + 4095) / 4096;
    let from = (at - at % 4096) as u64;
    if *old(size) <= 0xFFFF_FFFF_FFFF_F000 && kind / 0x1000 % 2 == 1 && at + len
        <= 0x8000_0000_0000 {
        let f = paging::map_flags(true);
        let e = Seq::<u8>::empty();
        space::lemma_map_flags(true);
        assert(from + 0 * 4096 == from);
        spaces::lemma_region(m, cr3 as int, from, 0, n);
        let (m2, ok) = m.region_mapped(cr3 as int, from as int, n as nat);
        if m.space_wf(cr3 as int) {
            if ok {
                userspace::lemma_pages(m, cr3 as int, from, e, f, 0, n);
                spaces::lemma_kept(m, m2, cr3 as int, from as int, from + n * 4096);
                userspace::law_mapped_pages_hold_the_data(m, cr3 as int, from, e, f, n, m2);
                spaces::lemma_finds(m2, cr3 as int, from, e, from + n * 4096);
            }
            if m.frames.free() >= 4 * n {
                userspace::law_enough_frames_map_every_page(m, cr3 as int, from, e, f, 0, n);
            }
        }
    }
}

/// Virtual memory that is given back leads nowhere afterwards, from the page of the address
/// on up to the end of the size; other pages lead where they did, and the frames of RAM
/// that its pages led to are free. Where neither is asked for, nothing changes. This holds
/// of memory whose pages lead to no page table.
pub proof fn law_memory_given_back_leads_nowhere(
    frames: &mut FrameAllocator,
    bytes: &mut [u8],
    cr3: u64,
    h: HANDLE,
    base: &mut u64,
    size: &mut u64,
    kind: u32,
    r: NTSTATUS,
)
    requires
        old(frames).wf(),
        paging::mem(old(frames), old(bytes)@).sane(),
        call_ensures(
            ntapi::nt_free_virtual_memory,
            (frames, bytes, cr3, h, base, size, kind),
            r,
        ),
    ensures
        ({
            let m = paging::mem(old(frames), old(bytes)@);
            let m2 = paging::mem(final(frames), final(bytes)@);
            let at = *old(base) as int;
            let from = at - at % 4096;
            let end = from + (at % 4096 + *old(size) + 4095) / 4096 * 4096;
            let asked = kind / 0x4000 % 2 == 1 || kind / 0x8000 % 2 == 1;
            &&& *final(base) == *old(base) && *final(size) == *old(size)
            &&& !asked ==> r.0 == 0 && m2 == m
            &&& asked && at + *old(size) > 0x8000_0000_0000 ==> r.0 == 0xC000_001A && m2 == m
            &&& asked && at + *old(size) <= 0x8000_0000_0000 ==> {
                &&& r.0 == 0
                &&& m.space_wf(cr3 as int) && spaces::leads_to_no_table(m, cr3 as int, from, end)
                    ==> spaces::region_gone(m, m2, cr3 as int, from, end)
            }
        }),
{
    let m = paging::mem(old(frames), old(bytes)@);
    let w = paging::mem(final(frames), final(bytes)@);
    let at = *old(base);
    lemma_type_bits(kind);
    assert((w, r.0) == ntapi::freed(
        m,
        cr3,
        at,
        *old(size),
        kind & 0x4000 != 0 || kind & 0x8000 != 0,
    ));
    let n = (at % 4096 + *old(size) + 4095) / 4096;
    let from = at - at % 4096;
    if at + *old(size) <= 0x8000_0000_0000 && (kind & 0x4000 != 0 || kind & 0x8000 != 0)
        && m.space_wf(cr3 as int) && spaces::leads_to_no_table(
        m,
        cr3 as int,
        from,
        from + n * 4096,
    ) {
        spaces::lemma_region_gone(m, cr3 as int, from, n as nat);
    }
}

/// The path leads to an entry with an inode, both in use.
pub open spec fn exists_at(t: Tables, d: Option<usize>) -> bool {
    &&& d is Some
    &&& t.dentries[d->0 as int].active
    &&& t.dentries[d->0 as int].inode_idx < 256
    &&& t.inodes[t.dentries[d->0 as int].inode_idx as int].active
}

/// The object of an opened file: the first 256 bytes of its path, at its start, with the
/// rights that were asked for and the size of the file.
pub open spec fn file_object(b: ObjectBody, path: Seq<u8>, access: u32, size: u64) -> bool {
    match b {
        ObjectBody::File { path: kept, path_len, position, access: a, size: s } => {
            &&& path_len == files::smaller(path.len() as int, 256)
            &&& forall|i: int| 0 <= i < path_len ==> #[trigger] kept@[i] == path[i]
            &&& position == 0
            &&& a == access
            &&& s == size
        },
        _ => false,
    }
}

/// A file object and a handle to it were made, both in the lowest free place.
pub open spec fn file_opened(
    p: Seq<Option<ObjectHeader>>,
    t: Seq<HandleEntry>,
    path: Seq<u8>,
    access: u32,
    size: u64,
    p2: Seq<Option<ObjectHeader>>,
    t2: Seq<HandleEntry>,
    h: HANDLE,
) -> bool {
    exists|i: int|
        {
            &&& #[trigger] next_object(p, i)
            &&& p2[i] matches Some(o) && unnamed(p2[i], ObjectType::File, o.body) && file_object(
                o.body,
                path,
                access,
                size,
            )
            &&& only_place(p, p2, i, p2[i])
            &&& handle_made(t, t2, i as u32, access, h)
        }
}

/// The file of inode `i` is empty afterwards: its size is 0 and its page is cleared. No
/// other inode changes, and no name.
pub open spec fn file_emptied(w: World, w2: World, i: int) -> bool {
    let n = w.vfs.inodes[i];
    let n2 = w2.vfs.inodes[i];
    &&& n2.size == 0
    &&& n2.data_size == 0
    &&& n2.itype == n.itype
    &&& n2.active == n.active
    &&& n2.data_page == n.data_page
    &&& forall|j: int| 0 <= j < 256 && j != i ==> #[trigger] w2.vfs.inodes[j] == w.vfs.inodes[j]
    &&& w2.vfs.dentries == w.vfs.dentries
    &&& w2.vfs.files == w.vfs.files
    &&& w2.mem.bytes.len() == w.mem.bytes.len()
    &&& forall|a: int|
        0 <= a < w.mem.bytes.len() ==> #[trigger] w2.mem.bytes[a] == (if n.data_page != 0
            && n.data_page <= a < n.data_page + 4096 {
            0
        } else {
            w.mem.bytes[a]
        })
    &&& w2.mem.frames == w.mem.frames
}

/// A file that exists is opened as it is by the dispositions 1 and 3, and emptied by 4, 5
/// and 0, which also gives it a new number; 2 is refused. A directory is never emptied.
/// Where no such file exists, 1 and 4 are refused. A disposition above 5 is refused, and so
/// is every request for which there is no place for the object or the handle. A request
/// that is refused changes nothing.
pub proof fn law_disposition_says_what_becomes_of_the_file(
    k: &mut Kernel,
    bytes: &mut [u8],
    pool: &mut ObjectPool,
    table: &mut HandleTable,
    handle: &mut HANDLE,
    access: u32,
    attrs: &OBJECT_ATTRIBUTES,
    path: &[u8],
    io: &mut IO_STATUS_BLOCK,
    allocation: Option<u64>,
    attributes: u32,
    share: u32,
    disposition: u32,
    options: u32,
    before: &Vfs,
    d: Option<usize>,
    r: NTSTATUS,
)
    requires
        old(k).wf(old(bytes)@),
        *before == old(k).vfs,
        attrs.object_name != 0,
        call_ensures(vfs::path_lookup, (before, path), d),
        call_ensures(
            ntapi::nt_create_file,
            (
                k,
                bytes,
                pool,
                table,
                handle,
                access,
                attrs,
                path,
                io,
                allocation,
                attributes,
                share,
                disposition,
                options,
            ),
            r,
        ),
    ensures
        final(io).status == r,
        ({
            let w = old(k).world(old(bytes)@);
            let w2 = final(k).world(final(bytes)@);
            let p = old(pool).objects@;
            let t = old(table).entries@;
            let there = exists_at(w.vfs, d);
            let i = w.vfs.dentries[d->0 as int].inode_idx as int;
            let plain = w.vfs.inodes[i].itype == InodeType::File;
            let room = !pool_full(p) && !no_place(t);
            &&& r.0 != 0 ==> w2 == w && final(pool).objects@ == p && final(table).entries@ == t
                && *final(handle) == *old(handle)
            &&& disposition > 5 ==> r.0 == 0xC000_000D
            &&& !there && (disposition == 1 || disposition == 4) ==> r.0 == 0xC000_0034
            &&& there && disposition == 2 ==> r.0 == 0xC000_0035
            &&& there && !plain && (disposition == 0 || disposition == 4 || disposition == 5)
                ==> r.0 == 0xC000_00BA
            &&& there && (disposition == 1 || disposition == 3) && !room ==> r.0 == 0xC000_009A
            &&& there && (disposition == 1 || disposition == 3) && room ==> {
                &&& r.0 == 0
                &&& w2 == w
                &&& file_opened(
                    p,
                    t,
                    path@,
                    access,
                    w.vfs.inodes[i].size as u64,
                    final(pool).objects@,
                    final(table).entries@,
                    *final(handle),
                )
            }
            &&& there && plain && (disposition == 4 || disposition == 5 || disposition == 0) && room
                && w.vfs.next_ino < u64::MAX ==> {
                &&& r.0 == 0
                &&& file_emptied(w, w2, i)
                &&& disposition == 0 ==> w2.vfs.inodes[i].ino == w.vfs.next_ino
                    && w2.vfs.next_ino == w.vfs.next_ino + 1
                &&& disposition != 0 ==> w2.vfs.inodes[i].ino == w.vfs.inodes[i].ino
                &&& file_opened(
                    p,
                    t,
                    path@,
                    access,
                    0,
                    final(pool).objects@,
                    final(table).entries@,
                    *final(handle),
                )
            }
        }),
{
    let w = old(k).world(old(bytes)@);
    let w2 = final(k).world(final(bytes)@);
    let p = old(pool).objects@;
    let t = old(table).entries@;
    assert(p.len() == 1024 && t.len() == 256);
    lemma_object(p);
    lemma_place(t);
    assert(d == w.vfs.found(path@));
    assert(ntapi::file_created(
        w,
        p,
        t,
        *old(handle),
        true,
        path@,
        access,
        disposition,
        w2,
        final(pool).objects@,
        final(table).entries@,
        *final(handle),
        r.0,
    ));
    if r.0 == 0 {
        let action = nt_files::action_of(disposition, nt_files::found_at(w.vfs, path@));
        let size = if action == nt_files::FileAction::Keep {
            nt_files::size_at(w.vfs, path@)
        } else {
            0
        };
        lemma_file_opened(
            p,
            t,
            path@,
            access,
            size,
            final(pool).objects@,
            final(table).entries@,
            *final(handle),
        );
    }
}

proof fn lemma_file_opened(
    p: Seq<Option<ObjectHeader>>,
    t: Seq<HandleEntry>,
    path: Seq<u8>,
    access: u32,
    size: u64,
    p2: Seq<Option<ObjectHeader>>,
    t2: Seq<HandleEntry>,
    h: HANDLE,
)
    requires
        p.len() == 1024,
        t.len() == 256,
        ntapi::file_handle_made(p, t, path, access, size, p2, t2, h),
    ensures
        file_opened(p, t, path, access, size, p2, t2, h),
{
    let body = choose|body: ObjectBody| #[trigger]
        nt_files::is_file_body(body, path, access, size) && (p2, t2, Ok::<HANDLE, NTSTATUS>(h))
            == ntapi::object_made(p, t, ObjectType::File, body, access);
    lemma_object_made(p, t, ObjectType::File, body, access);
    let i = choose|i: int|
        {
            &&& #[trigger] next_object(p, i)
            &&& unnamed(p2[i], ObjectType::File, body)
            &&& only_place(p, p2, i, p2[i])
            &&& handle_made(t, t2, i as u32, access, h)
        };
    assert(next_object(p, i));
    assert(file_object(body, path, access, size));
}

/// `n` is how many bytes of a path go up to and including its last slash.
pub open spec fn splits(path: Seq<u8>, n: int) -> bool {
    &&& 0 <= n <= path.len()
    &&& n > 0 ==> path[n - 1] == 0x2F
    &&& forall|i: int| n <= i < path.len() ==> #[trigger] path[i] != 0x2F
}

/// A file that does not exist is made by the dispositions 0, 2, 3 and 5, if there is a
/// place for the object and the handle: under the name behind the last slash of the path,
/// in the directory that the path in front of it leads to, see `files::makes`, and it is
/// opened. A name without bytes or with more than 63 is refused, a directory that does not
/// exist, and one that has no room or takes no files.
pub proof fn law_file_is_made_in_its_directory(
    k: &mut Kernel,
    bytes: &mut [u8],
    pool: &mut ObjectPool,
    table: &mut HandleTable,
    handle: &mut HANDLE,
    access: u32,
    attrs: &OBJECT_ATTRIBUTES,
    path: &[u8],
    io: &mut IO_STATUS_BLOCK,
    allocation: Option<u64>,
    attributes: u32,
    share: u32,
    disposition: u32,
    options: u32,
    before: &Vfs,
    n: int,
    dir: &[u8],
    d: Option<usize>,
    up: Option<usize>,
    r: NTSTATUS,
)
    requires
        old(k).wf(old(bytes)@),
        *before == old(k).vfs,
        attrs.object_name != 0,
        splits(path@, n),
        dir@ == path@.subrange(0, n),
        call_ensures(vfs::path_lookup, (before, path), d),
        call_ensures(vfs::path_lookup, (before, dir), up),
        !exists_at(old(k).vfs@, d),
        disposition == 0 || disposition == 2 || disposition == 3 || disposition == 5,
        !pool_full(old(pool).objects@),
        !no_place(old(table).entries@),
        call_ensures(
            ntapi::nt_create_file,
            (
                k,
                bytes,
                pool,
                table,
                handle,
                access,
                attrs,
                path,
                io,
                allocation,
                attributes,
                share,
                disposition,
                options,
            ),
            r,
        ),
    ensures
        ({
            let w = old(k).world(old(bytes)@);
            let w2 = final(k).world(final(bytes)@);
            let len = path@.len() - n;
            let is_dir = exists_at(w.vfs, up) && w.vfs.inodes[w.vfs.dentries[up->0 as int].inode_idx as int].itype
                == InodeType::Directory;
            &&& len == 0 || len > 63 ==> r.0 == 0xC000_0033
            &&& 0 < len <= 63 && !is_dir ==> r.0 == 0xC000_003A
            &&& r.0 == 0 ==> 0 < len <= 63 && is_dir && file_opened(
                old(pool).objects@,
                old(table).entries@,
                path@,
                access,
                0,
                final(pool).objects@,
                final(table).entries@,
                *final(handle),
            ) && exists|e: Option<usize>| #[trigger]
                files::makes(
                    w.vfs,
                    w.mem,
                    up,
                    path@.subrange(n, path@.len() as int),
                    InodeType::File,
                    w2.vfs,
                    w2.mem,
                    e,
                ) && e is Some
            &&& 0 < len <= 63 && is_dir ==> r.0 == (if w.vfs.next_ino < u64::MAX && (exists|j: int|
                0 <= j < 256 && !(#[trigger] w.vfs.inodes[j]).active) && (exists|j: int|
                0 <= j < 256 && !(#[trigger] w.vfs.dentries[j]).active)
                && w.vfs.inodes[w.vfs.dentries[up->0 as int].inode_idx as int].inode_ops.create
                == vfs::Backend::Ramfs {
                0int
            } else {
                0xC000_009A
            })
        }),
{
    let w = old(k).world(old(bytes)@);
    let w2 = final(k).world(final(bytes)@);
    let p = old(pool).objects@;
    let t = old(table).entries@;
    assert(p.len() == 1024 && t.len() == 256);
    lemma_object(p);
    lemma_place(t);
    assert(d == w.vfs.found(path@));
    assert(up == w.vfs.found(dir@));
    nt_files::lemma_dir_len(path@);
    assert(nt_files::dir_len(path@) == n) by {
        let m = nt_files::dir_len(path@) as int;
        if m < n {
            assert(path@[n - 1] != 0x2F);
        }
        if n < m {
            assert(path@[m - 1] != 0x2F);
        }
    }
    assert(ntapi::file_created(
        w,
        p,
        t,
        *old(handle),
        true,
        path@,
        access,
        disposition,
        w2,
        final(pool).objects@,
        final(table).entries@,
        *final(handle),
        r.0,
    ));
    assert(nt_files::found_at(w.vfs, path@) is None);
    let name = path@.subrange(n, path@.len() as int);
    if r.0 == 0 {
        lemma_file_opened(
            p,
            t,
            path@,
            access,
            0,
            final(pool).objects@,
            final(table).entries@,
            *final(handle),
        );
        files::lemma_makes(
            w.vfs,
            w.mem,
            dir@,
            name,
            InodeType::File,
            w2.vfs,
            w2.mem,
            w.vfs.free_dentry(),
        );
        assert(files::makes(
            w.vfs,
            w.mem,
            up,
            name,
            InodeType::File,
            w2.vfs,
            w2.mem,
            w.vfs.free_dentry(),
        ));
    }
    lemma_some_free(w.vfs);
}

proof fn lemma_some_free(t: Tables)
    ensures
        t.free_inode() is Some <==> (exists|j: int|
            0 <= j < 256 && !(#[trigger] t.inodes[j]).active),
        t.free_dentry() is Some <==> (exists|j: int|
            0 <= j < 256 && !(#[trigger] t.dentries[j]).active),
{
    let p = |k: int| !t.inodes[k].active;
    let q = |k: int| !t.dentries[k].active;
    crate::search::lemma_first(256, p);
    crate::search::lemma_first(256, q);
    if exists|k: int| 0 <= k < 256 && !(#[trigger] t.inodes[k]).active {
        let k = choose|k: int| 0 <= k < 256 && !(#[trigger] t.inodes[k]).active;
        assert(p(k));
    }
    if exists|k: int| 0 <= k < 256 && !(#[trigger] t.dentries[k]).active {
        let k = choose|k: int| 0 <= k < 256 && !(#[trigger] t.dentries[k]).active;
        assert(q(k));
    }
    if t.free_inode() is Some {
        assert(p(t.free_inode()->0 as int));
        assert(!t.inodes[t.free_inode()->0 as int].active);
    }
    if t.free_dentry() is Some {
        assert(q(t.free_dentry()->0 as int));
        assert(!t.dentries[t.free_dentry()->0 as int].active);
    }
}

/// A file without a name is refused, and nothing changes.
pub proof fn law_file_needs_a_name(
    k: &mut Kernel,
    bytes: &mut [u8],
    pool: &mut ObjectPool,
    table: &mut HandleTable,
    handle: &mut HANDLE,
    access: u32,
    attrs: &OBJECT_ATTRIBUTES,
    path: &[u8],
    io: &mut IO_STATUS_BLOCK,
    allocation: Option<u64>,
    attributes: u32,
    share: u32,
    disposition: u32,
    options: u32,
    r: NTSTATUS,
)
    requires
        old(k).wf(old(bytes)@),
        attrs.object_name == 0,
        call_ensures(
            ntapi::nt_create_file,
            (
                k,
                bytes,
                pool,
                table,
                handle,
                access,
                attrs,
                path,
                io,
                allocation,
                attributes,
                share,
                disposition,
                options,
            ),
            r,
        ),
    ensures
        r.0 == 0xC000_0033,
        final(k).world(final(bytes)@) == old(k).world(old(bytes)@),
        final(pool).objects@ == old(pool).objects@,
        final(table).entries@ == old(table).entries@,
        *final(handle) == *old(handle),
{
}

/// A status becomes the error that says the same.
pub open spec fn same_error(status: u32, error: u32) -> bool {
    ||| status == 0 && error == 0
    ||| status == 0x103 && error == 997
    ||| status == 0x8000_0005 && error == 234
    ||| status == 0xC000_0034 && error == 2
    ||| status == 0xC000_003A && error == 3
    ||| status == 0xC000_000F && error == 2
    ||| status == 0xC000_0022 && error == 5
    ||| status == 0xC000_0005 && error == 998
    ||| status == 0xC000_0008 && error == 6
    ||| status == 0xC000_0017 && error == 8
    ||| status == 0xC000_009A && error == 14
    ||| status == 0xC000_000D && error == 87
    ||| status == 0xC000_0035 && error == 183
    ||| status == 0xC000_0043 && error == 32
    ||| status == 0xC000_0101 && error == 145
    ||| status == 0xC000_00BA && error == 267
    ||| status == 0xC000_0033 && error == 123
    ||| status == 0xC000_0011 && error == 18
    ||| status == 0xC000_0002 && error == 1
    ||| status == 0xC000_00BB && error == 50
    ||| status == 0x8000_0023 && error == 122
    ||| status == 0xC000_0004 && error == 122
    ||| status == 0xC000_007B && error == 126
}

/// A status becomes the error that says the same, 317 where there is none; and an error
/// that a status says in the same way becomes a status that becomes the error again, or
/// 0xC000_0001.
pub proof fn law_status_becomes_the_error_that_says_the_same(
    status: NTSTATUS,
    e: u32,
    back: u32,
    s: NTSTATUS,
)
    requires
        call_ensures(error::ntstatus_to_win32_error, (status,), e),
        call_ensures(error::win32_error_to_ntstatus, (back,), s),
    ensures
        same_error(status.0, e) || e == 317 && forall|x: u32| !same_error(status.0, x),
        same_error(s.0, back) || s.0 == 0xC000_0001,
        back == 0 ==> s.0 == 0,
        back == 2 ==> s.0 == 0xC000_0034,
        back == 3 || back == 5 || back == 6 || back == 8 || back == 32 || back == 50 || back == 87
            || back == 183 ==> same_error(s.0, back),
        back == 122 ==> s.0 == 0x8000_0023,
{
}

} // verus!
