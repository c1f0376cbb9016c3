//! Waiting for objects, and what the end of a process does to them.

use vstd::prelude::*;
use crate::clock;
use crate::scheduler;
use crate::scheduler::{Scheduler, Switch, Tasks};
use super::error::{
    STATUS_ACCESS_DENIED, STATUS_INVALID_HANDLE, STATUS_OBJECT_TYPE_MISMATCH, STATUS_PENDING,
    STATUS_SUCCESS,
};
use super::object;
use super::object::{
    HandleEntry, HandleTable, ObjectBody, ObjectHeader, ObjectPool, HANDLE_TABLE_SIZE, MAX_OBJECTS,
    NO_OBJECT,
};
use super::types::{HANDLE, NTSTATUS};

verus! {

/// The time of a wait is over.
pub const STATUS_TIMEOUT: u32 = 0x00000102;

/// The handle that stands for the current process: -1.
pub const CURRENT_PROCESS: usize = usize::MAX;

/// Steps of 100 nanoseconds that a tick takes, rounded up.
pub const STEPS_PER_TICK: i64 = 549_451;

/// The number of the thread that runs, 0 if none does.
pub open spec fn running_tid(v: Tasks) -> u64 {
    if v.current < 0 {
        0
    } else {
        v.threads[v.current as int]->0.tid
    }
}

/// The number of the process that runs, 0 if none does.
pub open spec fn running_pid(v: Tasks) -> u64 {
    if v.current < 0 {
        0
    } else {
        v.threads[v.current as int]->0.pid
    }
}

/// A thread can wait for an object of this kind.
pub open spec fn waitable(b: ObjectBody) -> bool {
    match b {
        ObjectBody::Event { .. } => true,
        ObjectBody::Mutant { .. } => true,
        ObjectBody::Semaphore { .. } => true,
        ObjectBody::Process { .. } => true,
        ObjectBody::Thread { .. } => true,
        _ => false,
    }
}

/// The wait of a thread for an object is over: an event is set, a mutex is free or
/// held by the thread itself, a semaphore has a unit left, a process or a thread
/// has ended.
pub open spec fn signaled(b: ObjectBody, tid: u64) -> bool {
    match b {
        ObjectBody::Event { signaled, .. } => signaled,
        ObjectBody::Mutant { owner_tid, recursion_count, signaled } => {
            recursion_count < u32::MAX && (signaled || recursion_count > 0 && owner_tid == tid)
        },
        ObjectBody::Semaphore { current_count, .. } => current_count > 0,
        ObjectBody::Process { terminated, .. } => terminated,
        ObjectBody::Thread { terminated, .. } => terminated,
        _ => false,
    }
}

/// An object once a thread has waited for it: an event that resets itself is no
/// longer set, the thread holds the mutex once more, the semaphore has a unit less.
pub open spec fn acquired(b: ObjectBody, tid: u64) -> ObjectBody {
    match b {
        ObjectBody::Event { manual_reset, signaled } => ObjectBody::Event {
            manual_reset,
            signaled: signaled && manual_reset,
        },
        ObjectBody::Mutant { owner_tid, recursion_count, signaled } => ObjectBody::Mutant {
            owner_tid: tid,
            recursion_count: if signaled {
                1
            } else {
                (recursion_count + 1) as u32
            },
            signaled: false,
        },
        ObjectBody::Semaphore { current_count, maximum_count } => ObjectBody::Semaphore {
            current_count: (current_count - 1) as u32,
            maximum_count,
        },
        _ => b,
    }
}

/// Whether a thread can wait for an object of this kind.
fn can_wait(b: &ObjectBody) -> (r: bool)
    ensures
        r == waitable(*b),
{
    match b {
        ObjectBody::Event { .. } => true,
        ObjectBody::Mutant { .. } => true,
        ObjectBody::Semaphore { .. } => true,
        ObjectBody::Process { .. } => true,
        ObjectBody::Thread { .. } => true,
        _ => false,
    }
}

/// Whether the wait of a thread for an object is over. See `signaled`.
fn is_signaled(b: &ObjectBody, tid: u64) -> (r: bool)
    ensures
        r == signaled(*b, tid),
{
    match b {
        ObjectBody::Event { signaled, .. } => *signaled,
        ObjectBody::Mutant { owner_tid, recursion_count, signaled } => {
            *recursion_count < u32::MAX && (*signaled || *recursion_count > 0 && *owner_tid == tid)
        },
        ObjectBody::Semaphore { current_count, .. } => *current_count > 0,
        ObjectBody::Process { terminated, .. } => *terminated,
        ObjectBody::Thread { terminated, .. } => *terminated,
        _ => false,
    }
}

/// The object once a thread has waited for it. See `acquired`.
fn acquire(b: ObjectBody, tid: u64) -> (r: ObjectBody)
    requires
        signaled(b, tid),
    ensures
        r == acquired(b, tid),
{
    match b {
        ObjectBody::Event { manual_reset, signaled } => ObjectBody::Event {
            manual_reset,
            signaled: signaled && manual_reset,
        },
        ObjectBody::Mutant { owner_tid: _, recursion_count, signaled } => {
            let n: u32 = if signaled {
                1
            } else {
                recursion_count + 1
            };
            ObjectBody::Mutant { owner_tid: tid, recursion_count: n, signaled: false }
        },
        ObjectBody::Semaphore { current_count, maximum_count } => ObjectBody::Semaphore {
            current_count: current_count - 1,
            maximum_count,
        },
        _ => b,
    }
}

/// The object that a handle leads to.
pub open spec fn object_of(
    pool: Seq<Option<ObjectHeader>>,
    table: Seq<HandleEntry>,
    h: HANDLE,
) -> Option<u32> {
    if object::in_use(table, h) && object::is_object(
        pool,
        table[object::place_of(h)].object_index,
    ) {
        Some(table[object::place_of(h)].object_index)
    } else {
        None
    }
}

/// Finds the object that a handle leads to.
fn find_object(pool: &ObjectPool, table: &HandleTable, h: HANDLE) -> (r: Option<usize>)
    ensures
        match r {
            Some(i) => i < MAX_OBJECTS && object_of(pool.objects@, table.entries@, h) == Some(
                i as u32,
            ),
            None => object_of(pool.objects@, table.entries@, h) is None,
        },
{
    match table.get(h) {
        Some(e) => {
            let i: usize = e.object_index as usize;
            if i < MAX_OBJECTS && pool.objects[i].is_some() {
                Some(i)
            } else {
                None
            }
        },
        None => None,
    }
}

/// What one look at an object that is waited for leaves behind: the pool, the
/// threads, the status and the switch. If the wait is not over, the thread sleeps
/// until the next tick, unless there is no time left.
pub open spec fn waited(
    pool: Seq<Option<ObjectHeader>>,
    table: Seq<HandleEntry>,
    v: Tasks,
    h: HANDLE,
    timeout: Option<i64>,
) -> (Seq<Option<ObjectHeader>>, Tasks, u32, Option<Switch>) {
    match object_of(pool, table, h) {
        None => (pool, v, STATUS_INVALID_HANDLE, None),
        Some(i) => {
            let o = pool[i as int]->0;
            let tid = running_tid(v);
            if !waitable(o.body) {
                (pool, v, STATUS_OBJECT_TYPE_MISMATCH, None)
            } else if signaled(o.body, tid) {
                (
                    pool.update(
                        i as int,
                        Some(ObjectHeader { body: acquired(o.body, tid), ..o }),
                    ),
                    v,
                    STATUS_SUCCESS,
                    None,
                )
            } else if timeout == Some(0i64) {
                (pool, v, STATUS_TIMEOUT, None)
            } else {
                let (t, s) = clock::paused(v, 1);
                (pool, t, STATUS_PENDING, s)
            }
        },
    }
}

/// Looks at an object that is waited for. See `waited`.
pub fn wait_once(
    pool: &mut ObjectPool,
    table: &HandleTable,
    tasks: &mut Scheduler,
    h: HANDLE,
    timeout: Option<i64>,
) -> (r: (NTSTATUS, Option<Switch>))
    requires
        old(tasks).wf(),
    ensures
        final(tasks).wf(),
        (final(pool).objects@, final(tasks)@, r.0.0, r.1) == waited(
            old(pool).objects@,
            table.entries@,
            old(tasks)@,
            h,
            timeout,
        ),
{
    let i: usize = match find_object(pool, table, h) {
        Some(i) => i,
        None => {
            return (NTSTATUS(STATUS_INVALID_HANDLE), None);
        },
    };
    let tid: u64 = scheduler::current_tid(tasks);
    match pool.objects[i] {
        Some(o) => {
            if !can_wait(&o.body) {
                return (NTSTATUS(STATUS_OBJECT_TYPE_MISMATCH), None);
            }
            if is_signaled(&o.body, tid) {
                let mut o = o;
                o.body = acquire(o.body, tid);
                pool.objects[i] = Some(o);
                return (NTSTATUS(STATUS_SUCCESS), None);
            }
        },
        None => {},
    }
    match timeout {
        Some(t) => {
            if t == 0 {
                return (NTSTATUS(STATUS_TIMEOUT), None);
            }
        },
        None => {},
    }
    (NTSTATUS(STATUS_PENDING), clock::pause(tasks, 1))
}

/// The time that is left of a wait after a tick.
pub open spec fn left_after_tick(timeout: Option<i64>) -> Option<i64> {
    match timeout {
        Some(t) => if t > STEPS_PER_TICK {
            Some((t - STEPS_PER_TICK) as i64)
        } else {
            Some(0i64)
        },
        None => None,
    }
}

/// The time that is left of a wait after a tick.
pub fn time_left(timeout: Option<i64>) -> (r: Option<i64>)
    ensures
        r == left_after_tick(timeout),
{
    match timeout {
        Some(t) => {
            if t > STEPS_PER_TICK {
                Some(t - STEPS_PER_TICK)
            } else {
                Some(0)
            }
        },
        None => None,
    }
}

/// The process that a handle stands for, or why it stands for none.
pub open spec fn process_of(
    pool: Seq<Option<ObjectHeader>>,
    table: Seq<HandleEntry>,
    v: Tasks,
    h: HANDLE,
) -> Result<u64, u32> {
    if h.0 == CURRENT_PROCESS {
        Ok(running_pid(v))
    } else {
        match object_of(pool, table, h) {
            None => Err(STATUS_INVALID_HANDLE),
            Some(i) => match pool[i as int]->0.body {
                ObjectBody::Process { pid, .. } => Ok(pid),
                _ => Err(STATUS_OBJECT_TYPE_MISMATCH),
            },
        }
    }
}

/// An object once a process has ended with a code: the objects of the process and
/// of its threads say so.
pub open spec fn told_of_end(o: Option<ObjectHeader>, pid: u64, code: u32) -> Option<ObjectHeader> {
    match o {
        Some(h) => match h.body {
            ObjectBody::Process { pid: p, .. } => if p == pid {
                Some(
                    ObjectHeader {
                        body: ObjectBody::Process { pid: p, exit_code: code, terminated: true },
                        ..h
                    },
                )
            } else {
                o
            },
            ObjectBody::Thread { tid, owner_pid, .. } => if owner_pid == pid {
                Some(
                    ObjectHeader {
                        body: ObjectBody::Thread {
                            tid,
                            owner_pid,
                            exit_code: code,
                            terminated: true,
                        },
                        ..h
                    },
                )
            } else {
                o
            },
            _ => o,
        },
        None => None,
    }
}

/// The pool once a process has ended with a code.
pub open spec fn all_told(pool: Seq<Option<ObjectHeader>>, pid: u64, code: u32) -> Seq<
    Option<ObjectHeader>,
> {
    Seq::new(pool.len(), |i: int| told_of_end(pool[i], pid, code))
}

/// The pool and the table once the handles in the first `n` places are closed,
/// protected ones too.
pub open spec fn all_closed(
    pool: Seq<Option<ObjectHeader>>,
    table: Seq<HandleEntry>,
    n: int,
) -> (Seq<Option<ObjectHeader>>, Seq<HandleEntry>)
    decreases n,
{
    if n <= 1 {
        (pool, table)
    } else {
        let (p, t) = all_closed(pool, table, n - 1);
        if table[n - 1].object_index == NO_OBJECT {
            (p, t)
        } else {
            (
                object::released(p, table[n - 1].object_index).0,
                t.update(n - 1, HandleEntry::spec_empty()),
            )
        }
    }
}

/// What ending a process leaves behind: the pool, the handles of the process that
/// asks for it, the threads, the status and the switch. The kernel cannot be ended.
pub open spec fn process_ended(
    pool: Seq<Option<ObjectHeader>>,
    table: Seq<HandleEntry>,
    v: Tasks,
    h: HANDLE,
    code: u32,
) -> (Seq<Option<ObjectHeader>>, Seq<HandleEntry>, Tasks, u32, Option<Switch>) {
    match process_of(pool, table, v, h) {
        Err(e) => (pool, table, v, e, None),
        Ok(pid) => if pid == 0 {
            (pool, table, v, STATUS_ACCESS_DENIED, None)
        } else {
            let told = all_told(pool, pid, code);
            let dead = v.ended(pid);
            if pid == running_pid(v) {
                let (p, t) = all_closed(told, table, HANDLE_TABLE_SIZE as int);
                let (w, s) = dead.scheduled();
                (p, t, w, STATUS_SUCCESS, s)
            } else {
                (told, table, dead, STATUS_SUCCESS, None)
            }
        },
    }
}

/// Finds the process that a handle stands for.
fn find_process(pool: &ObjectPool, table: &HandleTable, tasks: &Scheduler, h: HANDLE) -> (r: Result<
    u64,
    u32,
>)
    requires
        tasks.wf(),
    ensures
        r == process_of(pool.objects@, table.entries@, tasks@, h),
{
    if h.0 == CURRENT_PROCESS {
        return Ok(scheduler::current_pid(tasks));
    }
    let i: usize = match find_object(pool, table, h) {
        Some(i) => i,
        None => {
            return Err(STATUS_INVALID_HANDLE);
        },
    };
    match &pool.objects[i] {
        Some(o) => match &o.body {
            ObjectBody::Process { pid, .. } => Ok(*pid),
            _ => Err(STATUS_OBJECT_TYPE_MISMATCH),
        },
        None => Err(STATUS_INVALID_HANDLE),
    }
}

/// Tells the objects of a process and of its threads that it has ended.
fn tell_all(pool: &mut ObjectPool, pid: u64, code: u32)
    ensures
        final(pool).objects@ == all_told(old(pool).objects@, pid, code),
{
    let mut i: usize = 0;
    while i < MAX_OBJECTS
        invariant
            i <= MAX_OBJECTS,
            forall|j: int|
                0 <= j < i ==> #[trigger] pool.objects@[j] == told_of_end(
                    old(pool).objects@[j],
                    pid,
                    code,
                ),
            forall|j: int|
                i <= j < MAX_OBJECTS ==> #[trigger] pool.objects@[j] == old(pool).objects@[j],
        decreases MAX_OBJECTS - i,
    {
        match pool.objects[i] {
            Some(h) => {
                let mut h = h;
                match h.body {
                    ObjectBody::Process { pid: p, .. } => {
                        if p == pid {
                            h.body = ObjectBody::Process {
                                pid: p,
                                exit_code: code,
                                terminated: true,
                            };
                        }
                    },
                    ObjectBody::Thread { tid, owner_pid, .. } => {
                        if owner_pid == pid {
                            h.body = ObjectBody::Thread {
                                tid,
                                owner_pid,
                                exit_code: code,
                                terminated: true,
                            };
                        }
                    },
                    _ => {},
                }
                pool.objects[i] = Some(h);
            },
            None => {},
        }
        i = i + 1;
    }
    assert(pool.objects@ =~= all_told(old(pool).objects@, pid, code));
}

/// Closes every handle of a table. See `all_closed`.
fn close_all(pool: &mut ObjectPool, table: &mut HandleTable)
    ensures
        (final(pool).objects@, final(table).entries@) == all_closed(
            old(pool).objects@,
            old(table).entries@,
            HANDLE_TABLE_SIZE as int,
        ),
{
    let mut i: usize = 1;
    while i < HANDLE_TABLE_SIZE
        invariant
            1 <= i <= HANDLE_TABLE_SIZE,
            (pool.objects@, table.entries@) == all_closed(
                old(pool).objects@,
                old(table).entries@,
                i as int,
            ),
            forall|j: int|
                i <= j < HANDLE_TABLE_SIZE ==> #[trigger] table.entries@[j] == old(
                    table,
                ).entries@[j],
        decreases HANDLE_TABLE_SIZE - i,
    {
        let index: u32 = table.entries[i].object_index;
        if index != NO_OBJECT {
            let _status: NTSTATUS = object::release_object(pool, index);
            table.entries[i] = HandleEntry::empty();
        }
        i = i + 1;
    }
}

/// Ends a process. See `process_ended`.
pub fn end_process(
    pool: &mut ObjectPool,
    table: &mut HandleTable,
    tasks: &mut Scheduler,
    h: HANDLE,
    code: u32,
) -> (r: (NTSTATUS, Option<Switch>))
    requires
        old(tasks).wf(),
    ensures
        final(tasks).wf(),
        (final(pool).objects@, final(table).entries@, final(tasks)@, r.0.0, r.1) == process_ended(
            old(pool).objects@,
            old(table).entries@,
            old(tasks)@,
            h,
            code,
        ),
{
    let pid: u64 = match find_process(pool, table, tasks, h) {
        Ok(p) => p,
        Err(e) => {
            return (NTSTATUS(e), None);
        },
    };
    if pid == 0 {
        return (NTSTATUS(STATUS_ACCESS_DENIED), None);
    }
    let own: bool = pid == scheduler::current_pid(tasks);
    tell_all(pool, pid, code);
    scheduler::end_process(tasks, pid);
    if own {
        close_all(pool, table);
        (NTSTATUS(STATUS_SUCCESS), scheduler::schedule(tasks))
    } else {
        (NTSTATUS(STATUS_SUCCESS), None)
    }
}

/// A mutex is held by one thread at a time: while a thread holds it, no other
/// thread's wait for it is over, but the thread can take it again.
pub proof fn law_mutex_excludes_other_threads(b: ObjectBody, tid: u64, other: u64)
    requires
        b is Mutant,
        signaled(b, tid),
        tid != other,
    ensures
        !signaled(acquired(b, tid), other),
        acquired(b, tid)->recursion_count < u32::MAX ==> signaled(acquired(b, tid), tid),
{
}

/// A set event that resets itself lets one wait through, one that does not lets
/// every wait through; a semaphore lets as many through as it has units.
pub proof fn law_waits_are_let_through(b: ObjectBody, tid: u64, other: u64)
    requires
        signaled(b, tid),
        b is Event || b is Semaphore,
    ensures
        b is Event ==> signaled(acquired(b, tid), other) == b->manual_reset,
        b is Semaphore ==> acquired(b, tid)->current_count == b->current_count - 1,
{
}

/// Once a process was ended, all of its threads have, and a wait for it or for one
/// of its threads is over.
pub proof fn law_ended_process_has_ended(
    pool: Seq<Option<ObjectHeader>>,
    v: Tasks,
    pid: u64,
    code: u32,
    i: int,
    k: int,
    tid: u64,
)
    requires
        0 <= i < pool.len(),
        0 <= k < scheduler::MAX_THREADS,
    ensures
        v.ended(pid).threads[k] matches Some(t) ==> t.pid == pid ==> !scheduler::alive(
            v.ended(pid).threads[k],
        ),
        pool[i] matches Some(h) ==> (h.body matches ObjectBody::Process { pid: p, .. } ==> p == pid
            ==> signaled(all_told(pool, pid, code)[i]->0.body, tid)),
        pool[i] matches Some(h) ==> (h.body matches ObjectBody::Thread { owner_pid, .. }
            ==> owner_pid == pid ==> signaled(all_told(pool, pid, code)[i]->0.body, tid)),
{
}

} // verus!
