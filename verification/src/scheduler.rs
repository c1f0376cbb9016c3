//! The scheduler: round robin among the threads of the highest priority.
//!
//! Threads live in a table of fixed size. `schedule` picks the thread that
//! runs next; the switch of stacks itself is left to the caller, who gets the
//! two slots and the stack pointer to load.

use vstd::prelude::*;
use vstd::string::*;
use crate::memory::paging;
use crate::memory::paging::Mem;
use crate::memory::phys;
use crate::memory::phys::{FrameAllocator, Frames, MAX_FRAMES};
use crate::memory::ram;
use crate::search;
use crate::task;
use crate::task::{Pid, Priority, Process, TaskIds, TaskState, Thread, Tid};

verus! {

/// Slots of the thread table.
pub const MAX_THREADS: usize = 64;

/// Slots of the process table.
pub const MAX_PROCESSES: usize = 16;

/// Bytes of a kernel stack.
pub const KERNEL_STACK_SIZE: usize = 16_384;

/// The threads, the processes, and which thread runs.
pub struct Scheduler {
    pub threads: [Option<Thread>; MAX_THREADS],
    pub processes: [Option<Process>; MAX_PROCESSES],
    /// The slot of the thread that runs, negative if none does.
    pub current_thread: i32,
    /// Ticks of the timer so far.
    pub tick_count: u64,
    /// Set once the scheduler may switch threads.
    pub active: bool,
    /// The tick at which a sleeping thread wakes up, 0 for one that does not
    /// sleep.
    pub sleep_until: [u64; MAX_THREADS],
}

/// A switch of threads that the caller has to carry out: save the stack
/// pointer for slot `from` and load `rsp`.
#[derive(Clone, Copy, PartialEq, Eq, Structural)]
pub struct Switch {
    pub from: usize,
    pub to: usize,
    pub rsp: u64,
    /// The address space to load, if the threads are in different processes
    /// and that of the new thread has one of its own.
    pub cr3: Option<u64>,
}

/// What the scheduler knows.
#[verifier::ext_equal]
pub struct Tasks {
    pub threads: Seq<Option<Thread>>,
    pub processes: Seq<Option<Process>>,
    pub current: i32,
    pub ticks: u64,
    pub active: bool,
    pub sleep_until: Seq<u64>,
}

impl View for Scheduler {
    type V = Tasks;

    open spec fn view(&self) -> Tasks {
        Tasks {
            threads: self.threads@,
            processes: self.processes@,
            current: self.current_thread,
            ticks: self.tick_count,
            active: self.active,
            sleep_until: self.sleep_until@,
        }
    }
}

/// A thread is in the given state.
pub open spec fn in_state(t: Option<Thread>, s: TaskState) -> bool {
    t matches Some(x) && x.state == s
}

/// The slot holds a thread of the kernel process.
pub open spec fn of_kernel(t: Option<Thread>) -> bool {
    t matches Some(x) && x.pid == 0
}

/// A slot with its thread moved to another state.
pub open spec fn moved(t: Option<Thread>, s: TaskState) -> Option<Thread> {
    match t {
        Some(x) => Some(Thread { state: s, ..x }),
        None => None,
    }
}

impl Tasks {
    /// The tables have their size, and the running thread is in its slot.
    pub open spec fn wf(self) -> bool {
        &&& self.threads.len() == MAX_THREADS
        &&& self.processes.len() == MAX_PROCESSES
        &&& self.sleep_until.len() == MAX_THREADS
        &&& self.current < MAX_THREADS
        &&& self.current >= 0 ==> self.threads[self.current as int] is Some
        &&& self.processes[0] matches Some(p) ==> p.thread_count <= self.kernel_threads()
    }

    /// No thread but the current one is running.
    pub open spec fn one_running(self) -> bool {
        forall|i: int|
            0 <= i < MAX_THREADS && in_state(#[trigger] self.threads[i], TaskState::Running)
                ==> i == self.current
    }

    /// How many slots hold a thread of the kernel process.
    pub open spec fn kernel_threads(self) -> nat {
        search::count(MAX_THREADS as nat, |i: int| of_kernel(self.threads[i]))
    }

    /// The thread in slot `i` moved to a state.
    pub open spec fn with_state(self, i: int, s: TaskState) -> Tasks {
        Tasks { threads: self.threads.update(i, moved(self.threads[i], s)), ..self }
    }

    /// The thread in slot `i` is ready.
    pub open spec fn ready(self, i: int) -> bool {
        in_state(self.threads[i], TaskState::Ready)
    }

    /// The rank of the thread in slot `i`.
    pub open spec fn rank(self, i: int) -> int {
        self.threads[i]->0.priority.rank()
    }

    /// The slot that is `k` places behind the current one, wrapping around.
    pub open spec fn turn(self, k: int) -> int {
        (self.current + 1 + k) % MAX_THREADS as int
    }

    /// How many places slot `i` is behind the first one that has its turn.
    pub open spec fn distance(self, i: int) -> int {
        (i - self.current - 1) % MAX_THREADS as int
    }

    /// Slot `i` holds a ready thread, and no ready thread has a higher
    /// priority.
    pub open spec fn may_run(self, i: int) -> bool {
        &&& self.ready(i)
        &&& forall|j: int| 0 <= j < MAX_THREADS && #[trigger] self.ready(j) ==> self.rank(j) <= self.rank(i)
    }

    /// The slot of the thread to run next: among the ready threads of the
    /// highest priority the first one behind the current one.
    pub open spec fn next(self) -> Option<int> {
        match search::first(MAX_THREADS as nat, |k: int| self.may_run(self.turn(k))) {
            Some(k) => Some(self.turn(k as int)),
            None => None,
        }
    }

    /// The running thread goes back among the ready ones.
    pub open spec fn rested(self) -> Tasks {
        if in_state(self.threads[self.current as int], TaskState::Running) {
            self.with_state(self.current as int, TaskState::Ready)
        } else {
            self
        }
    }

    /// The address space of a process, unless it uses that of the kernel.
    pub open spec fn space_of(self, pid: Pid) -> Option<u64> {
        match search::first(
            MAX_PROCESSES as nat,
            |i: int| self.processes[i] matches Some(p) && p.pid == pid,
        ) {
            Some(i) => if self.processes[i as int]->0.cr3 != 0 {
                Some(self.processes[i as int]->0.cr3)
            } else {
                None
            },
            None => None,
        }
    }

    /// The switch from slot `from` to slot `to`.
    pub open spec fn switch(self, from: int, to: int) -> Switch {
        Switch {
            from: from as usize,
            to: to as usize,
            rsp: self.threads[to]->0.context.rsp,
            cr3: if self.threads[from]->0.pid != self.threads[to]->0.pid {
                self.space_of(self.threads[to]->0.pid)
            } else {
                None
            },
        }
    }

    /// What `schedule` leaves behind, and the switch that it asks for.
    pub open spec fn scheduled(self) -> (Tasks, Option<Switch>) {
        if !self.active || self.current < 0 {
            (self, None)
        } else {
            let r = self.rested();
            match r.next() {
                None => (r, None),
                Some(n) => {
                    let w = r.with_state(n, TaskState::Running);
                    if n == self.current {
                        (w, None)
                    } else {
                        (Tasks { current: n as i32, ..w }, Some(r.switch(self.current as int, n)))
                    }
                },
            }
        }
    }

    /// The threads whose time to sleep is over are ready again.
    pub open spec fn woken(self) -> Tasks {
        Tasks {
            threads: Seq::new(
                MAX_THREADS as nat,
                |i: int|
                    if self.wakes(i) && in_state(self.threads[i], TaskState::Blocked) {
                        moved(self.threads[i], TaskState::Ready)
                    } else {
                        self.threads[i]
                    },
            ),
            sleep_until: Seq::new(
                MAX_THREADS as nat,
                |i: int|
                    if self.wakes(i) {
                        0
                    } else {
                        self.sleep_until[i]
                    },
            ),
            ..self
        }
    }

    /// The time for slot `i` to sleep is over.
    pub open spec fn wakes(self, i: int) -> bool {
        0 < self.sleep_until[i] <= self.ticks
    }

    /// The current thread moved to a state and another one picked.
    pub open spec fn gives_up(self, s: TaskState) -> (Tasks, Option<Switch>) {
        if self.current < 0 {
            (self, None)
        } else {
            self.with_state(self.current as int, s).scheduled()
        }
    }
}

impl Scheduler {
    /// See `Tasks::wf`.
    pub open spec fn wf(&self) -> bool {
        self@.wf()
    }

    /// A scheduler without threads.
    pub fn new() -> (r: Scheduler)
        ensures
            r.wf(),
            r@.one_running(),
            !r.active,
            r.current_thread == -1,
            r.tick_count == 0,
            forall|i: int| 0 <= i < MAX_THREADS ==> r.threads@[i] is None,
            forall|i: int| 0 <= i < MAX_PROCESSES ==> r.processes@[i] is None,
            forall|i: int| 0 <= i < MAX_THREADS ==> r.sleep_until@[i] == 0,
    {
        Scheduler {
            threads: [None; MAX_THREADS],
            processes: [None; MAX_PROCESSES],
            current_thread: -1,
            tick_count: 0,
            active: false,
            sleep_until: [0u64; MAX_THREADS],
        }
    }
}

/// Moves the thread in slot `i` to a state.
fn set_state(s: &mut Scheduler, i: usize, state: TaskState)
    requires
        i < MAX_THREADS,
    ensures
        final(s)@ == old(s)@.with_state(i as int, state),
{
    match s.threads[i] {
        Some(t) => {
            let mut t = t;
            t.state = state;
            s.threads[i] = Some(t);
        },
        None => {},
    }
    assert(s@.threads =~= old(s)@.with_state(i as int, state).threads);
}

/// Moving a thread to another state keeps the tables in order.
proof fn lemma_with_state(v: Tasks, i: int, s: TaskState)
    requires
        v.wf(),
        0 <= i < MAX_THREADS,
    ensures
        v.with_state(i, s).wf(),
        v.with_state(i, s).kernel_threads() == v.kernel_threads(),
{
    search::lemma_count_same(
        MAX_THREADS as nat,
        |j: int| of_kernel(v.threads[j]),
        |j: int| of_kernel(v.with_state(i, s).threads[j]),
    );
}

/// Every slot has its turn.
proof fn lemma_distance(v: Tasks, i: int)
    requires
        0 <= i < MAX_THREADS,
    ensures
        0 <= v.distance(i) < MAX_THREADS,
        v.turn(v.distance(i)) == i,
{
}

/// Finds the thread to run next.
fn pick_next(s: &Scheduler) -> (r: Option<usize>)
    requires
        s.wf(),
        s.current_thread >= 0,
    ensures
        match r {
            Some(n) => n < MAX_THREADS && s@.next() == Some(n as int) && s@.ready(n as int),
            None => s@.next() is None,
        },
{
    let ghost v = s@;
    let cur: usize = s.current_thread as usize;
    let mut best: Option<usize> = None;
    let mut best_level: u8 = 0;
    let ghost mut at: int = 0;
    let mut k: usize = 0;
    while k < MAX_THREADS
        invariant
            k <= MAX_THREADS,
            s.wf(),
            v == s@,
            cur == s.current_thread,
            cur < MAX_THREADS,
            match best {
                Some(b) => {
                    &&& 0 <= at < k
                    &&& b == v.turn(at)
                    &&& b < MAX_THREADS
                    &&& v.ready(b as int)
                    &&& best_level == v.rank(b as int)
                    &&& forall|j: int|
                        0 <= j < k && v.ready(#[trigger] v.turn(j)) ==> v.rank(v.turn(j))
                            <= best_level
                    &&& forall|j: int|
                        0 <= j < at && v.ready(#[trigger] v.turn(j)) ==> v.rank(v.turn(j))
                            < best_level
                },
                None => forall|j: int| 0 <= j < k ==> !v.ready(#[trigger] v.turn(j)),
            },
        decreases MAX_THREADS - k,
    {
        let idx: usize = (cur + 1 + k) % MAX_THREADS;
        assert(idx == v.turn(k as int));
        match s.threads[idx] {
            Some(t) => {
                if t.state == TaskState::Ready {
                    let level: u8 = t.priority.level();
                    let better: bool = match best {
                        Some(_) => level > best_level,
                        None => true,
                    };
                    if better {
                        best = Some(idx);
                        best_level = level;
                        proof {
                            at = k as int;
                        }
                    }
                }
            },
            None => {},
        }
        k = k + 1;
    }
    proof {
        let p = |k: int| v.may_run(v.turn(k));
        match best {
            Some(b) => {
                assert forall|j: int| 0 <= j < MAX_THREADS && #[trigger] v.ready(j) implies v.rank(
                    j,
                ) <= v.rank(b as int) by {
                    lemma_distance(v, j);
                    assert(v.ready(v.turn(v.distance(j))));
                }
                assert(p(at));
                assert forall|j: int| 0 <= j < at implies !#[trigger] p(j) by {
                    if v.ready(v.turn(j)) {
                        assert(v.rank(v.turn(j)) < v.rank(b as int));
                        assert(v.ready(b as int));
                    }
                }
                search::lemma_first_is(MAX_THREADS as nat, p, at as usize);
            },
            None => {
                assert forall|j: int| 0 <= j < MAX_THREADS implies !#[trigger] p(j) by {
                    assert(!v.ready(v.turn(j)));
                }
                search::lemma_first_none(MAX_THREADS as nat, p);
            },
        }
    }
    best
}

/// Looks up the address space of a process. See `Tasks::space_of`.
pub fn find_space(s: &Scheduler, pid: Pid) -> (r: Option<u64>)
    ensures
        r == s@.space_of(pid),
{
    let ghost p = |i: int| s@.processes[i] matches Some(p) && p.pid == pid;
    let mut i: usize = 0;
    while i < MAX_PROCESSES
        invariant
            i <= MAX_PROCESSES,
            p == (|i: int| s@.processes[i] matches Some(p) && p.pid == pid),
            forall|j: int| 0 <= j < i ==> !#[trigger] p(j),
        decreases MAX_PROCESSES - i,
    {
        match s.processes[i] {
            Some(x) => {
                if x.pid == pid {
                    proof {
                        assert(p(i as int));
                        search::lemma_first_is(MAX_PROCESSES as nat, p, i);
                    }
                    return if x.cr3 != 0 {
                        Some(x.cr3)
                    } else {
                        None
                    };
                }
            },
            None => {},
        }
        i = i + 1;
    }
    proof {
        search::lemma_first_none(MAX_PROCESSES as nat, p);
    }
    None
}

/// Picks the thread that runs next. A running thread goes back among the ready
/// ones first, so that it takes its turn behind the others.
pub fn schedule(s: &mut Scheduler) -> (r: Option<Switch>)
    requires
        old(s).wf(),
    ensures
        (final(s)@, r) == old(s)@.scheduled(),
        final(s).wf(),
{
    if !s.active || s.current_thread < 0 {
        return None;
    }
    let cur: usize = s.current_thread as usize;
    let pid: Pid = match s.threads[cur] {
        Some(t) => {
            if t.state == TaskState::Running {
                proof {
                    lemma_with_state(s@, cur as int, TaskState::Ready);
                }
                set_state(s, cur, TaskState::Ready);
            }
            t.pid
        },
        None => 0,
    };
    let ghost r = s@;
    assert(r == old(s)@.rested());
    match pick_next(s) {
        None => None,
        Some(n) => {
            proof {
                lemma_with_state(s@, n as int, TaskState::Running);
            }
            if n == cur {
                set_state(s, n, TaskState::Running);
                return None;
            }
            let (to_pid, rsp): (Pid, u64) = match s.threads[n] {
                Some(t) => (t.pid, t.context.rsp),
                None => (0, 0),
            };
            let cr3: Option<u64> = if pid != to_pid {
                find_space(s, to_pid)
            } else {
                None
            };
            set_state(s, n, TaskState::Running);
            s.current_thread = n as i32;
            Some(Switch { from: cur, to: n, rsp, cr3 })
        },
    }
}

/// The kernel process: number 0, with one thread.
pub open spec fn is_kernel_process(p: Process) -> bool {
    &&& p == (Process {
        name: p.name,
        state: TaskState::Running,
        thread_count: 1,
        ..Process::made(0, 0)
    })
    &&& p.name@ == task::named([0u8; task::PROCESS_NAME_SIZE]@, "kernel".spec_bytes())
}

/// The idle thread: number 0, of the lowest priority.
pub open spec fn is_idle_thread(t: Thread) -> bool {
    &&& t == (Thread {
        name: t.name,
        state: TaskState::Running,
        priority: Priority::Idle,
        ..Thread::made(0, 0, 0, 0)
    })
    &&& t.name@ == task::named([0u8; task::THREAD_NAME_SIZE]@, "idle".spec_bytes())
}

/// What `init` makes of the tables `v`.
pub open spec fn is_started(v: Tasks, w: Tasks) -> bool {
    let p = w.processes[0];
    let t = w.threads[0];
    &&& p is Some && is_kernel_process(p->0)
    &&& t is Some && is_idle_thread(t->0)
    &&& w == (Tasks {
        processes: v.processes.update(0, p),
        threads: v.threads.update(0, t),
        current: 0,
        active: true,
        ..v
    })
}

/// Starts the scheduler: whoever calls it becomes the idle thread of the
/// kernel process.
pub fn init(s: &mut Scheduler)
    ensures
        is_started(old(s)@, final(s)@),
        final(s).wf(),
        (forall|i: int|
            0 < i < MAX_THREADS ==> !in_state(#[trigger] old(s).threads@[i], TaskState::Running))
            ==> final(s)@.one_running(),
{
    let mut process = Process::new(0, 0);
    process.set_name("kernel");
    process.state = TaskState::Running;
    process.thread_count = 1;
    s.processes[0] = Some(process);

    let mut thread = Thread::new(0, 0, 0, 0);
    thread.set_name("idle");
    thread.state = TaskState::Running;
    thread.priority = Priority::Idle;
    s.threads[0] = Some(thread);
    s.current_thread = 0;
    s.active = true;
    proof {
        search::lemma_count_positive(
            MAX_THREADS as nat,
            |i: int| of_kernel(s@.threads[i]),
            0,
        );
    }
}

/// The memory with `n` frames taken and cleared, one after the other, and
/// whether there were enough.
pub open spec fn frames_taken(m: Mem, n: nat) -> (Mem, bool)
    decreases n,
{
    if n == 0 {
        (m, true)
    } else if m.frames.lowest_free() is None {
        (m, false)
    } else {
        frames_taken(m.fresh(), (n - 1) as nat)
    }
}

/// The lowest of some frames that were taken has as many frames behind it in the
/// RAM.
pub proof fn lemma_stack_in_ram(m: Mem, n: nat)
    requires
        m.sane(),
        n > 0,
        frames_taken(m, n).1,
    ensures
        m.fresh_addr() + n * 4096 <= m.bytes.len(),
        frames_taken(m, n).0.frames.free() == m.frames.free() - n,
    decreases n,
{
    phys::law_alloc_takes_a_free_frame(m.frames);
    if n > 1 {
        lemma_stack_in_ram(m.fresh(), (n - 1) as nat);
        phys::law_allocations_are_disjoint(m.frames);
    }
}

/// Takes a kernel stack: four frames, of which the first is the bottom.
fn alloc_kernel_stack(frames: &mut FrameAllocator, bytes: &mut [u8]) -> (r: Option<usize>)
    requires
        old(frames).wf(),
        paging::mem(old(frames), old(bytes)@).sane(),
    ensures
        final(frames).wf(),
        paging::mem(final(frames), final(bytes)@).sane(),
        ({
            let m = paging::mem(old(frames), old(bytes)@);
            &&& (paging::mem(final(frames), final(bytes)@), r is Some) == frames_taken(m, 4)
            &&& r matches Some(b) ==> b == m.fresh_addr() && b < 0x2000_0000
        }),
        final(bytes)@.len() == old(bytes)@.len(),
{
    let ghost m = paging::mem(frames, bytes@);
    let mut base: usize = 0;
    let mut i: usize = 0;
    while i < 4
        invariant
            i <= 4,
            frames.wf(),
            m == paging::mem(old(frames), old(bytes)@),
            bytes@.len() == old(bytes)@.len(),
            paging::mem(frames, bytes@).sane(),
            frames_taken(m, 4) == frames_taken(paging::mem(frames, bytes@), (4 - i) as nat),
            i == 0 ==> paging::mem(frames, bytes@) == m,
            i > 0 ==> base == m.fresh_addr() && base < 0x2000_0000,
        decreases 4 - i,
    {
        match phys::alloc_frame(frames) {
            Some(addr) => {
                if i == 0 {
                    base = addr;
                }
                paging::zero_frame(bytes, addr);
            },
            None => {
                return None;
            },
        }
        i = i + 1;
    }
    Some(base)
}

/// The bytes of memory with the first frame of a new thread on its stack: six
/// zero registers and the address to return to.
pub open spec fn stack_prepared(bytes: Seq<u8>, top: int, entry: u64) -> Seq<u8> {
    ram::with64(ram::filled(bytes, top - 56, 48, 0), top - 8, entry)
}

/// A thread as `spawn_kernel_thread_with_priority` makes it.
pub open spec fn is_spawned(
    t: Thread,
    tid: Tid,
    entry: u64,
    top: u64,
    priority: Priority,
    name: Seq<u8>,
) -> bool {
    let made = Thread::made(tid, 0, entry, top);
    &&& t == (Thread {
        name: t.name,
        state: TaskState::Ready,
        priority,
        kernel_stack: top,
        context: task::CpuContext { rsp: (top - 56) as u64, ..made.context },
        ..made
    })
    &&& t.name@ == task::named([0u8; task::THREAD_NAME_SIZE]@, name)
}

impl Tasks {
    /// The first empty slot of the thread table.
    pub open spec fn free_slot(self) -> Option<usize> {
        search::first(MAX_THREADS as nat, |i: int| self.threads[i] is None)
    }

    /// The tables with a thread of the kernel process in slot `i`.
    pub open spec fn with_thread(self, i: int, t: Thread) -> Tasks {
        Tasks {
            threads: self.threads.update(i, Some(t)),
            processes: match self.processes[0] {
                Some(p) => self.processes.update(
                    0,
                    Some(Process { thread_count: (p.thread_count + 1) as usize, ..p }),
                ),
                None => self.processes,
            },
            ..self
        }
    }
}

/// Puts a thread of the kernel process into the first empty slot.
fn add_thread(s: &mut Scheduler, t: Thread) -> (r: bool)
    requires
        old(s).wf(),
        t.pid == 0,
    ensures
        final(s).wf(),
        match old(s)@.free_slot() {
            Some(i) => r && i < MAX_THREADS && old(s)@.threads[i as int] is None && final(s)@
                == old(s)@.with_thread(i as int, t),
            None => !r && final(s)@ == old(s)@,
        },
{
    let ghost v = s@;
    let ghost p = |i: int| v.threads[i] is None;
    let mut i: usize = 0;
    while i < MAX_THREADS
        invariant
            i <= MAX_THREADS,
            s@ == v,
            v == old(s)@,
            v.wf(),
            t.pid == 0,
            p == (|i: int| v.threads[i] is None),
            forall|j: int| 0 <= j < i ==> !#[trigger] p(j),
        decreases MAX_THREADS - i,
    {
        if s.threads[i].is_none() {
            proof {
                assert(p(i as int));
                search::lemma_first_is(MAX_THREADS as nat, p, i);
                search::lemma_count_add(
                    MAX_THREADS as nat,
                    |j: int| of_kernel(v.threads[j]),
                    |j: int| of_kernel(v.with_thread(i as int, t).threads[j]),
                    i as int,
                );
                search::lemma_count_bound(
                    MAX_THREADS as nat,
                    |j: int| of_kernel(v.threads[j]),
                );
            }
            s.threads[i] = Some(t);
            match s.processes[0] {
                Some(p) => {
                    let mut p = p;
                    p.thread_count = p.thread_count + 1;
                    s.processes[0] = Some(p);
                },
                None => {},
            }
            assert(s@ =~= v.with_thread(i as int, t));
            return true;
        }
        i = i + 1;
    }
    proof {
        search::lemma_first_none(MAX_THREADS as nat, p);
    }
    false
}

/// What making a thread of the kernel leaves behind, and the number that it
/// gets: a stack is taken, and the thread put into the first empty slot.
#[verifier::opaque]
pub open spec fn spawned(
    v: Tasks,
    ids: TaskIds,
    m: Mem,
    entry: u64,
    name: Seq<u8>,
    priority: Priority,
    v2: Tasks,
    ids2: TaskIds,
    m2: Mem,
    r: Option<Tid>,
) -> bool {
    let (taken, enough) = frames_taken(m, 4);
    let top = m.fresh_addr() + KERNEL_STACK_SIZE;
    let tid = ids.next_tid;
    if !enough {
        r is None && v2 == v && ids2 == ids && m2 == taken
    } else {
        &&& ids2 == (TaskIds { next_tid: (tid + 1) as u64, ..ids })
        &&& m2 == (Mem {
            bytes: stack_prepared(taken.bytes, top, entry),
            frames: taken.frames,
        })
        &&& match v.free_slot() {
            Some(i) => {
                let t = v2.threads[i as int];
                &&& r == Some(tid)
                &&& t is Some
                &&& is_spawned(t->0, tid, entry, top as u64, priority, name)
                &&& v2 == v.with_thread(i as int, t->0)
            },
            None => r is None && v2 == v,
        }
    }
}

/// Makes a thread of the kernel that starts at `entry`, and returns its
/// number. `None` if there is no memory for the stack or no slot for the
/// thread; what was taken by then stays taken.
pub fn spawn_kernel_thread_with_priority(
    s: &mut Scheduler,
    ids: &mut TaskIds,
    frames: &mut FrameAllocator,
    bytes: &mut [u8],
    entry: u64,
    name: &str,
    priority: Priority,
) -> (r: Option<Tid>)
    requires
        old(s).wf(),
        old(ids).next_tid < u64::MAX,
        old(frames).wf(),
        paging::mem(old(frames), old(bytes)@).sane(),
    ensures
        spawned(
            old(s)@,
            *old(ids),
            paging::mem(old(frames), old(bytes)@),
            entry,
            name.spec_bytes(),
            priority,
            final(s)@,
            *final(ids),
            paging::mem(final(frames), final(bytes)@),
            r,
        ),
        final(ids).next_tid <= old(ids).next_tid + 1,
        final(s).wf(),
        final(frames).wf(),
        final(bytes)@.len() == old(bytes)@.len(),
        paging::mem(final(frames), final(bytes)@).sane(),
{
    reveal(spawned);
    let stack_bottom: usize = match alloc_kernel_stack(frames, bytes) {
        Some(b) => b,
        None => {
            return None;
        },
    };
    proof {
        lemma_stack_in_ram(paging::mem(old(frames), old(bytes)@), 4);
    }
    let stack_top: usize = stack_bottom + KERNEL_STACK_SIZE;
    assert(stack_top <= bytes.len());
    let tid: Tid = task::alloc_tid(ids);
    let mut thread = Thread::new(tid, 0, entry, stack_top as u64);
    thread.set_name(name);
    thread.state = TaskState::Ready;
    thread.priority = priority;
    thread.kernel_stack = stack_top as u64;

    ram::fill(bytes, stack_top - 56, 48, 0);
    ram::write_u64(bytes, stack_top - 8, entry);
    thread.context.rsp = (stack_top - 56) as u64;

    if add_thread(s, thread) {
        Some(tid)
    } else {
        None
    }
}

/// Makes a thread of the kernel with normal priority. See
/// `spawn_kernel_thread_with_priority`.
pub fn spawn_kernel_thread(
    s: &mut Scheduler,
    ids: &mut TaskIds,
    frames: &mut FrameAllocator,
    bytes: &mut [u8],
    entry: u64,
    name: &str,
) -> (r: Option<Tid>)
    requires
        old(s).wf(),
        old(ids).next_tid < u64::MAX,
        old(frames).wf(),
        paging::mem(old(frames), old(bytes)@).sane(),
    ensures
        spawned(
            old(s)@,
            *old(ids),
            paging::mem(old(frames), old(bytes)@),
            entry,
            name.spec_bytes(),
            Priority::Normal,
            final(s)@,
            *final(ids),
            paging::mem(final(frames), final(bytes)@),
            r,
        ),
        final(ids).next_tid <= old(ids).next_tid + 1,
        final(s).wf(),
        final(frames).wf(),
        final(bytes)@.len() == old(bytes)@.len(),
        paging::mem(final(frames), final(bytes)@).sane(),
{
    spawn_kernel_thread_with_priority(s, ids, frames, bytes, entry, name, Priority::Normal)
}

/// Puts the current thread to sleep for a number of ticks.
pub fn sleep_ticks(s: &mut Scheduler, ticks_to_sleep: u64) -> (r: Option<Switch>)
    requires
        old(s).wf(),
        old(s).current_thread >= 0 ==> old(s).tick_count + ticks_to_sleep <= u64::MAX,
    ensures
        final(s).wf(),
        (final(s)@, r) == (if old(s).current_thread < 0 {
            (old(s)@, None)
        } else {
            (Tasks {
                sleep_until: old(s)@.sleep_until.update(
                    old(s).current_thread as int,
                    (old(s).tick_count + ticks_to_sleep) as u64,
                ),
                ..old(s)@
            }).gives_up(TaskState::Blocked)
        }),
{
    if s.current_thread < 0 {
        return None;
    }
    let cur: usize = s.current_thread as usize;
    s.sleep_until[cur] = s.tick_count + ticks_to_sleep;
    let ghost v = s@;
    proof {
        search::lemma_count_same(
            MAX_THREADS as nat,
            |j: int| of_kernel(old(s)@.threads[j]),
            |j: int| of_kernel(v.threads[j]),
        );
        lemma_with_state(v, cur as int, TaskState::Blocked);
    }
    set_state(s, cur, TaskState::Blocked);
    schedule(s)
}

/// Wakes the threads whose time to sleep is over.
fn wake_sleeping_threads(s: &mut Scheduler)
    requires
        old(s).wf(),
    ensures
        final(s)@ == old(s)@.woken(),
        final(s).wf(),
{
    let ghost v = s@;
    let ghost w = s@.woken();
    let now: u64 = s.tick_count;
    let mut i: usize = 0;
    while i < MAX_THREADS
        invariant
            i <= MAX_THREADS,
            v == old(s)@,
            v.wf(),
            w == v.woken(),
            now == v.ticks,
            s@ == (Tasks { threads: s@.threads, sleep_until: s@.sleep_until, ..v }),
            forall|j: int|
                0 <= j < i ==> s.threads@[j] == w.threads[j] && s.sleep_until@[j]
                    == w.sleep_until[j],
            forall|j: int|
                i <= j < MAX_THREADS ==> s.threads@[j] == v.threads[j] && s.sleep_until@[j]
                    == v.sleep_until[j],
        decreases MAX_THREADS - i,
    {
        if s.sleep_until[i] > 0 && now >= s.sleep_until[i] {
            s.sleep_until[i] = 0;
            match s.threads[i] {
                Some(t) => {
                    if t.state == TaskState::Blocked {
                        set_state(s, i, TaskState::Ready);
                    }
                },
                None => {},
            }
        }
        i = i + 1;
    }
    proof {
        assert(s@ =~= w);
        search::lemma_count_same(
            MAX_THREADS as nat,
            |j: int| of_kernel(v.threads[j]),
            |j: int| of_kernel(w.threads[j]),
        );
    }
}

/// One tick of the timer: sleeping threads wake up, and the next thread runs.
pub fn timer_tick(s: &mut Scheduler) -> (r: Option<Switch>)
    requires
        old(s).wf(),
        old(s).tick_count < u64::MAX,
    ensures
        final(s).wf(),
        (final(s)@, r) == (Tasks {
            ticks: (old(s).tick_count + 1) as u64,
            ..old(s)@
        }).woken().scheduled(),
{
    s.tick_count = s.tick_count + 1;
    assert(s@.wf()) by {
        search::lemma_count_same(
            MAX_THREADS as nat,
            |j: int| of_kernel(old(s)@.threads[j]),
            |j: int| of_kernel(s@.threads[j]),
        );
    }
    wake_sleeping_threads(s);
    schedule(s)
}

/// The number of ticks so far.
pub fn ticks(s: &Scheduler) -> (r: u64)
    ensures
        r == s@.ticks,
{
    s.tick_count
}

/// Stores the stack pointer of a thread that was switched away from.
pub fn save_rsp(s: &mut Scheduler, idx: usize, rsp: u64)
    requires
        old(s).wf(),
        idx < MAX_THREADS,
    ensures
        final(s).wf(),
        match old(s)@.threads[idx as int] {
            Some(t) => final(s)@ == (Tasks {
                threads: old(s)@.threads.update(
                    idx as int,
                    Some(Thread { context: task::CpuContext { rsp, ..t.context }, ..t }),
                ),
                ..old(s)@
            }),
            None => final(s)@ == old(s)@,
        },
{
    match s.threads[idx] {
        Some(t) => {
            let mut t = t;
            t.context.rsp = rsp;
            s.threads[idx] = Some(t);
        },
        None => {},
    }
    proof {
        search::lemma_count_same(
            MAX_THREADS as nat,
            |j: int| of_kernel(old(s)@.threads[j]),
            |j: int| of_kernel(s@.threads[j]),
        );
    }
}

/// Ends the current thread.
pub fn exit_current(s: &mut Scheduler) -> (r: Option<Switch>)
    requires
        old(s).wf(),
    ensures
        final(s).wf(),
        (final(s)@, r) == old(s)@.gives_up(TaskState::Dead),
{
    if s.current_thread < 0 {
        return None;
    }
    let cur: usize = s.current_thread as usize;
    proof {
        lemma_with_state(s@, cur as int, TaskState::Dead);
    }
    set_state(s, cur, TaskState::Dead);
    schedule(s)
}

/// Blocks the current thread.
pub fn block_current(s: &mut Scheduler) -> (r: Option<Switch>)
    requires
        old(s).wf(),
    ensures
        final(s).wf(),
        (final(s)@, r) == old(s)@.gives_up(TaskState::Blocked),
{
    if s.current_thread < 0 {
        return None;
    }
    let cur: usize = s.current_thread as usize;
    proof {
        lemma_with_state(s@, cur as int, TaskState::Blocked);
    }
    set_state(s, cur, TaskState::Blocked);
    schedule(s)
}

/// Makes a blocked thread ready.
pub fn unblock_thread(s: &mut Scheduler, idx: usize)
    requires
        old(s).wf(),
    ensures
        final(s).wf(),
        final(s)@ == (if idx < MAX_THREADS && in_state(
            old(s)@.threads[idx as int],
            TaskState::Blocked,
        ) {
            old(s)@.with_state(idx as int, TaskState::Ready)
        } else {
            old(s)@
        }),
{
    if idx < MAX_THREADS {
        match s.threads[idx] {
            Some(t) => {
                if t.state == TaskState::Blocked {
                    proof {
                        lemma_with_state(s@, idx as int, TaskState::Ready);
                    }
                    set_state(s, idx, TaskState::Ready);
                }
            },
            None => {},
        }
    }
}

/// The process number of the current thread, 0 if there is none.
pub fn current_pid(s: &Scheduler) -> (r: u64)
    requires
        s.wf(),
    ensures
        r == (if s@.current < 0 {
            0
        } else {
            s@.threads[s@.current as int]->0.pid
        }),
{
    if s.current_thread < 0 {
        return 0;
    }
    match s.threads[s.current_thread as usize] {
        Some(t) => t.pid,
        None => 0,
    }
}

/// The number of the current thread, 0 if there is none.
pub fn current_tid(s: &Scheduler) -> (r: u64)
    requires
        s.wf(),
    ensures
        r == (if s@.current < 0 {
            0
        } else {
            s@.threads[s@.current as int]->0.tid
        }),
{
    if s.current_thread < 0 {
        return 0;
    }
    match s.threads[s.current_thread as usize] {
        Some(t) => t.tid,
        None => 0,
    }
}

impl Tasks {
    /// The tables once a process has ended: all of its threads have, and it is no
    /// longer among the processes.
    pub open spec fn ended(self, pid: Pid) -> Tasks {
        Tasks {
            threads: Seq::new(
                MAX_THREADS as nat,
                |i: int|
                    if self.threads[i] matches Some(t) && t.pid == pid {
                        moved(self.threads[i], TaskState::Dead)
                    } else {
                        self.threads[i]
                    },
            ),
            processes: Seq::new(
                MAX_PROCESSES as nat,
                |i: int|
                    if self.processes[i] matches Some(p) && p.pid == pid {
                        None
                    } else {
                        self.processes[i]
                    },
            ),
            ..self
        }
    }
}

/// Ends a process. See `Tasks::ended`.
pub fn end_process(s: &mut Scheduler, pid: Pid)
    requires
        old(s).wf(),
    ensures
        final(s).wf(),
        final(s)@ == old(s)@.ended(pid),
{
    let ghost v = s@;
    let ghost w = s@.ended(pid);
    let mut i: usize = 0;
    while i < MAX_THREADS
        invariant
            i <= MAX_THREADS,
            v.wf(),
            w == v.ended(pid),
            s@ == (Tasks { threads: s@.threads, ..v }),
            forall|j: int| 0 <= j < i ==> s.threads@[j] == w.threads[j],
            forall|j: int| i <= j < MAX_THREADS ==> s.threads@[j] == v.threads[j],
        decreases MAX_THREADS - i,
    {
        match s.threads[i] {
            Some(t) => {
                if t.pid == pid {
                    set_state(s, i, TaskState::Dead);
                }
            },
            None => {},
        }
        i = i + 1;
    }
    let mut i: usize = 0;
    while i < MAX_PROCESSES
        invariant
            i <= MAX_PROCESSES,
            v.wf(),
            w == v.ended(pid),
            s@ == (Tasks { threads: s@.threads, processes: s@.processes, ..v }),
            forall|j: int| 0 <= j < MAX_THREADS ==> s.threads@[j] == w.threads[j],
            forall|j: int| 0 <= j < i ==> s.processes@[j] == w.processes[j],
            forall|j: int| i <= j < MAX_PROCESSES ==> s.processes@[j] == v.processes[j],
        decreases MAX_PROCESSES - i,
    {
        match s.processes[i] {
            Some(p) => {
                if p.pid == pid {
                    s.processes[i] = None;
                }
            },
            None => {},
        }
        i = i + 1;
    }
    proof {
        assert(s@ =~= w);
        search::lemma_count_same(
            MAX_THREADS as nat,
            |j: int| of_kernel(v.threads[j]),
            |j: int| of_kernel(w.threads[j]),
        );
    }
}

/// A thread that has not ended.
pub open spec fn alive(t: Option<Thread>) -> bool {
    t matches Some(x) && x.state != TaskState::Dead
}

/// How many threads have not ended.
pub fn thread_count(s: &Scheduler) -> (r: usize)
    ensures
        r == search::count(MAX_THREADS as nat, |i: int| alive(s@.threads[i])),
        r <= MAX_THREADS,
{
    let mut count: usize = 0;
    let mut i: usize = 0;
    while i < MAX_THREADS
        invariant
            i <= MAX_THREADS,
            count <= i,
            count == search::count(i as nat, |i: int| alive(s@.threads[i])),
        decreases MAX_THREADS - i,
    {
        match s.threads[i] {
            Some(t) => {
                if t.state != TaskState::Dead {
                    count = count + 1;
                }
            },
            None => {},
        }
        i = i + 1;
    }
    count
}

/// How many processes there are.
pub fn process_count(s: &Scheduler) -> (r: usize)
    ensures
        r == search::count(MAX_PROCESSES as nat, |i: int| s@.processes[i] is Some),
        r <= MAX_PROCESSES,
{
    let mut count: usize = 0;
    let mut i: usize = 0;
    while i < MAX_PROCESSES
        invariant
            i <= MAX_PROCESSES,
            count <= i,
            count == search::count(i as nat, |i: int| s@.processes[i] is Some),
        decreases MAX_PROCESSES - i,
    {
        if s.processes[i].is_some() {
            count = count + 1;
        }
        i = i + 1;
    }
    count
}

/// The label of a state in a list of threads.
pub open spec fn state_label(s: TaskState) -> &'static str {
    match s {
        TaskState::Created => "created",
        TaskState::Ready => "ready  ",
        TaskState::Running => "RUNNING",
        TaskState::Blocked => "blocked",
        TaskState::Dead => "dead   ",
    }
}

/// The label of a priority in a list of threads.
pub open spec fn priority_label(p: Priority) -> &'static str {
    match p {
        Priority::Idle => "idle",
        Priority::Low => "low ",
        Priority::Normal => "norm",
        Priority::High => "high",
        Priority::Realtime => "rt  ",
    }
}

fn state_text(s: TaskState) -> (r: &'static str)
    ensures
        r@ == state_label(s)@,
{
    match s {
        TaskState::Created => "created",
        TaskState::Ready => "ready  ",
        TaskState::Running => "RUNNING",
        TaskState::Blocked => "blocked",
        TaskState::Dead => "dead   ",
    }
}

fn priority_text(p: Priority) -> (r: &'static str)
    ensures
        r@ == priority_label(p)@,
{
    match p {
        Priority::Idle => "idle",
        Priority::Low => "low ",
        Priority::Normal => "norm",
        Priority::High => "high",
        Priority::Realtime => "rt  ",
    }
}

/// One line of the list of threads.
pub struct ThreadRow {
    /// Set for the thread that runs.
    pub current: bool,
    pub tid: Tid,
    pub pid: Pid,
    pub priority: &'static str,
    pub state: &'static str,
    pub name: Vec<u8>,
}

impl Tasks {
    /// The slots below `n` whose threads have not ended, in order.
    pub open spec fn listed(self, n: nat) -> Seq<int>
        decreases n,
    {
        if n == 0 {
            Seq::empty()
        } else if alive(self.threads[n - 1]) {
            self.listed((n - 1) as nat).push(n - 1)
        } else {
            self.listed((n - 1) as nat)
        }
    }

    /// The line for the thread in slot `i`.
    pub open spec fn is_row(self, row: ThreadRow, i: int) -> bool {
        let t = self.threads[i]->0;
        &&& row.current == (self.current == i)
        &&& row.tid == t.tid
        &&& row.pid == t.pid
        &&& row.priority@ == priority_label(t.priority)@
        &&& row.state@ == state_label(t.state)@
        &&& row.name@ == task::name_of(t.name@)
    }
}

/// The bytes of a thread's name in front of the closing zero.
fn name_bytes(t: &Thread) -> (r: Vec<u8>)
    ensures
        r@ == task::name_of(t.name@),
{
    let mut r: Vec<u8> = Vec::new();
    let mut len: usize = 0;
    while len < task::THREAD_NAME_SIZE && t.name[len] != 0
        invariant
            len <= task::THREAD_NAME_SIZE,
            r@ == t.name@.subrange(0, len as int),
            forall|j: int| 0 <= j < len ==> t.name@[j] != 0,
        decreases task::THREAD_NAME_SIZE - len,
    {
        r.push(t.name[len]);
        len = len + 1;
        assert(r@ =~= t.name@.subrange(0, len as int));
    }
    proof {
        task::lemma_name_of(t.name@, len as int);
    }
    r
}

/// The list of the threads that have not ended, by slot.
pub fn list_threads(s: &Scheduler) -> (r: Vec<ThreadRow>)
    ensures
        r@.len() == s@.listed(MAX_THREADS as nat).len(),
        forall|k: int|
            0 <= k < r@.len() ==> s@.is_row(#[trigger] r@[k], s@.listed(MAX_THREADS as nat)[k]),
{
    let mut rows: Vec<ThreadRow> = Vec::new();
    let mut i: usize = 0;
    while i < MAX_THREADS
        invariant
            i <= MAX_THREADS,
            rows@.len() == s@.listed(i as nat).len(),
            forall|k: int|
                0 <= k < rows@.len() ==> s@.is_row(#[trigger] rows@[k], s@.listed(i as nat)[k]),
        decreases MAX_THREADS - i,
    {
        match s.threads[i] {
            Some(t) => {
                if t.state != TaskState::Dead {
                    let row = ThreadRow {
                        current: s.current_thread == i as i32,
                        tid: t.tid,
                        pid: t.pid,
                        priority: priority_text(t.priority),
                        state: state_text(t.state),
                        name: name_bytes(&t),
                    };
                    rows.push(row);
                }
            },
            None => {},
        }
        i = i + 1;
    }
    rows
}

/// The name of the thread in a slot.
pub fn get_thread_name(s: &Scheduler, idx: usize) -> (r: Option<Vec<u8>>)
    ensures
        match r {
            Some(n) => idx < MAX_THREADS && (s@.threads[idx as int] matches Some(t) && n@
                == task::name_of(t.name@)),
            None => idx >= MAX_THREADS || s@.threads[idx as int] is None,
        },
{
    if idx >= MAX_THREADS {
        return None;
    }
    match s.threads[idx] {
        Some(t) => Some(name_bytes(&t)),
        None => None,
    }
}

/// After `schedule` at most the current thread runs, and if the scheduler is
/// active and any thread could run, the current one does.
pub proof fn law_schedule_runs_one_thread(v: Tasks)
    requires
        v.wf(),
        v.one_running(),
    ensures
        v.scheduled().0.one_running(),
        ({
            let w = v.scheduled().0;
            v.active && v.current >= 0 && (exists|i: int|
                0 <= i < MAX_THREADS && #[trigger] v.rested().ready(i)) ==> in_state(
                w.threads[w.current as int],
                TaskState::Running,
            )
        }),
{
    if v.active && v.current >= 0 {
        let r = v.rested();
        lemma_next(r);
        if exists|i: int| 0 <= i < MAX_THREADS && #[trigger] r.ready(i) {
            let i = choose|i: int| 0 <= i < MAX_THREADS && #[trigger] r.ready(i);
            assert(r.ready(i));
        }
    }
}

/// The next thread is the first one, behind the current one, that may run;
/// there is one as soon as any thread is ready.
pub proof fn lemma_next(v: Tasks)
    requires
        v.threads.len() == MAX_THREADS,
        0 <= v.current < MAX_THREADS,
    ensures
        match v.next() {
            Some(n) => {
                &&& 0 <= n < MAX_THREADS
                &&& v.may_run(n)
                &&& forall|i: int|
                    0 <= i < MAX_THREADS && #[trigger] v.may_run(i) ==> v.distance(n) <= v.distance(
                        i,
                    )
            },
            None => forall|i: int| 0 <= i < MAX_THREADS ==> !#[trigger] v.ready(i),
        },
{
    let p = |k: int| v.may_run(v.turn(k));
    search::lemma_first(MAX_THREADS as nat, p);
    match search::first(MAX_THREADS as nat, p) {
        Some(k) => {
            let n = v.turn(k as int);
            assert(p(k as int));
            assert(v.distance(n) == k);
            assert forall|i: int| 0 <= i < MAX_THREADS && #[trigger] v.may_run(i) implies v.distance(
                n,
            ) <= v.distance(i) by {
                lemma_distance(v, i);
                if v.distance(i) < k {
                    assert(!p(v.distance(i)));
                }
            }
        },
        None => {
            if exists|i: int| 0 <= i < MAX_THREADS && #[trigger] v.ready(i) {
                let i = choose|i: int| 0 <= i < MAX_THREADS && #[trigger] v.ready(i);
                lemma_some_may_run(v, i, 0);
                let m = choose|m: int| 0 <= m < MAX_THREADS && v.may_run(m);
                lemma_distance(v, m);
                assert(!p(v.distance(m)));
            }
        },
    }
}

/// Where a thread is ready, one of the highest priority is.
proof fn lemma_some_may_run(v: Tasks, i: int, n: int)
    requires
        0 <= i < MAX_THREADS,
        v.ready(i),
        0 <= n <= MAX_THREADS,
        forall|j: int| 0 <= j < n && #[trigger] v.ready(j) ==> v.rank(j) <= v.rank(i),
    ensures
        exists|m: int| 0 <= m < MAX_THREADS && v.may_run(m),
    decreases MAX_THREADS - n,
{
    if n == MAX_THREADS {
        assert(v.may_run(i));
    } else if v.ready(n) && v.rank(n) > v.rank(i) {
        lemma_some_may_run(v, n, n + 1);
    } else {
        lemma_some_may_run(v, i, n + 1);
    }
}

/// Whatever happens to threads between two calls of `schedule`, no second one
/// starts to run: a thread that gives up the processor, one that wakes up, one
/// that is unblocked and one that is new all leave at most one running.
pub proof fn law_at_most_one_thread_runs(v: Tasks, s: TaskState, i: int, t: Thread)
    requires
        v.wf(),
        v.one_running(),
        s != TaskState::Running,
        0 <= i < MAX_THREADS,
        t.state != TaskState::Running,
    ensures
        v.gives_up(s).0.one_running(),
        v.woken().one_running(),
        v.with_state(i, TaskState::Ready).one_running(),
        v.with_thread(i, t).one_running(),
{
    if v.current >= 0 {
        lemma_with_state(v, v.current as int, s);
        law_schedule_runs_one_thread(v.with_state(v.current as int, s));
    }
}

/// `schedule` switches to a thread only if no ready thread has a higher
/// priority: a thread of higher priority preempts one of lower priority.
pub proof fn law_highest_priority_goes_first(v: Tasks, i: int)
    requires
        v.wf(),
        v.active,
        v.current >= 0,
        0 <= i < MAX_THREADS,
        v.rested().ready(i),
    ensures
        ({
            let w = v.scheduled().0;
            v.rank(i) <= w.rank(w.current as int)
        }),
{
    let r = v.rested();
    lemma_next(r);
    assert(r.ready(i));
}

/// Round robin: each `schedule` either runs a waiting thread of the highest
/// priority or brings it closer to its turn.
pub proof fn law_waiting_threads_take_turns(v: Tasks, i: int)
    requires
        v.wf(),
        v.active,
        v.current >= 0,
        0 <= i < MAX_THREADS,
        v.rested().may_run(i),
    ensures
        ({
            let w = v.scheduled().0;
            w.current == i || w.distance(i) < v.distance(i)
        }),
{
    let r = v.rested();
    lemma_next(r);
    assert(r.may_run(i));
    let n = r.next()->0;
    assert(r.distance(n) <= r.distance(i));
    lemma_closer(v.current as int, n, i);
    assert(v.scheduled().0.current == n);
}

proof fn lemma_closer(cur: int, n: int, i: int)
    requires
        0 <= cur < 64,
        0 <= n < 64,
        0 <= i < 64,
        (n - cur - 1) % 64 <= (i - cur - 1) % 64,
    ensures
        n == i || (i - n - 1) % 64 < (i - cur - 1) % 64,
{
}

/// A sleeping thread becomes ready with the tick it was to sleep until, and
/// not before.
pub proof fn law_sleep_ends_on_time(v: Tasks, i: int)
    requires
        v.wf(),
        0 <= i < MAX_THREADS,
        in_state(v.threads[i], TaskState::Blocked),
        v.sleep_until[i] > 0,
    ensures
        v.woken().ready(i) <==> v.ticks >= v.sleep_until[i],
        v.ticks < v.sleep_until[i] ==> v.woken().threads[i] == v.threads[i],
        v.ticks < v.sleep_until[i] ==> v.woken().sleep_until[i] == v.sleep_until[i],
{
}

/// The first switch to a new thread starts it at its entry point: six
/// registers are taken from its stack, all zero, and then the return address.
pub proof fn law_new_thread_starts_at_its_entry(bytes: Seq<u8>, top: int, entry: u64)
    requires
        56 <= top <= bytes.len(),
    ensures
        ({
            let b = stack_prepared(bytes, top, entry);
            let rsp = top - 56;
            &&& forall|k: int| 0 <= k < 6 ==> #[trigger] ram::le64(b, rsp + 8 * k) == 0
            &&& ram::le64(b, rsp + 48) == entry
        }),
{
    reveal(ram::le64);
    let f = ram::filled(bytes, top - 56, 48, 0);
    let b = stack_prepared(bytes, top, entry);
    ram::law_stored_word_is_read_back(f, top - 8, entry);
    assert forall|k: int| 0 <= k < 6 implies #[trigger] ram::le64(b, top - 56 + 8 * k) == 0 by {
        let a = top - 56 + 8 * k;
        assert(b[a] == 0 && b[a + 1] == 0 && b[a + 2] == 0 && b[a + 3] == 0);
        assert(b[a + 4] == 0 && b[a + 5] == 0 && b[a + 6] == 0 && b[a + 7] == 0);
    }
}

/// The frames with those of a kernel stack free, given where the stack ends. A
/// thread without a stack of its own has none to give.
pub open spec fn stack_released(f: Frames, top: u64) -> Frames {
    let last = top as int / 4096;
    if KERNEL_STACK_SIZE <= top && last <= MAX_FRAMES {
        f.release(last - 4).release(last - 3).release(last - 2).release(last - 1)
    } else {
        f
    }
}

/// Frees a kernel stack. See `stack_released`.
fn free_kernel_stack(frames: &mut FrameAllocator, top: u64)
    requires
        old(frames).wf(),
    ensures
        final(frames).wf(),
        final(frames)@ == stack_released(old(frames)@, top),
{
    if top >= KERNEL_STACK_SIZE as u64 && top / 4096 <= MAX_FRAMES as u64 {
        let last: usize = (top / 4096) as usize;
        phys::free_frame(frames, (last - 4) * 4096);
        phys::free_frame(frames, (last - 3) * 4096);
        phys::free_frame(frames, (last - 2) * 4096);
        phys::free_frame(frames, (last - 1) * 4096);
    }
}

impl Tasks {
    /// The thread in slot `i` has ended and does not run any more.
    pub open spec fn over(self, i: int) -> bool {
        in_state(self.threads[i], TaskState::Dead) && i != self.current
    }

    /// The tables with slot `i` empty.
    pub open spec fn without_thread(self, i: int) -> Tasks {
        Tasks {
            threads: self.threads.update(i, None),
            processes: match self.processes[0] {
                Some(p) => if of_kernel(self.threads[i]) && p.thread_count > 0 {
                    self.processes.update(
                        0,
                        Some(Process { thread_count: (p.thread_count - 1) as usize, ..p }),
                    )
                } else {
                    self.processes
                },
                None => self.processes,
            },
            sleep_until: self.sleep_until.update(i, 0),
            ..self
        }
    }

    /// The tables and the frames once the threads in the first `n` slots that
    /// have ended are gone with their stacks.
    pub open spec fn reaped(self, f: Frames, n: int) -> (Tasks, Frames)
        decreases n,
    {
        if n <= 0 {
            (self, f)
        } else {
            let (t, g) = self.reaped(f, n - 1);
            if self.over(n - 1) {
                (t.without_thread(n - 1), stack_released(g, self.threads[n - 1]->0.kernel_stack))
            } else {
                (t, g)
            }
        }
    }
}

/// Removes the thread in slot `i`, which must not be the current one.
fn remove_thread(s: &mut Scheduler, i: usize)
    requires
        old(s).wf(),
        i < MAX_THREADS,
        old(s).threads@[i as int] is Some,
        i != old(s).current_thread,
    ensures
        final(s).wf(),
        final(s)@ == old(s)@.without_thread(i as int),
{
    let ghost v = s@;
    let kernel: bool = match s.threads[i] {
        Some(t) => t.pid == 0,
        None => false,
    };
    s.threads[i] = None;
    s.sleep_until[i] = 0;
    match s.processes[0] {
        Some(p) => {
            if kernel && p.thread_count > 0 {
                let mut p = p;
                p.thread_count = p.thread_count - 1;
                s.processes[0] = Some(p);
            }
        },
        None => {},
    }
    proof {
        assert(s@ =~= v.without_thread(i as int));
        if kernel {
            search::lemma_count_add(
                MAX_THREADS as nat,
                |j: int| of_kernel(s@.threads[j]),
                |j: int| of_kernel(v.threads[j]),
                i as int,
            );
        } else {
            search::lemma_count_same(
                MAX_THREADS as nat,
                |j: int| of_kernel(s@.threads[j]),
                |j: int| of_kernel(v.threads[j]),
            );
        }
    }
}

/// Removes the threads that have ended, and frees their stacks. The current
/// thread stays, whatever its state is: it still uses its stack.
pub fn reap_dead_threads(s: &mut Scheduler, frames: &mut FrameAllocator)
    requires
        old(s).wf(),
        old(frames).wf(),
    ensures
        final(s).wf(),
        final(frames).wf(),
        (final(s)@, final(frames)@) == old(s)@.reaped(old(frames)@, MAX_THREADS as int),
{
    let ghost v = s@;
    let mut i: usize = 0;
    while i < MAX_THREADS
        invariant
            i <= MAX_THREADS,
            s.wf(),
            frames.wf(),
            v == old(s)@,
            (s@, frames@) == v.reaped(old(frames)@, i as int),
            s.current_thread == v.current,
            forall|j: int| i <= j < MAX_THREADS ==> s.threads@[j] == v.threads[j],
        decreases MAX_THREADS - i,
    {
        match s.threads[i] {
            Some(t) => {
                if t.state == TaskState::Dead && i as i32 != s.current_thread {
                    remove_thread(s, i);
                    free_kernel_stack(frames, t.kernel_stack);
                }
            },
            None => {},
        }
        i = i + 1;
    }
}

/// `reaped` slot by slot.
proof fn lemma_reaped(v: Tasks, f: Frames, n: int)
    requires
        v.wf(),
        0 <= n <= MAX_THREADS,
    ensures
        v.reaped(f, n).0.threads.len() == MAX_THREADS,
        v.reaped(f, n).0.current == v.current,
        v.reaped(f, n).0.ticks == v.ticks,
        v.reaped(f, n).0.active == v.active,
        forall|i: int|
            0 <= i < MAX_THREADS ==> #[trigger] v.reaped(f, n).0.threads[i] == (if i < n && v.over(
                i,
            ) {
                None
            } else {
                v.threads[i]
            }),
    decreases n,
{
    if n > 0 {
        lemma_reaped(v, f, n - 1);
    }
}

/// Reaping empties the slots of the threads that have ended, and leaves the
/// other threads as they are.
pub proof fn law_reaping_removes_dead_threads_alone(v: Tasks, f: Frames, i: int)
    requires
        v.wf(),
        0 <= i < MAX_THREADS,
    ensures
        ({
            let w = v.reaped(f, MAX_THREADS as int).0;
            &&& v.over(i) ==> w.threads[i] is None
            &&& !v.over(i) ==> w.threads[i] == v.threads[i]
            &&& !w.over(i)
            &&& w.current == v.current
        }),
{
    lemma_reaped(v, f, MAX_THREADS as int);
}

/// Reaping gives back the stack that was taken for a thread, if its frames lie
/// one behind the other.
pub proof fn law_reaping_gives_back_the_stack(m: Mem)
    requires
        m.sane(),
        m.frames.lowest_free() matches Some(f) && f + 4 <= m.frames.total && forall|k: int|
            0 <= k < 4 ==> !#[trigger] m.frames.used[f + k],
    ensures
        frames_taken(m, 4).1,
        stack_released(
            frames_taken(m, 4).0.frames,
            (m.fresh_addr() + KERNEL_STACK_SIZE) as u64,
        ) == m.frames,
{
    let f = m.frames.lowest_free()->0 as int;
    reveal_with_fuel(frames_taken, 5);
    let m1 = m.fresh();
    let m2 = m1.fresh();
    let m3 = m2.fresh();
    let m4 = m3.fresh();
    assert(!m.frames.used[f + 1] && !m.frames.used[f + 2] && !m.frames.used[f + 3]);
    lemma_next_lowest(m.frames, f);
    lemma_next_lowest(m1.frames, f + 1);
    lemma_next_lowest(m2.frames, f + 2);
    let g = frames_taken(m, 4).0.frames;
    let top = (m.fresh_addr() + KERNEL_STACK_SIZE) as u64;
    assert(g == m4.frames);
    assert(top as int / 4096 == f + 4);
    assert(!m.frames.used[f + 0]);
    assert(g.used =~= m.frames.used.update(f, true).update(f + 1, true).update(f + 2, true).update(
        f + 3,
        true,
    ));
    assert(stack_released(g, top).used =~= m.frames.used);
}

/// Behind a frame that was the lowest free one the next is, if it is free.
proof fn lemma_next_lowest(a: Frames, f: int)
    requires
        a.used.len() == MAX_FRAMES,
        a.total <= MAX_FRAMES,
        a.lowest_free() == Some(f as usize),
        0 <= f < f + 1 < a.total,
        !a.used[f + 1],
    ensures
        a.take(f).lowest_free() == Some((f + 1) as usize),
{
    let p = |j: int| !a.used[j];
    let q = |j: int| !a.take(f).used[j];
    search::lemma_first(a.total, p);
    assert(forall|j: int| 0 <= j < f ==> !#[trigger] p(j));
    assert forall|j: int| 0 <= j < f + 1 implies !#[trigger] q(j) by {
        if j < f {
            assert(!p(j));
        }
    }
    search::lemma_first_is(a.total, q, (f + 1) as usize);
}

} // verus!
