//! Tasks: processes, which own an address space, and threads, which run in it.

use vstd::prelude::*;
use vstd::string::*;

verus! {

/// The number of a process.
pub type Pid = u64;

/// The number of a thread.
pub type Tid = u64;

/// Bytes kept of a thread's name, the closing zero included.
pub const THREAD_NAME_SIZE: usize = 32;

/// Bytes kept of a process's name, the closing zero included.
pub const PROCESS_NAME_SIZE: usize = 64;

/// The state of a thread.
#[derive(Debug, Clone, Copy, PartialEq, Eq, Structural)]
pub enum TaskState {
    /// Made, and not yet run.
    Created,
    /// Waits for its turn.
    Ready,
    /// Runs right now.
    Running,
    /// Waits for an event.
    Blocked,
    /// Has ended.
    Dead,
}

/// The priority of a thread.
#[derive(Debug, Clone, Copy, PartialEq, Eq, PartialOrd, Ord, Structural)]
pub enum Priority {
    Idle,
    Low,
    Normal,
    High,
    Realtime,
}

impl Priority {
    /// The rank of a priority: a higher one goes first.
    pub open spec fn rank(self) -> int {
        match self {
            Priority::Idle => 0,
            Priority::Low => 1,
            Priority::Normal => 2,
            Priority::High => 3,
            Priority::Realtime => 4,
        }
    }

    /// The rank of a priority as a number.
    pub fn level(self) -> (r: u8)
        ensures
            r == self.rank(),
    {
        match self {
            Priority::Idle => 0,
            Priority::Low => 1,
            Priority::Normal => 2,
            Priority::High => 3,
            Priority::Realtime => 4,
        }
    }
}

/// The registers that are kept while a thread does not run.
#[derive(Debug, Clone, Copy, PartialEq, Eq, Structural)]
pub struct CpuContext {
    pub rsp: u64,
    pub rbp: u64,
    pub rbx: u64,
    pub r12: u64,
    pub r13: u64,
    pub r14: u64,
    pub r15: u64,
    pub rip: u64,
    pub rflags: u64,
}

impl CpuContext {
    /// All registers zero, with interrupts enabled.
    pub open spec fn spec_empty() -> CpuContext {
        CpuContext {
            rsp: 0,
            rbp: 0,
            rbx: 0,
            r12: 0,
            r13: 0,
            r14: 0,
            r15: 0,
            rip: 0,
            rflags: 0x200,
        }
    }

    /// All registers zero, with interrupts enabled.
    pub fn empty() -> (r: CpuContext)
        ensures
            r == CpuContext::spec_empty(),
    {
        CpuContext {
            rsp: 0,
            rbp: 0,
            rbx: 0,
            r12: 0,
            r13: 0,
            r14: 0,
            r15: 0,
            rip: 0,
            rflags: 0x200,
        }
    }
}

/// A thread: what the scheduler switches between.
#[derive(Clone, Copy)]
pub struct Thread {
    pub tid: Tid,
    /// The process it belongs to.
    pub pid: Pid,
    pub state: TaskState,
    pub priority: Priority,
    pub context: CpuContext,
    /// The top of its kernel stack.
    pub kernel_stack: u64,
    /// Its name, closed by a zero.
    pub name: [u8; THREAD_NAME_SIZE],
}

/// A name buffer after a name was put into it: as much of the name as fits in
/// front of a closing zero. What stood behind the zero stays.
pub open spec fn named(buf: Seq<u8>, name: Seq<u8>) -> Seq<u8> {
    let len = name_len(buf, name);
    Seq::new(
        buf.len(),
        |i: int|
            if i < len {
                name[i]
            } else if i == len {
                0
            } else {
                buf[i]
            },
    )
}

/// How many bytes of a name fit into a buffer.
pub open spec fn name_len(buf: Seq<u8>, name: Seq<u8>) -> int {
    if name.len() < buf.len() - 1 {
        name.len() as int
    } else {
        buf.len() - 1
    }
}

/// The part of a name buffer in front of the first zero.
pub open spec fn name_of(buf: Seq<u8>) -> Seq<u8>
    decreases buf.len(),
{
    if buf.len() == 0 || buf[0] == 0 {
        Seq::empty()
    } else {
        seq![buf[0]] + name_of(buf.subrange(1, buf.len() as int))
    }
}

/// `name_of` ends at the first zero, or at the end of the buffer.
pub proof fn lemma_name_of(buf: Seq<u8>, n: int)
    requires
        0 <= n <= buf.len(),
        forall|i: int| 0 <= i < n ==> buf[i] != 0,
        n == buf.len() || buf[n] == 0,
    ensures
        name_of(buf) == buf.subrange(0, n),
    decreases buf.len(),
{
    if buf.len() != 0 && buf[0] != 0 {
        let rest = buf.subrange(1, buf.len() as int);
        assert forall|i: int| 0 <= i < n - 1 implies rest[i] != 0 by {
            assert(rest[i] == buf[i + 1]);
        }
        lemma_name_of(rest, n - 1);
        assert(name_of(buf) =~= buf.subrange(0, n));
    } else {
        assert(n == 0);
        assert(buf.subrange(0, 0) =~= Seq::empty());
    }
}

/// A name without a zero byte that fits is read back from its buffer.
pub proof fn law_name_is_read_back(buf: Seq<u8>, name: Seq<u8>)
    requires
        name.len() < buf.len(),
        forall|i: int| 0 <= i < name.len() ==> name[i] != 0,
    ensures
        name_of(named(buf, name)) == name,
{
    lemma_name_of(named(buf, name), name.len() as int);
    assert(named(buf, name).subrange(0, name.len() as int) =~= name);
}

impl Thread {
    /// A new thread that starts at `entry_point`.
    pub open spec fn made(tid: Tid, pid: Pid, entry_point: u64, stack_top: u64) -> Thread {
        Thread {
            tid,
            pid,
            state: TaskState::Created,
            priority: Priority::Normal,
            context: CpuContext { rip: entry_point, rsp: stack_top, ..CpuContext::spec_empty() },
            kernel_stack: 0,
            name: [0u8; THREAD_NAME_SIZE],
        }
    }

    /// A new thread that starts at `entry_point`, with the stack growing down
    /// from `stack_top`.
    pub fn new(tid: Tid, pid: Pid, entry_point: u64, stack_top: u64) -> (r: Thread)
        ensures
            r == Thread::made(tid, pid, entry_point, stack_top),
    {
        let mut ctx = CpuContext::empty();
        ctx.rip = entry_point;
        ctx.rsp = stack_top;
        Thread {
            tid,
            pid,
            state: TaskState::Created,
            priority: Priority::Normal,
            context: ctx,
            kernel_stack: 0,
            name: [0u8; THREAD_NAME_SIZE],
        }
    }

    /// Sets the name, cut to 31 bytes.
    pub fn set_name(&mut self, name: &str)
        ensures
            final(self).name@ == named(old(self).name@, name.spec_bytes()),
            *final(self) == (Thread { name: final(self).name, ..*old(self) }),
    {
        let bytes: &[u8] = name.as_bytes();
        let len: usize = if bytes.len() < THREAD_NAME_SIZE - 1 {
            bytes.len()
        } else {
            THREAD_NAME_SIZE - 1
        };
        let mut i: usize = 0;
        while i < len
            invariant
                i <= len,
                len <= bytes.len(),
                len == name_len(old(self).name@, bytes@),
                len < THREAD_NAME_SIZE,
                *self == (Thread { name: self.name, ..*old(self) }),
                forall|j: int| 0 <= j < i ==> self.name@[j] == bytes@[j],
                forall|j: int| i <= j < THREAD_NAME_SIZE ==> self.name@[j] == old(self).name@[j],
            decreases len - i,
        {
            self.name[i] = bytes[i];
            i = i + 1;
        }
        self.name[len] = 0;
        assert(self.name@ =~= named(old(self).name@, bytes@));
    }
}

/// A process: an address space with threads in it.
#[derive(Clone, Copy)]
pub struct Process {
    pub pid: Pid,
    /// The physical address of its PML4.
    pub cr3: u64,
    pub state: TaskState,
    /// Its name, closed by a zero.
    pub name: [u8; PROCESS_NAME_SIZE],
    pub thread_count: usize,
}

impl Process {
    /// A new process without threads.
    pub open spec fn made(pid: Pid, cr3: u64) -> Process {
        Process {
            pid,
            cr3,
            state: TaskState::Created,
            name: [0u8; PROCESS_NAME_SIZE],
            thread_count: 0,
        }
    }

    /// A new process without threads.
    pub fn new(pid: Pid, cr3: u64) -> (r: Process)
        ensures
            r == Process::made(pid, cr3),
    {
        Process {
            pid,
            cr3,
            state: TaskState::Created,
            name: [0u8; PROCESS_NAME_SIZE],
            thread_count: 0,
        }
    }

    /// Sets the name, cut to 63 bytes.
    pub fn set_name(&mut self, name: &str)
        ensures
            final(self).name@ == named(old(self).name@, name.spec_bytes()),
            *final(self) == (Process { name: final(self).name, ..*old(self) }),
    {
        let bytes: &[u8] = name.as_bytes();
        let len: usize = if bytes.len() < PROCESS_NAME_SIZE - 1 {
            bytes.len()
        } else {
            PROCESS_NAME_SIZE - 1
        };
        let mut i: usize = 0;
        while i < len
            invariant
                i <= len,
                len <= bytes.len(),
                len == name_len(old(self).name@, bytes@),
                len < PROCESS_NAME_SIZE,
                *self == (Process { name: self.name, ..*old(self) }),
                forall|j: int| 0 <= j < i ==> self.name@[j] == bytes@[j],
                forall|j: int| i <= j < PROCESS_NAME_SIZE ==> self.name@[j] == old(self).name@[j],
            decreases len - i,
        {
            self.name[i] = bytes[i];
            i = i + 1;
        }
        self.name[len] = 0;
        assert(self.name@ =~= named(old(self).name@, bytes@));
    }
}

/// The counters behind unique process and thread numbers.
#[derive(Clone, Copy, PartialEq, Eq, Structural)]
pub struct TaskIds {
    pub next_pid: Pid,
    pub next_tid: Tid,
}

impl TaskIds {
    /// Counters that start at 1: number 0 belongs to the kernel.
    pub fn new() -> (r: TaskIds)
        ensures
            r == (TaskIds { next_pid: 1, next_tid: 1 }),
    {
        TaskIds { next_pid: 1, next_tid: 1 }
    }
}

/// Hands out a process number that was not handed out before.
pub fn alloc_pid(ids: &mut TaskIds) -> (r: Pid)
    requires
        old(ids).next_pid < u64::MAX,
    ensures
        r == old(ids).next_pid,
        *final(ids) == (TaskIds { next_pid: (r + 1) as u64, ..*old(ids) }),
{
    let pid: Pid = ids.next_pid;
    ids.next_pid = pid + 1;
    pid
}

/// Hands out a thread number that was not handed out before.
pub fn alloc_tid(ids: &mut TaskIds) -> (r: Tid)
    requires
        old(ids).next_tid < u64::MAX,
    ensures
        r == old(ids).next_tid,
        *final(ids) == (TaskIds { next_tid: (r + 1) as u64, ..*old(ids) }),
{
    let tid: Tid = ids.next_tid;
    ids.next_tid = tid + 1;
    tid
}

} // verus!
