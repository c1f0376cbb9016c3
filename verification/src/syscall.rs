//! System calls: what a program asks the kernel for.
//!
//! The number of the call comes with three arguments. Where one of them is a
//! pointer, `user` is the memory that it points to.

use vstd::prelude::*;
use vstd::string::*;
use crate::clock;
use crate::drivers;
use crate::drivers::Device;
use crate::gdt;
use crate::ipc;
use crate::ipc::Message;
use crate::kernel::{Kernel, World};
use crate::memory::paging;
use crate::memory::paging::region;
use crate::memory::ram;
use crate::scheduler;
use crate::scheduler::Switch;
use crate::task::{Priority, Tid};
use crate::userspace::USER_END;
use crate::vfs;

verus! {

/// The register that turns system calls on.
pub const MSR_EFER: u32 = 0xC000_0080;

/// The register with the segments of system calls.
pub const MSR_STAR: u32 = 0xC000_0081;

/// The register with the entry point of system calls.
pub const MSR_LSTAR: u32 = 0xC000_0082;

/// The register with the flags that a system call clears.
pub const MSR_SFMASK: u32 = 0xC000_0084;

pub const SYS_READ: u64 = 0;

pub const SYS_WRITE: u64 = 1;

pub const SYS_OPEN: u64 = 2;

pub const SYS_CLOSE: u64 = 3;

pub const SYS_EXIT: u64 = 4;

pub const SYS_YIELD: u64 = 5;

pub const SYS_GETPID: u64 = 6;

pub const SYS_SPAWN: u64 = 7;

pub const SYS_IPC_SEND: u64 = 8;

pub const SYS_IPC_RECV: u64 = 9;

pub const SYS_IPC_REGISTER: u64 = 10;

pub const SYS_MMAP: u64 = 11;

pub const SYS_MUNMAP: u64 = 12;

pub const SYS_SLEEP: u64 = 13;

pub const SYS_DEVICE_INFO: u64 = 14;

/// What a call that fails returns: -1.
pub const FAILED: u64 = 0xFFFF_FFFF_FFFF_FFFF;

/// The most bytes that one read or write moves.
pub const MAX_TRANSFER: usize = 4096;

/// The longest path that `open` takes, in bytes.
pub const MAX_PATH: usize = 255;

/// The descriptor of the screen.
pub const STDOUT: u64 = 1;

/// Bytes that `SYS_DEVICE_INFO` writes: the name, then three numbers of 8 bytes.
pub const DEVICE_RECORD: usize = 56;

/// Segments for `syscall` in bits 32 to 47, for `sysret` in bits 48 to 63.
pub const STAR_VALUE: u64 = 0x0010_0008_0000_0000;

/// A write to a model-specific register.
#[derive(Debug, Clone, Copy, PartialEq, Eq, Structural)]
pub struct MsrWrite {
    pub msr: u32,
    pub value: u64,
}

/// The writes that turn system calls on, given what `MSR_EFER` holds and where
/// the entry point is: calls are enabled, the segments and the entry point set,
/// and interrupts masked during a call.
pub fn init(efer: u64, entry: u64) -> (r: [MsrWrite; 4])
    ensures
        r@ == seq![
            MsrWrite { msr: MSR_EFER, value: (efer - efer % 2 + 1) as u64 },
            MsrWrite { msr: MSR_STAR, value: STAR_VALUE },
            MsrWrite { msr: MSR_LSTAR, value: entry },
            MsrWrite { msr: MSR_SFMASK, value: 0x200 },
        ],
{
    let r: [MsrWrite; 4] = [
        MsrWrite { msr: MSR_EFER, value: efer - efer % 2 + 1 },
        MsrWrite { msr: MSR_STAR, value: STAR_VALUE },
        MsrWrite { msr: MSR_LSTAR, value: entry },
        MsrWrite { msr: MSR_SFMASK, value: 0x200 },
    ];
    assert(r@ =~= seq![
        MsrWrite { msr: MSR_EFER, value: (efer - efer % 2 + 1) as u64 },
        MsrWrite { msr: MSR_STAR, value: STAR_VALUE },
        MsrWrite { msr: MSR_LSTAR, value: entry },
        MsrWrite { msr: MSR_SFMASK, value: 0x200 },
    ]);
    r
}

/// What comes of a system call.
pub struct SysReturn {
    /// What the program gets.
    pub value: u64,
    /// What goes to the screen.
    pub output: Vec<u8>,
    /// A switch of threads to be carried out.
    pub switch: Option<Switch>,
}

/// The call gives a value and nothing else.
pub open spec fn gives(r: SysReturn, value: u64) -> bool {
    r.value == value && r.output@.len() == 0 && r.switch is None
}

/// A call that gives a value and nothing else.
fn returned(value: u64) -> (r: SysReturn)
    ensures
        gives(r, value),
{
    SysReturn { value, output: Vec::new(), switch: None }
}

/// A number as an index. One that is too large for an index becomes the largest.
fn as_index(v: u64) -> (r: usize)
    ensures
        r == (if v <= usize::MAX {
            v as int
        } else {
            usize::MAX as int
        }),
{
    if v <= usize::MAX as u64 {
        v as usize
    } else {
        usize::MAX
    }
}

/// The smaller of two numbers.
pub open spec fn at_most(len: u64, limit: int) -> int {
    if len < limit {
        len as int
    } else {
        limit
    }
}

/// A length cut to a limit.
fn cut_to(len: u64, limit: usize) -> (r: usize)
    ensures
        r == at_most(len, limit as int),
{
    if len < limit as u64 {
        len as usize
    } else {
        limit
    }
}

/// How many bytes the memory that the pointer points to must have.
pub open spec fn needed(nr: u64, arg0: u64, arg1: u64, arg2: u64) -> int {
    if nr == SYS_WRITE {
        if arg0 == STDOUT {
            arg2 as int
        } else {
            at_most(arg2, MAX_TRANSFER as int)
        }
    } else if nr == SYS_READ {
        at_most(arg2, MAX_TRANSFER as int)
    } else if nr == SYS_IPC_SEND {
        at_most(arg2, ipc::MAX_PAYLOAD as int)
    } else if nr == SYS_IPC_RECV {
        ipc::MAX_PAYLOAD as int
    } else if nr == SYS_IPC_REGISTER {
        at_most(arg1, ipc::MAX_NAME_LEN as int)
    } else if nr == SYS_DEVICE_INFO {
        DEVICE_RECORD as int
    } else {
        0
    }
}

/// The pointer among the arguments of a call, and how many bytes are needed
/// there. For `SYS_OPEN` it is the path, which ends with a zero byte or after
/// 255 bytes.
pub fn pointer_of(nr: u64, arg0: u64, arg1: u64, arg2: u64) -> (r: Option<(u64, u64)>)
    ensures
        match r {
            Some((pointer, len)) => {
                &&& pointer == (if nr == SYS_OPEN || nr == SYS_IPC_REGISTER {
                    arg0
                } else {
                    arg1
                })
                &&& len == (if nr == SYS_OPEN {
                    MAX_PATH as int
                } else {
                    needed(nr, arg0, arg1, arg2)
                })
            },
            None => needed(nr, arg0, arg1, arg2) == 0 && nr != SYS_OPEN,
        },
        r is Some <==> nr == SYS_WRITE || nr == SYS_READ || nr == SYS_OPEN || nr == SYS_IPC_SEND
            || nr == SYS_IPC_RECV || nr == SYS_IPC_REGISTER || nr == SYS_DEVICE_INFO,
{
    match nr {
        SYS_WRITE => if arg0 == STDOUT {
            Some((arg1, arg2))
        } else {
            Some((arg1, cut_to(arg2, MAX_TRANSFER) as u64))
        },
        SYS_READ => Some((arg1, cut_to(arg2, MAX_TRANSFER) as u64)),
        SYS_OPEN => Some((arg0, MAX_PATH as u64)),
        SYS_IPC_SEND => Some((arg1, cut_to(arg2, ipc::MAX_PAYLOAD) as u64)),
        SYS_IPC_RECV => Some((arg1, ipc::MAX_PAYLOAD as u64)),
        SYS_IPC_REGISTER => Some((arg0, cut_to(arg1, ipc::MAX_NAME_LEN) as u64)),
        SYS_DEVICE_INFO => Some((arg1, DEVICE_RECORD as u64)),
        _ => None,
    }
}

/// Writes to the screen, or at most 4096 bytes to a file.
pub fn sys_write(
    k: &mut Kernel,
    bytes: &mut [u8],
    user: &[u8],
    fd: u64,
    len: u64,
) -> (r: SysReturn)
    requires
        old(k).wf(old(bytes)@),
        user@.len() >= needed(SYS_WRITE, fd, 0, len),
    ensures
        final(k).wf(final(bytes)@),
        final(bytes)@.len() == old(bytes)@.len(),
        wrote(old(k).world(old(bytes)@), user@, fd, len, final(k).world(final(bytes)@), r),
{
    if fd == STDOUT {
        let n: usize = cut_to(len, user.len());
        let part: &[u8] = vstd::slice::slice_subrange(user, 0, n);
        let output: Vec<u8> = vstd::slice::slice_to_vec(part);
        return SysReturn { value: len, output, switch: None };
    }
    let n: usize = cut_to(len, MAX_TRANSFER);
    let data: &[u8] = vstd::slice::slice_subrange(user, 0, n);
    let result: isize = vfs::write(&mut k.vfs, &mut k.frames, bytes, as_index(fd), data);
    if result < 0 {
        returned(FAILED)
    } else {
        returned(result as u64)
    }
}

/// What `sys_write` leaves behind and gives.
pub open spec fn wrote(w: World, user: Seq<u8>, fd: u64, len: u64, w2: World, r: SysReturn) -> bool {
    if fd == STDOUT {
        &&& w2 == w
        &&& r.value == len
        &&& r.output@ == user.subrange(0, len as int)
        &&& r.switch is None
    } else {
        let data = user.subrange(0, at_most(len, MAX_TRANSFER as int));
        let (t, m, n) = w.vfs.written_to(w.mem, fd as int, data);
        &&& w2 == (World { vfs: t, mem: m, ..w })
        &&& gives(
            r,
            if n < 0 {
                FAILED
            } else {
                n as u64
            },
        )
    }
}

/// Reads at most 4096 bytes from a file. The keyboard has nothing to read.
pub fn sys_read(k: &mut Kernel, bytes: &[u8], user: &mut [u8], fd: u64, len: u64) -> (r: SysReturn)
    requires
        old(k).wf(bytes@),
        old(user)@.len() >= needed(SYS_READ, fd, 0, len),
    ensures
        final(k).wf(bytes@),
        final(user)@.len() == old(user)@.len(),
        read(
            old(k).world(bytes@),
            old(user)@,
            fd,
            len,
            final(k).world(bytes@),
            final(user)@,
            r,
        ),
{
    if fd == 0 {
        return returned(0);
    }
    let n: usize = cut_to(len, MAX_TRANSFER);
    let mut tmp: Vec<u8> = Vec::new();
    let mut i: usize = 0;
    while i < n
        invariant
            i <= n,
            tmp@.len() == i,
        decreases n - i,
    {
        tmp.push(0);
        i = i + 1;
    }
    let ghost before = tmp@;
    let ghost t = k.vfs@;
    let result: isize = vfs::read(&mut k.vfs, bytes, as_index(fd), tmp.as_mut_slice());
    if result <= 0 {
        proof {
            if t.opened(fd as int) is Some {
                assert(k.vfs@.files =~= t.advanced(fd as int, 0).files);
                let part = t.readable(paging::bare(bytes@), fd as int, n as int);
                assert(ram::patched(user@, 0, part) =~= user@);
            }
        }
        return if result < 0 {
            returned(FAILED)
        } else {
            returned(0)
        };
    }
    let ghost part = t.readable(paging::bare(bytes@), fd as int, n as int);
    ram::copy(user, 0, tmp.as_slice(), 0, result as usize);
    assert(tmp@.subrange(0, result as int) =~= part);
    returned(result as u64)
}

/// What `sys_read` leaves behind and gives.
pub open spec fn read(
    w: World,
    user: Seq<u8>,
    fd: u64,
    len: u64,
    w2: World,
    user2: Seq<u8>,
    r: SysReturn,
) -> bool {
    if fd == 0 {
        w2 == w && user2 == user && gives(r, 0)
    } else if w.vfs.opened(fd as int) is None {
        w2 == w && user2 == user && gives(r, FAILED)
    } else {
        let part = w.vfs.readable(
            paging::bare(w.mem.bytes),
            fd as int,
            at_most(len, MAX_TRANSFER as int),
        );
        &&& w2 == (World { vfs: w.vfs.advanced(fd as int, part.len() as int), ..w })
        &&& user2 == ram::patched(user, 0, part)
        &&& gives(r, part.len() as u64)
    }
}

/// How long the text in some memory is: up to the first zero byte, at most 255
/// bytes.
pub open spec fn text_len(user: Seq<u8>, from: int) -> int
    decreases MAX_PATH - from,
{
    if from >= MAX_PATH || user[from] == 0 {
        from
    } else {
        text_len(user, from + 1)
    }
}

/// The text in some memory ends there.
pub open spec fn has_text(user: Seq<u8>) -> bool {
    user.len() >= MAX_PATH || exists|i: int| 0 <= i < user.len() && #[trigger] user[i] == 0
}

/// Opens a file by its path.
pub fn sys_open(k: &mut Kernel, bytes: &[u8], user: &[u8], flags: u64) -> (r: SysReturn)
    requires
        old(k).wf(bytes@),
        has_text(user@),
    ensures
        final(k).wf(bytes@),
        opened(old(k).world(bytes@), user@, flags, final(k).world(bytes@), r),
{
    let mut len: usize = 0;
    while len < MAX_PATH && user[len] != 0
        invariant
            has_text(user@),
            len <= MAX_PATH,
            len < MAX_PATH ==> len < user@.len(),
            len <= user@.len(),
            forall|j: int| 0 <= j < len ==> user@[j] != 0,
            text_len(user@, 0) == text_len(user@, len as int),
        decreases MAX_PATH - len,
    {
        len = len + 1;
    }
    let path: &[u8] = vstd::slice::slice_subrange(user, 0, len);
    let mode: u32 = (flags % 0x1_0000_0000) as u32;
    match vfs::open(&mut k.vfs, path, mode) {
        Some(fd) => returned(fd as u64),
        None => returned(FAILED),
    }
}

/// What `sys_open` leaves behind and gives.
pub open spec fn opened(w: World, user: Seq<u8>, flags: u64, w2: World, r: SysReturn) -> bool {
    let path = user.subrange(0, text_len(user, 0));
    let (t, fd) = w.vfs.opened_at(path, (flags % 0x1_0000_0000) as u32);
    &&& w2 == (World { vfs: t, ..w })
    &&& gives(
        r,
        match fd {
            Some(f) => f as u64,
            None => FAILED,
        },
    )
}

/// Closes a file.
pub fn sys_close(k: &mut Kernel, bytes: &[u8], fd: u64) -> (r: SysReturn)
    requires
        old(k).wf(bytes@),
    ensures
        final(k).wf(bytes@),
        final(k).world(bytes@) == (World {
            vfs: old(k).vfs@.closed_at(fd as int),
            ..old(k).world(bytes@)
        }),
        gives(r, 0),
{
    vfs::close(&mut k.vfs, as_index(fd));
    returned(0)
}

/// The call gives 0, and another thread may run.
pub open spec fn gives_way(r: SysReturn, switch: Option<Switch>) -> bool {
    r.value == 0 && r.output@.len() == 0 && r.switch == switch
}

/// Ends the current thread.
pub fn sys_exit(k: &mut Kernel, bytes: &[u8], _code: u64) -> (r: SysReturn)
    requires
        old(k).wf(bytes@),
    ensures
        final(k).wf(bytes@),
        ({
            let (t, s) = old(k).tasks@.gives_up(crate::task::TaskState::Dead);
            &&& final(k).world(bytes@) == (World { tasks: t, ..old(k).world(bytes@) })
            &&& gives_way(r, s)
        }),
{
    let switch: Option<Switch> = scheduler::exit_current(&mut k.tasks);
    SysReturn { value: 0, output: Vec::new(), switch }
}

/// Lets another thread run.
pub fn sys_yield(k: &mut Kernel, bytes: &[u8]) -> (r: SysReturn)
    requires
        old(k).wf(bytes@),
    ensures
        final(k).wf(bytes@),
        ({
            let (t, s) = old(k).tasks@.scheduled();
            &&& final(k).world(bytes@) == (World { tasks: t, ..old(k).world(bytes@) })
            &&& gives_way(r, s)
        }),
{
    let switch: Option<Switch> = scheduler::schedule(&mut k.tasks);
    SysReturn { value: 0, output: Vec::new(), switch }
}

/// The number of the process that runs, 0 if none does.
pub open spec fn running_pid(w: World) -> u64 {
    if w.tasks.current < 0 {
        0
    } else {
        w.tasks.threads[w.tasks.current as int]->0.pid
    }
}

/// The number of the current process.
pub fn sys_getpid(k: &Kernel, bytes: &[u8]) -> (r: SysReturn)
    requires
        k.wf(bytes@),
    ensures
        gives(r, running_pid(k.world(bytes@))),
{
    returned(scheduler::current_pid(&k.tasks))
}

/// Sends a request of the current process with at most 256 bytes of data to an
/// endpoint.
pub fn sys_ipc_send(k: &mut Kernel, bytes: &[u8], user: &[u8], endpoint: u64, len: u64) -> (r:
    SysReturn)
    requires
        old(k).wf(bytes@),
        user@.len() >= needed(SYS_IPC_SEND, endpoint, 0, len),
    ensures
        final(k).wf(bytes@),
        sent(old(k).world(bytes@), user@, endpoint, len, final(k).world(bytes@), r),
{
    let n: usize = cut_to(len, ipc::MAX_PAYLOAD);
    let data: &[u8] = vstd::slice::slice_subrange(user, 0, n);
    let mut msg: Message = Message::request(0, data);
    msg.sender = scheduler::current_pid(&k.tasks);
    match ipc::send(&mut k.ipc, as_index(endpoint), msg) {
        Ok(_) => {
            assert(msg.is_request_of(running_pid(old(k).world(bytes@)), 0, data@));
            returned(0)
        },
        Err(_) => returned(FAILED),
    }
}

/// A number is that of a registered endpoint.
pub open spec fn is_endpoint(w: World, endpoint: u64) -> bool {
    endpoint < ipc::MAX_ENDPOINTS && w.ipc[endpoint as int].active
}

/// What `sys_ipc_send` leaves behind and gives.
pub open spec fn sent(
    w: World,
    user: Seq<u8>,
    endpoint: u64,
    len: u64,
    w2: World,
    r: SysReturn,
) -> bool {
    if is_endpoint(w, endpoint) && w.ipc[endpoint as int].waiting.len() < ipc::QUEUE_SIZE {
        &&& gives(r, 0)
        &&& exists|msg: Message| #[trigger]
            msg.is_request_of(
                running_pid(w),
                0,
                user.subrange(0, at_most(len, ipc::MAX_PAYLOAD as int)),
            ) && w2 == (World { ipc: ipc::sent(w.ipc, endpoint as int, msg), ..w })
    } else {
        gives(r, FAILED) && w2 == w
    }
}

/// The oldest message at an endpoint, if there is one.
pub open spec fn oldest(w: World, endpoint: u64) -> Option<Message> {
    if is_endpoint(w, endpoint) && w.ipc[endpoint as int].waiting.len() > 0 {
        Some(w.ipc[endpoint as int].waiting[0])
    } else {
        None
    }
}

/// Receives the oldest message of an endpoint, and gives the length of its data,
/// 0 if no message waits there.
pub fn sys_ipc_recv(k: &mut Kernel, bytes: &[u8], user: &mut [u8], endpoint: u64) -> (r: SysReturn)
    requires
        old(k).wf(bytes@),
        old(user)@.len() >= ipc::MAX_PAYLOAD,
        oldest(old(k).world(bytes@), endpoint) matches Some(msg) ==> msg.payload_len
            <= ipc::MAX_PAYLOAD,
    ensures
        final(k).wf(bytes@),
        final(user)@.len() == old(user)@.len(),
        received(
            old(k).world(bytes@),
            old(user)@,
            endpoint,
            final(k).world(bytes@),
            final(user)@,
            r,
        ),
{
    match ipc::receive(&mut k.ipc, as_index(endpoint)) {
        Some(msg) => {
            ram::copy(user, 0, &msg.payload, 0, msg.payload_len);
            returned(msg.payload_len as u64)
        },
        None => returned(0),
    }
}

/// What `sys_ipc_recv` leaves behind and gives.
pub open spec fn received(
    w: World,
    user: Seq<u8>,
    endpoint: u64,
    w2: World,
    user2: Seq<u8>,
    r: SysReturn,
) -> bool {
    match oldest(w, endpoint) {
        Some(msg) => {
            &&& w2 == (World { ipc: ipc::received(w.ipc, endpoint as int), ..w })
            &&& user2 == ram::patched(user, 0, msg.data())
            &&& gives(r, msg.payload_len as u64)
        },
        None => w2 == w && user2 == user && gives(r, 0),
    }
}

/// Registers an endpoint of the current process, and gives its number.
pub fn sys_ipc_register(k: &mut Kernel, bytes: &[u8], user: &[u8], len: u64) -> (r: SysReturn)
    requires
        old(k).wf(bytes@),
        user@.len() >= needed(SYS_IPC_REGISTER, 0, len, 0),
    ensures
        final(k).wf(bytes@),
        ({
            let w = old(k).world(bytes@);
            let name = user@.subrange(0, at_most(len, ipc::MAX_NAME_LEN as int));
            let (v, id) = ipc::registered_at(w.ipc, name, running_pid(w));
            &&& final(k).world(bytes@) == (World { ipc: v, ..w })
            &&& gives(
                r,
                match id {
                    Some(i) => i as u64,
                    None => FAILED,
                },
            )
        }),
{
    let n: usize = cut_to(len, ipc::MAX_NAME_LEN);
    let name: &[u8] = vstd::slice::slice_subrange(user, 0, n);
    let pid: u64 = scheduler::current_pid(&k.tasks);
    match ipc::register_name(&mut k.ipc, name, pid) {
        Some(id) => returned(id as u64),
        None => returned(FAILED),
    }
}

/// What `sys_spawn` leaves behind and gives.
pub open spec fn thread_made(w: World, entry: u64, w2: World, r: SysReturn) -> bool {
    if w.ids.next_tid == u64::MAX {
        w2 == w && gives(r, FAILED)
    } else {
        &&& w2 == (World { tasks: w2.tasks, ids: w2.ids, mem: w2.mem, ..w })
        &&& exists|tid: Option<Tid>| #[trigger]
            scheduler::spawned(
                w.tasks,
                w.ids,
                w.mem,
                entry,
                "spawned".spec_bytes(),
                Priority::Normal,
                w2.tasks,
                w2.ids,
                w2.mem,
                tid,
            ) && gives(
                r,
                match tid {
                    Some(t) => t,
                    None => FAILED,
                },
            )
    }
}

/// Makes a new thread that starts at `entry`, and gives its number. It runs in the
/// mode of the kernel, as every thread of the scheduler does.
pub fn sys_spawn(k: &mut Kernel, bytes: &mut [u8], entry: u64) -> (r: SysReturn)
    requires
        old(k).wf(old(bytes)@),
    ensures
        final(k).wf(final(bytes)@),
        final(bytes)@.len() == old(bytes)@.len(),
        thread_made(old(k).world(old(bytes)@), entry, final(k).world(final(bytes)@), r),
{
    if k.ids.next_tid == u64::MAX {
        return returned(FAILED);
    }
    let tid: Option<Tid> = scheduler::spawn_kernel_thread(
        &mut k.tasks,
        &mut k.ids,
        &mut k.frames,
        bytes,
        entry,
        "spawned",
    );
    let value: u64 = match tid {
        Some(t) => t,
        None => FAILED,
    };
    let r: SysReturn = returned(value);
    proof {
        let w = old(k).world(old(bytes)@);
        let w2 = k.world(bytes@);
        assert(w2 == (World { tasks: w2.tasks, ids: w2.ids, mem: w2.mem, ..w }));
        assert(scheduler::spawned(
            w.tasks,
            w.ids,
            w.mem,
            entry,
            "spawned".spec_bytes(),
            Priority::Normal,
            w2.tasks,
            w2.ids,
            w2.mem,
            tid,
        ));
    }
    r
}

/// Puts the current thread to sleep for a number of milliseconds. With 0 it lets
/// others run.
pub fn sys_sleep(k: &mut Kernel, bytes: &[u8], ms: u64) -> (r: SysReturn)
    requires
        old(k).wf(bytes@),
    ensures
        final(k).wf(bytes@),
        ({
            let (t, s) = clock::paused(old(k).tasks@, clock::ticks_of_ms(ms) as u64);
            &&& final(k).world(bytes@) == (World { tasks: t, ..old(k).world(bytes@) })
            &&& gives_way(r, s)
        }),
{
    let ticks: u64 = clock::ms_to_ticks(ms);
    let switch: Option<Switch> = clock::pause(&mut k.tasks, ticks);
    SysReturn { value: 0, output: Vec::new(), switch }
}

/// A region of whole pages in the memory of programs.
pub open spec fn is_user_region(addr: u64, len: u64) -> bool {
    addr % 4096 == 0 && addr > 0 && len > 0 && addr + len <= USER_END
}

/// How many pages a region takes.
pub open spec fn region_pages(len: u64) -> int {
    (len + 4095) / 4096
}

/// What `sys_mmap` leaves behind and gives.
pub open spec fn region_added(w: World, addr: u64, len: u64, w2: World, r: SysReturn) -> bool {
    match w.tasks.space_of(running_pid(w)) {
        Some(cr3) => if is_user_region(addr, len) {
            let (m, ok) = w.mem.region_mapped(cr3 as int, addr as int, region_pages(len) as nat);
            &&& w2 == (World { mem: m, ..w })
            &&& gives(
                r,
                if ok {
                    addr
                } else {
                    FAILED
                },
            )
        } else {
            w2 == w && gives(r, FAILED)
        },
        None => w2 == w && gives(r, FAILED),
    }
}

/// Maps empty pages at `addr` into the address space of the current process, as
/// many as `len` bytes take, for reading and writing, and gives `addr`. Pages that
/// were mapped there before are replaced. Fails if the process has no address
/// space of its own, the region does not start with a page or does not lie in the
/// memory of programs, or there are too few frames.
pub fn sys_mmap(k: &mut Kernel, bytes: &mut [u8], addr: u64, len: u64) -> (r: SysReturn)
    requires
        old(k).wf(old(bytes)@),
    ensures
        final(k).wf(final(bytes)@),
        final(bytes)@.len() == old(bytes)@.len(),
        region_added(old(k).world(old(bytes)@), addr, len, final(k).world(final(bytes)@), r),
{
    let pid: u64 = scheduler::current_pid(&k.tasks);
    let cr3: u64 = match scheduler::find_space(&k.tasks, pid) {
        Some(c) => c,
        None => {
            return returned(FAILED);
        },
    };
    if addr % 4096 != 0 || addr == 0 || len == 0 || len > USER_END || addr > USER_END - len {
        return returned(FAILED);
    }
    let n: u64 = (len + 4095) / 4096;
    if region::map_region(&mut k.frames, bytes, cr3, addr, n) {
        returned(addr)
    } else {
        returned(FAILED)
    }
}

/// What `sys_munmap` leaves behind and gives.
pub open spec fn region_dropped(w: World, addr: u64, len: u64, w2: World, r: SysReturn) -> bool {
    match w.tasks.space_of(running_pid(w)) {
        Some(cr3) => if is_user_region(addr, len) {
            &&& w2 == (World {
                mem: w.mem.region_freed(cr3 as int, addr as int, region_pages(len) as nat),
                ..w
            })
            &&& gives(r, 0)
        } else {
            w2 == w && gives(r, FAILED)
        },
        None => w2 == w && gives(r, FAILED),
    }
}

/// Removes the pages of a region from the address space of the current process,
/// and frees their frames. Fails if the process has no address space of its own,
/// or the region does not start with a page or does not lie in the memory of
/// programs.
pub fn sys_munmap(k: &mut Kernel, bytes: &mut [u8], addr: u64, len: u64) -> (r: SysReturn)
    requires
        old(k).wf(old(bytes)@),
    ensures
        final(k).wf(final(bytes)@),
        final(bytes)@.len() == old(bytes)@.len(),
        region_dropped(old(k).world(old(bytes)@), addr, len, final(k).world(final(bytes)@), r),
{
    let pid: u64 = scheduler::current_pid(&k.tasks);
    let cr3: u64 = match scheduler::find_space(&k.tasks, pid) {
        Some(c) => c,
        None => {
            return returned(FAILED);
        },
    };
    if addr % 4096 != 0 || addr == 0 || len == 0 || len > USER_END || addr > USER_END - len {
        return returned(FAILED);
    }
    region::free_region(&mut k.frames, bytes, cr3, addr, (len + 4095) / 4096);
    returned(0)
}

/// What a program learns of a device: its name, closed by a zero, the vendor and
/// the device number, the interrupt, and where its registers are.
pub open spec fn device_record(d: Device) -> Seq<u8> {
    d.name@ + ram::bytes64((d.vendor_id + 0x1_0000 * d.device_id) as u64) + ram::bytes64(
        d.irq as u64,
    ) + ram::bytes64(d.mmio_base)
}

/// What `sys_device_info` leaves behind and gives.
pub open spec fn device_told(w: World, user: Seq<u8>, index: u64, user2: Seq<u8>, r: SysReturn) -> bool {
    if index < drivers::MAX_DEVICES && w.devices[index as int].active {
        &&& user2 == ram::patched(user, 0, device_record(w.devices[index as int]))
        &&& gives(r, DEVICE_RECORD as u64)
    } else {
        user2 == user && gives(r, FAILED)
    }
}

/// Tells about a device, and gives how many bytes that took. See `device_record`.
pub fn sys_device_info(k: &Kernel, bytes: &[u8], user: &mut [u8], index: u64) -> (r: SysReturn)
    requires
        old(user)@.len() >= DEVICE_RECORD,
    ensures
        final(user)@.len() == old(user)@.len(),
        device_told(k.world(bytes@), old(user)@, index, final(user)@, r),
{
    let d: Device = match drivers::get_device(&k.devices, as_index(index)) {
        Some(d) => *d,
        None => {
            return returned(FAILED);
        },
    };
    ram::copy(user, 0, &d.name, 0, drivers::NAME_SIZE);
    ram::write_u64(user, 32, d.vendor_id as u64 + 0x1_0000 * d.device_id as u64);
    ram::write_u64(user, 40, d.irq as u64);
    ram::write_u64(user, 48, d.mmio_base);
    assert(user@ =~= ram::patched(old(user)@, 0, device_record(d)));
    returned(DEVICE_RECORD as u64)
}

/// What a system call leaves behind and gives.
pub open spec fn called(
    w: World,
    user: Seq<u8>,
    nr: u64,
    arg0: u64,
    arg1: u64,
    arg2: u64,
    w2: World,
    user2: Seq<u8>,
    r: SysReturn,
) -> bool {
    if nr == SYS_READ {
        read(w, user, arg0, arg2, w2, user2, r)
    } else if nr == SYS_IPC_RECV {
        received(w, user, arg0, w2, user2, r)
    } else if nr == SYS_DEVICE_INFO {
        w2 == w && device_told(w, user, arg0, user2, r)
    } else {
        &&& user2 == user
        &&& if nr == SYS_WRITE {
            wrote(w, user, arg0, arg2, w2, r)
        } else if nr == SYS_OPEN {
            opened(w, user, arg1, w2, r)
        } else if nr == SYS_CLOSE {
            w2 == (World { vfs: w.vfs.closed_at(arg0 as int), ..w }) && gives(r, 0)
        } else if nr == SYS_EXIT {
            let (t, s) = w.tasks.gives_up(crate::task::TaskState::Dead);
            w2 == (World { tasks: t, ..w }) && gives_way(r, s)
        } else if nr == SYS_YIELD {
            let (t, s) = w.tasks.scheduled();
            w2 == (World { tasks: t, ..w }) && gives_way(r, s)
        } else if nr == SYS_GETPID {
            w2 == w && gives(r, running_pid(w))
        } else if nr == SYS_IPC_SEND {
            sent(w, user, arg0, arg2, w2, r)
        } else if nr == SYS_IPC_REGISTER {
            let name = user.subrange(0, at_most(arg1, ipc::MAX_NAME_LEN as int));
            let (v, id) = ipc::registered_at(w.ipc, name, running_pid(w));
            w2 == (World { ipc: v, ..w }) && gives(
                r,
                match id {
                    Some(i) => i as u64,
                    None => FAILED,
                },
            )
        } else if nr == SYS_SPAWN {
            thread_made(w, arg0, w2, r)
        } else if nr == SYS_MMAP {
            region_added(w, arg0, arg1, w2, r)
        } else if nr == SYS_MUNMAP {
            region_dropped(w, arg0, arg1, w2, r)
        } else if nr == SYS_SLEEP {
            let (t, s) = clock::paused(w.tasks, clock::ticks_of_ms(arg0) as u64);
            w2 == (World { tasks: t, ..w }) && gives_way(r, s)
        } else {
            w2 == w && gives(r, FAILED)
        }
    }
}

/// Carries out a system call. A number that stands for no call fails.
pub fn syscall_dispatch_inner(
    k: &mut Kernel,
    bytes: &mut [u8],
    user: &mut [u8],
    nr: u64,
    arg0: u64,
    arg1: u64,
    arg2: u64,
) -> (r: SysReturn)
    requires
        old(k).wf(old(bytes)@),
        old(user)@.len() >= needed(nr, arg0, arg1, arg2),
        nr == SYS_OPEN ==> has_text(old(user)@),
        nr == SYS_IPC_RECV ==> (oldest(old(k).world(old(bytes)@), arg0) matches Some(msg)
            ==> msg.payload_len <= ipc::MAX_PAYLOAD),
    ensures
        final(k).wf(final(bytes)@),
        final(bytes)@.len() == old(bytes)@.len(),
        final(user)@.len() == old(user)@.len(),
        called(
            old(k).world(old(bytes)@),
            old(user)@,
            nr,
            arg0,
            arg1,
            arg2,
            final(k).world(final(bytes)@),
            final(user)@,
            r,
        ),
{
    match nr {
        SYS_WRITE => sys_write(k, bytes, user, arg0, arg2),
        SYS_READ => sys_read(k, bytes, user, arg0, arg2),
        SYS_OPEN => sys_open(k, bytes, user, arg1),
        SYS_CLOSE => sys_close(k, bytes, arg0),
        SYS_EXIT => sys_exit(k, bytes, arg0),
        SYS_YIELD => sys_yield(k, bytes),
        SYS_GETPID => sys_getpid(k, bytes),
        SYS_IPC_SEND => sys_ipc_send(k, bytes, user, arg0, arg2),
        SYS_IPC_RECV => sys_ipc_recv(k, bytes, user, arg0),
        SYS_IPC_REGISTER => sys_ipc_register(k, bytes, user, arg1),
        SYS_SPAWN => sys_spawn(k, bytes, arg0),
        SYS_MMAP => sys_mmap(k, bytes, arg0, arg1),
        SYS_MUNMAP => sys_munmap(k, bytes, arg0, arg1),
        SYS_SLEEP => sys_sleep(k, bytes, arg0),
        SYS_DEVICE_INFO => sys_device_info(k, bytes, user, arg0),
        _ => returned(FAILED),
    }
}

/// The segments of system calls are those of the kernel on the way in, and those
/// of programs on the way out.
pub proof fn law_system_calls_use_the_segments(star: u64)
    requires
        star == STAR_VALUE,
    ensures
        star / 0x1_0000_0000 % 0x1_0000 == gdt::KERNEL_CODE_SEL,
        star / 0x1_0000_0000 % 0x1_0000 + 8 == gdt::KERNEL_DATA_SEL,
        star / 0x1_0000_0000_0000 + 16 + 3 == gdt::USER_CODE_RPL3,
        star / 0x1_0000_0000_0000 + 8 + 3 == gdt::USER_DATA_RPL3,
{
}

/// What a program sends to an endpoint where nothing waits, the next one to
/// receive from it gets, cut to 256 bytes; the message names the process that
/// sent it.
pub proof fn law_sent_data_is_received(
    w: World,
    user: Seq<u8>,
    endpoint: u64,
    len: u64,
    w1: World,
    r1: SysReturn,
    buf: Seq<u8>,
    w2: World,
    buf2: Seq<u8>,
    r2: SysReturn,
)
    requires
        w.ipc.len() == ipc::MAX_ENDPOINTS,
        is_endpoint(w, endpoint),
        w.ipc[endpoint as int].waiting.len() == 0,
        user.len() >= needed(SYS_IPC_SEND, endpoint, 0, len),
        buf.len() >= ipc::MAX_PAYLOAD,
        sent(w, user, endpoint, len, w1, r1),
        received(w1, buf, endpoint, w2, buf2, r2),
    ensures
        ({
            let n = at_most(len, ipc::MAX_PAYLOAD as int);
            &&& r1.value == 0
            &&& oldest(w1, endpoint) matches Some(m) && m.sender == running_pid(w)
            &&& r2.value == n
            &&& buf2.subrange(0, n) == user.subrange(0, n)
            &&& w2.ipc == w.ipc
        }),
{
    let n = at_most(len, ipc::MAX_PAYLOAD as int);
    let data = user.subrange(0, n);
    let msg = choose|msg: Message| #[trigger]
        msg.is_request_of(running_pid(w), 0, data) && w1 == (World {
            ipc: ipc::sent(w.ipc, endpoint as int, msg),
            ..w
        });
    assert(w1.ipc[endpoint as int].waiting[0] == msg);
    assert(oldest(w1, endpoint) == Some(msg));
    assert(buf2.subrange(0, n) =~= data);
    assert(w2.ipc[endpoint as int].waiting =~= w.ipc[endpoint as int].waiting);
    assert(w2.ipc =~= w.ipc);
}

} // verus!
