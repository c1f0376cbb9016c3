//! System calls: what each of them does for the program that makes it.

use vstd::prelude::*;
use vstd::string::*;
use crate::ipc::Message;
use crate::kernel::{Kernel, World};
use crate::memory::paging;
use crate::memory::ram;
use crate::scheduler::{Switch, Tasks};
use crate::syscall;
use crate::syscall::SysReturn;
use crate::task::{Priority, TaskState, Tid};
use crate::vfs;
use crate::vfs::{Tables, Vfs};
use super::files;
use super::files::smaller;
use super::messages;
use super::threads;

verus! {

/// The call gives a value, shows nothing and asks for no switch.
pub open spec fn answers(r: SysReturn, value: int) -> bool {
    r.value == value && r.output@.len() == 0 && r.switch is None
}

/// The call gives 0, shows nothing and asks for a switch.
pub open spec fn yields(r: SysReturn, switch: Option<Switch>) -> bool {
    r.value == 0 && r.output@.len() == 0 && r.switch == switch
}

/// What a call gives that fails: -1.
pub open spec fn minus_one() -> int {
    0xFFFF_FFFF_FFFF_FFFF
}

/// What a call gives for the outcome of an operation on a file.
pub open spec fn outcome(n: int) -> int {
    if n < 0 {
        minus_one()
    } else {
        n
    }
}

/// The process whose thread is the current one.
pub open spec fn caller(w: World) -> u64 {
    if w.tasks.current < 0 {
        0
    } else {
        w.tasks.threads[w.tasks.current as int]->0.pid
    }
}

/// Process `i` of the table is the one whose thread is the current one, it is the first
/// with its number, and it has an address space of its own.
pub open spec fn home(w: World, i: int) -> bool {
    &&& 0 <= i < 16
    &&& w.tasks.processes[i] matches Some(p) && p.pid == caller(w) && p.cr3 != 0
    &&& forall|j: int|
        0 <= j < i ==> !((#[trigger] w.tasks.processes[j]) matches Some(p) && p.pid == caller(w))
}

pub proof fn lemma_home(w: World, i: int)
    requires
        home(w, i),
    ensures
        w.tasks.space_of(syscall::running_pid(w)) == Some(w.tasks.processes[i]->0.cr3),
{
    let pid = caller(w);
    let p = |j: int| w.tasks.processes[j] matches Some(p) && p.pid == pid;
    crate::search::lemma_first(16, p);
    assert(p(i));
    match crate::search::first(16, p) {
        Some(k) => {
            assert(p(k as int));
            if k < i {
                assert(w.tasks.processes[k as int] is Some);
            }
        },
        None => {},
    }
}

pub proof fn lemma_homeless(w: World)
    requires
        forall|i: int|
            0 <= i < 16 ==> !((#[trigger] w.tasks.processes[i]) matches Some(p) && p.pid == caller(
                w,
            )),
    ensures
        w.tasks.space_of(syscall::running_pid(w)) is None,
{
    let pid = caller(w);
    let p = |j: int| w.tasks.processes[j] matches Some(p) && p.pid == pid;
    crate::search::lemma_first(16, p);
    match crate::search::first(16, p) {
        Some(k) => {
            assert(p(k as int));
            assert(w.tasks.processes[k as int] is Some);
        },
        None => {},
    }
}

/// A write to descriptor 1 shows the text of the program, all of it and nothing else, and
/// gives its length.
pub proof fn law_written_text_is_shown(
    k: &mut Kernel,
    bytes: &mut [u8],
    user: &mut [u8],
    a0: u64,
    a1: u64,
    a2: u64,
    r: SysReturn,
)
    requires
        old(k).wf(old(bytes)@),
        a0 == 1,
        old(user)@.len() >= a2,
        call_ensures(
            syscall::syscall_dispatch_inner,
            (k, bytes, user, 1u64, a0, a1, a2),
            r,
        ),
    ensures
        r.value == a2,
        r.output@.len() == a2,
        forall|i: int| 0 <= i < a2 ==> #[trigger] r.output@[i] == old(user)@[i],
        r.switch is None,
        final(user)@ == old(user)@,
        final(k).world(final(bytes)@) == old(k).world(old(bytes)@),
{
    let w = old(k).world(old(bytes)@);
    let w2 = final(k).world(final(bytes)@);
    assert(syscall::called(w, old(user)@, 1u64, a0, a1, a2, w2, final(user)@, r));
}

/// A write to another descriptor puts the text, at most 4096 bytes of it, into the file, and
/// gives how many bytes that were. See `files::put`.
pub proof fn law_written_bytes_go_into_the_file(
    k: &mut Kernel,
    bytes: &mut [u8],
    user: &mut [u8],
    a0: u64,
    a1: u64,
    a2: u64,
    r: SysReturn,
)
    requires
        old(k).wf(old(bytes)@),
        a0 != 1,
        old(user)@.len() >= smaller(a2 as int, 4096),
        call_ensures(
            syscall::syscall_dispatch_inner,
            (k, bytes, user, 1u64, a0, a1, a2),
            r,
        ),
    ensures
        exists|n: int| #[trigger]
            files::put(
                old(k).vfs@,
                old(k).world(old(bytes)@).mem,
                a0 as int,
                old(user)@.subrange(0, smaller(a2 as int, 4096)),
                final(k).vfs@,
                final(k).world(final(bytes)@).mem,
                n,
            ) && answers(r, outcome(n)),
        final(k).world(final(bytes)@) == (World {
            vfs: final(k).world(final(bytes)@).vfs,
            mem: final(k).world(final(bytes)@).mem,
            ..old(k).world(old(bytes)@)
        }),
        final(user)@ == old(user)@,
{
    let w = old(k).world(old(bytes)@);
    let w2 = final(k).world(final(bytes)@);
    assert(syscall::called(w, old(user)@, 1u64, a0, a1, a2, w2, final(user)@, r));
    let data = old(user)@.subrange(0, smaller(a2 as int, 4096));
    files::lemma_put(w.vfs, w.mem, a0 as int, data);
    let (t, m, n) = w.vfs.written_to(w.mem, a0 as int, data);
    assert(files::put(w.vfs, w.mem, a0 as int, data, t, m, n as int));
    assert(w2.vfs == final(k).vfs@);
}

/// A read gives the bytes of the file, at most 4096 of them, and how many there are. See
/// `files::got`. Descriptor 0, the keyboard, has nothing to read.
pub proof fn law_read_bytes_come_from_the_file(
    k: &mut Kernel,
    bytes: &mut [u8],
    user: &mut [u8],
    a0: u64,
    a1: u64,
    a2: u64,
    r: SysReturn,
)
    requires
        old(k).wf(old(bytes)@),
        old(user)@.len() >= smaller(a2 as int, 4096),
        call_ensures(
            syscall::syscall_dispatch_inner,
            (k, bytes, user, 0u64, a0, a1, a2),
            r,
        ),
    ensures
        a0 == 0 ==> answers(r, 0) && final(k).world(final(bytes)@) == old(k).world(old(bytes)@) && final(user)@ == old(user)@,
        a0 != 0 ==> exists|n: int| #[trigger]
            files::got(
                old(k).vfs@,
                old(bytes)@,
                a0 as int,
                smaller(a2 as int, 4096),
                old(user)@,
                final(k).vfs@,
                final(user)@,
                n,
            ) && answers(r, outcome(n)),
        final(k).world(final(bytes)@) == (World {
            vfs: final(k).world(final(bytes)@).vfs,
            ..old(k).world(old(bytes)@)
        }),
{
    let w = old(k).world(old(bytes)@);
    let w2 = final(k).world(final(bytes)@);
    assert(syscall::called(w, old(user)@, 0u64, a0, a1, a2, w2, final(user)@, r));
    if a0 != 0 {
        let c = smaller(a2 as int, 4096);
        if files::is_open(w.vfs, a0 as int) {
            files::lemma_got(w.vfs, old(bytes)@, a0 as int, c, old(user)@);
            let part = w.vfs.readable(paging::bare(old(bytes)@), a0 as int, c);
            assert(files::got(
                w.vfs,
                old(bytes)@,
                a0 as int,
                c,
                old(user)@,
                w2.vfs,
                final(user)@,
                part.len() as int,
            ));
        } else {
            assert(w.vfs.opened(a0 as int) is None);
            assert(files::got(
                w.vfs,
                old(bytes)@,
                a0 as int,
                c,
                old(user)@,
                w2.vfs,
                final(user)@,
                -1,
            ));
        }
        assert(w2.vfs == final(k).vfs@ && w.vfs == old(k).vfs@);
    }
}

proof fn lemma_text(user: Seq<u8>, from: int, n: int)
    requires
        0 <= from <= n <= 255,
        n <= user.len(),
        forall|i: int| from <= i < n ==> user[i] != 0,
        n < 255 ==> n < user.len() && user[n] == 0,
    ensures
        syscall::text_len(user, from) == n,
        syscall::has_text(user),
    decreases n - from,
{
    if from < n {
        lemma_text(user, from + 1, n);
    } else if n < 255 {
        assert(user[n] == 0);
    }
}

/// Opening takes a descriptor for what the path leads to: the bytes in front of the first
/// zero, or the first 255. See `files::opens`.
pub proof fn law_opened_path_ends_with_a_zero(
    k: &mut Kernel,
    bytes: &mut [u8],
    user: &mut [u8],
    a0: u64,
    a1: u64,
    a2: u64,
    before: Vfs,
    path: &[u8],
    d: Option<usize>,
    r: SysReturn,
)
    requires
        old(k).wf(old(bytes)@),
        path@.len() <= 255,
        path@.len() <= old(user)@.len(),
        path@ == old(user)@.subrange(0, path@.len() as int),
        forall|i: int| 0 <= i < path@.len() ==> path@[i] != 0,
        path@.len() < 255 ==> path@.len() < old(user)@.len() && old(user)@[path@.len() as int] == 0,
        before == old(k).vfs,
        call_ensures(vfs::path_lookup, (&before, path), d),
        call_ensures(
            syscall::syscall_dispatch_inner,
            (k, bytes, user, 2u64, a0, a1, a2),
            r,
        ),
    ensures
        exists|f: Option<usize>| #[trigger]
            files::opens(old(k).vfs@, d, (a1 % 0x1_0000_0000) as u32, final(k).vfs@, f) && answers(
                r,
                match f {
                    Some(x) => x as int,
                    None => minus_one(),
                },
            ),
        final(k).world(final(bytes)@) == (World {
            vfs: final(k).world(final(bytes)@).vfs,
            ..old(k).world(old(bytes)@)
        }),
        final(user)@ == old(user)@,
{
    let w = old(k).world(old(bytes)@);
    let w2 = final(k).world(final(bytes)@);
    assert(syscall::called(w, old(user)@, 2u64, a0, a1, a2, w2, final(user)@, r));
    assert forall|i: int| 0 <= i < path@.len() implies old(user)@[i] != 0 by {
        assert(path@[i] == old(user)@[i]);
    }
    lemma_text(old(user)@, 0, path@.len() as int);
    let mode = (a1 % 0x1_0000_0000) as u32;
    assert(d == w.vfs.found(path@));
    files::lemma_opens(w.vfs, path@, mode);
    let (t, f) = w.vfs.opened_at(path@, mode);
    assert(files::opens(w.vfs, d, mode, t, f));
    assert(w2.vfs == final(k).vfs@ && w.vfs == old(k).vfs@);
}

/// Closing frees the descriptor and no other.
pub proof fn law_closed_descriptor_is_free(
    k: &mut Kernel,
    bytes: &mut [u8],
    user: &mut [u8],
    a0: u64,
    a1: u64,
    a2: u64,
    r: SysReturn,
)
    requires
        old(k).wf(old(bytes)@),
        call_ensures(
            syscall::syscall_dispatch_inner,
            (k, bytes, user, 3u64, a0, a1, a2),
            r,
        ),
    ensures
        answers(r, 0),
        a0 < 128 ==> !final(k).vfs@.files[a0 as int].active,
        forall|i: int|
            0 <= i < 128 && i != a0 ==> #[trigger] final(k).vfs@.files[i] == old(k).vfs@.files[i],
        final(k).world(final(bytes)@) == (World {
            vfs: Tables { files: final(k).vfs@.files, ..old(k).vfs@ },
            ..old(k).world(old(bytes)@)
        }),
{
    let w = old(k).world(old(bytes)@);
    let w2 = final(k).world(final(bytes)@);
    assert(syscall::called(w, old(user)@, 3u64, a0, a1, a2, w2, final(user)@, r));
    assert(w2.vfs == final(k).vfs@ && w.vfs == old(k).vfs@);
}

/// The calling thread ends, and the processor is handed on.
pub proof fn law_exit_ends_the_caller(
    k: &mut Kernel,
    bytes: &mut [u8],
    user: &mut [u8],
    a0: u64,
    a1: u64,
    a2: u64,
    r: SysReturn,
)
    requires
        old(k).wf(old(bytes)@),
        0 <= old(k).tasks.current_thread,
        call_ensures(
            syscall::syscall_dispatch_inner,
            (k, bytes, user, 4u64, a0, a1, a2),
            r,
        ),
    ensures
        exists|b: Tasks, s: Option<Switch>|
            #![trigger threads::handed_on(b, final(k).tasks@, s)]
            threads::set_aside(
                old(k).tasks@,
                b,
                TaskState::Dead,
                old(k).tasks@.sleep_until[old(k).tasks@.current as int] as int,
            ) && threads::handed_on(b, final(k).tasks@, s) && yields(r, s),
        final(k).world(final(bytes)@) == (World {
            tasks: final(k).world(final(bytes)@).tasks,
            ..old(k).world(old(bytes)@)
        }),
{
    let w = old(k).world(old(bytes)@);
    let w2 = final(k).world(final(bytes)@);
    assert(syscall::called(w, old(user)@, 4u64, a0, a1, a2, w2, final(user)@, r));
    let a = w.tasks;
    let cur = a.current as int;
    let b = a.with_state(cur, TaskState::Dead);
    threads::lemma_in_order(a, b);
    threads::lemma_handed_on(b);
    assert(w2.tasks == final(k).tasks@ && w.tasks == old(k).tasks@);
    assert(threads::set_aside(a, b, TaskState::Dead, a.sleep_until[cur] as int));
    assert(threads::handed_on(b, w2.tasks, b.scheduled().1));
}

/// The processor is handed on.
pub proof fn law_yield_hands_the_processor_on(
    k: &mut Kernel,
    bytes: &mut [u8],
    user: &mut [u8],
    a0: u64,
    a1: u64,
    a2: u64,
    r: SysReturn,
)
    requires
        old(k).wf(old(bytes)@),
        call_ensures(
            syscall::syscall_dispatch_inner,
            (k, bytes, user, 5u64, a0, a1, a2),
            r,
        ),
    ensures
        threads::handed_on(old(k).tasks@, final(k).tasks@, r.switch),
        r.value == 0,
        r.output@.len() == 0,
        final(k).world(final(bytes)@) == (World {
            tasks: final(k).world(final(bytes)@).tasks,
            ..old(k).world(old(bytes)@)
        }),
{
    let w = old(k).world(old(bytes)@);
    let w2 = final(k).world(final(bytes)@);
    assert(syscall::called(w, old(user)@, 5u64, a0, a1, a2, w2, final(user)@, r));
    threads::lemma_handed_on(w.tasks);
    assert(w2.tasks == final(k).tasks@ && w.tasks == old(k).tasks@);
}

/// The number of the calling process is that of the current thread.
pub proof fn law_caller_learns_its_number(
    k: &mut Kernel,
    bytes: &mut [u8],
    user: &mut [u8],
    a0: u64,
    a1: u64,
    a2: u64,
    r: SysReturn,
)
    requires
        old(k).wf(old(bytes)@),
        call_ensures(
            syscall::syscall_dispatch_inner,
            (k, bytes, user, 6u64, a0, a1, a2),
            r,
        ),
    ensures
        answers(r, caller(old(k).world(old(bytes)@)) as int),
        final(k).world(final(bytes)@) == old(k).world(old(bytes)@),
{
    let w = old(k).world(old(bytes)@);
    let w2 = final(k).world(final(bytes)@);
    assert(syscall::called(w, old(user)@, 6u64, a0, a1, a2, w2, final(user)@, r));
}

/// A thread that is made waits for the processor, to start where the caller says; the call
/// gives its number. See `threads::born`.
pub proof fn law_spawned_thread_waits_at_its_entry(
    k: &mut Kernel,
    bytes: &mut [u8],
    user: &mut [u8],
    a0: u64,
    a1: u64,
    a2: u64,
    r: SysReturn,
)
    requires
        old(k).wf(old(bytes)@),
        old(k).ids.next_tid < u64::MAX,
        call_ensures(
            syscall::syscall_dispatch_inner,
            (k, bytes, user, 7u64, a0, a1, a2),
            r,
        ),
    ensures
        exists|tid: Option<Tid>| #[trigger]
            threads::born(
                old(k).tasks@,
                old(k).ids,
                old(k).world(old(bytes)@).mem,
                a0,
                "spawned".spec_bytes(),
                Priority::Normal,
                final(k).tasks@,
                final(k).ids,
                final(k).world(final(bytes)@).mem,
                tid,
            ) && answers(
                r,
                match tid {
                    Some(t) => t as int,
                    None => minus_one(),
                },
            ),
        final(k).world(final(bytes)@) == (World {
            tasks: final(k).world(final(bytes)@).tasks,
            ids: final(k).world(final(bytes)@).ids,
            mem: final(k).world(final(bytes)@).mem,
            ..old(k).world(old(bytes)@)
        }),
{
    let w = old(k).world(old(bytes)@);
    let w2 = final(k).world(final(bytes)@);
    assert(syscall::called(w, old(user)@, 7u64, a0, a1, a2, w2, final(user)@, r));
    let tid = choose|tid: Option<Tid>| #[trigger]
        crate::scheduler::spawned(
            w.tasks,
            w.ids,
            w.mem,
            a0,
            "spawned".spec_bytes(),
            Priority::Normal,
            w2.tasks,
            w2.ids,
            w2.mem,
            tid,
        ) && syscall::gives(
            r,
            match tid {
                Some(t) => t,
                None => syscall::FAILED,
            },
        );
    threads::lemma_born(
        w.tasks,
        w.ids,
        w.mem,
        a0,
        "spawned".spec_bytes(),
        Priority::Normal,
        w2.tasks,
        w2.ids,
        w2.mem,
        tid,
    );
    assert(w2.tasks == final(k).tasks@ && w.tasks == old(k).tasks@);
    assert(w2.ids == final(k).ids && w.ids == old(k).ids);
}

/// What a program sends waits at the endpoint as a request of the calling process with its
/// data, cut to 256 bytes. See `messages::posted`.
pub proof fn law_sent_request_waits(
    k: &mut Kernel,
    bytes: &mut [u8],
    user: &mut [u8],
    a0: u64,
    a1: u64,
    a2: u64,
    r: SysReturn,
)
    requires
        old(k).wf(old(bytes)@),
        old(user)@.len() >= smaller(a2 as int, 256),
        call_ensures(
            syscall::syscall_dispatch_inner,
            (k, bytes, user, 8u64, a0, a1, a2),
            r,
        ),
    ensures
        r.value == 0 <==> messages::is_registered(old(k).ipc@, a0 as int)
            && old(k).ipc@[a0 as int].waiting.len() < 16,
        r.value == 0 ==> exists|msg: Message| #[trigger]
            messages::carries(
                msg,
                caller(old(k).world(old(bytes)@)),
                0,
                old(user)@.subrange(0, smaller(a2 as int, 256)),
            ) && messages::posted(old(k).ipc@, a0 as int, msg, final(k).ipc@, true),
        r.value != 0 ==> final(k).ipc@ == old(k).ipc@,
        r.value == 0 || r.value == minus_one(),
        answers(r, r.value as int),
        final(k).world(final(bytes)@) == (World {
            ipc: final(k).world(final(bytes)@).ipc,
            ..old(k).world(old(bytes)@)
        }),
        final(user)@ == old(user)@,
{
    let w = old(k).world(old(bytes)@);
    let w2 = final(k).world(final(bytes)@);
    assert(syscall::called(w, old(user)@, 8u64, a0, a1, a2, w2, final(user)@, r));
    let data = old(user)@.subrange(0, smaller(a2 as int, 256));
    let c = caller(w);
    assert(w2.ipc == final(k).ipc@ && w.ipc == old(k).ipc@);
    if syscall::is_endpoint(w, a0) && w.ipc[a0 as int].waiting.len() < 16 {
        let msg = choose|msg: Message| #[trigger]
            msg.is_request_of(c, 0, data) && w2 == (World {
                ipc: crate::ipc::sent(w.ipc, a0 as int, msg),
                ..w
            });
        messages::lemma_carries(msg, c, 0, data);
        assert(messages::posted(w.ipc, a0 as int, msg, w2.ipc, true));
    }
}

/// What a program receives is the data of the message that has waited longest at the
/// endpoint, and its length; nothing, and 0, if none waits. See `messages::fetched`.
pub proof fn law_received_data_is_that_of_the_oldest(
    k: &mut Kernel,
    bytes: &mut [u8],
    user: &mut [u8],
    a0: u64,
    a1: u64,
    a2: u64,
    r: SysReturn,
)
    requires
        old(k).wf(old(bytes)@),
        old(user)@.len() >= 256,
        a0 < 64 && old(k).ipc@[a0 as int].active && old(k).ipc@[a0 as int].waiting.len() > 0
            ==> old(k).ipc@[a0 as int].waiting[0].payload_len <= 256,
        call_ensures(
            syscall::syscall_dispatch_inner,
            (k, bytes, user, 9u64, a0, a1, a2),
            r,
        ),
    ensures
        exists|m: Option<Message>| #[trigger]
            messages::fetched(old(k).ipc@, a0 as int, final(k).ipc@, m) && match m {
                Some(msg) => {
                    &&& answers(r, msg.payload_len as int)
                    &&& forall|i: int|
                        0 <= i < msg.payload_len ==> #[trigger] final(user)@[i] == msg.payload@[i]
                    &&& forall|i: int|
                        msg.payload_len <= i < old(user)@.len() ==> #[trigger] final(user)@[i]
                            == old(user)@[i]
                },
                None => answers(r, 0) && final(user)@ == old(user)@,
            },
        final(k).world(final(bytes)@) == (World {
            ipc: final(k).world(final(bytes)@).ipc,
            ..old(k).world(old(bytes)@)
        }),
{
    let w = old(k).world(old(bytes)@);
    let w2 = final(k).world(final(bytes)@);
    assert(syscall::called(w, old(user)@, 9u64, a0, a1, a2, w2, final(user)@, r));
    assert(w2.ipc == final(k).ipc@ && w.ipc == old(k).ipc@);
    let m = syscall::oldest(w, a0);
    assert(messages::fetched(w.ipc, a0 as int, w2.ipc, m));
}

/// A program registers the first free endpoint for its process, under its name, cut to 32
/// bytes, and gets its number. See `messages::named_endpoint`.
pub proof fn law_registered_name_is_that_of_the_program(
    k: &mut Kernel,
    bytes: &mut [u8],
    user: &mut [u8],
    a0: u64,
    a1: u64,
    a2: u64,
    r: SysReturn,
)
    requires
        old(k).wf(old(bytes)@),
        old(user)@.len() >= smaller(a1 as int, 32),
        call_ensures(
            syscall::syscall_dispatch_inner,
            (k, bytes, user, 10u64, a0, a1, a2),
            r,
        ),
    ensures
        exists|id: Option<usize>| #[trigger]
            messages::named_endpoint(
                old(k).ipc@,
                old(user)@.subrange(0, smaller(a1 as int, 32)),
                caller(old(k).world(old(bytes)@)),
                final(k).ipc@,
                id,
            ) && answers(
                r,
                match id {
                    Some(i) => i as int,
                    None => minus_one(),
                },
            ),
        final(k).world(final(bytes)@) == (World {
            ipc: final(k).world(final(bytes)@).ipc,
            ..old(k).world(old(bytes)@)
        }),
{
    let w = old(k).world(old(bytes)@);
    let w2 = final(k).world(final(bytes)@);
    assert(syscall::called(w, old(user)@, 10u64, a0, a1, a2, w2, final(user)@, r));
    let name = old(user)@.subrange(0, smaller(a1 as int, 32));
    assert(w2.ipc == final(k).ipc@ && w.ipc == old(k).ipc@);
    messages::lemma_named_endpoint(w.ipc, name, caller(w));
    let (v, id) = crate::ipc::registered_at(w.ipc, name, caller(w));
    assert(messages::named_endpoint(w.ipc, name, caller(w), v, id));
}

/// The calling thread is set aside for at least as many milliseconds as it asks for, and by
/// less than a tick longer, or lets others run if it asks for none.
pub proof fn law_sleeping_caller_is_set_aside(
    k: &mut Kernel,
    bytes: &mut [u8],
    user: &mut [u8],
    a0: u64,
    a1: u64,
    a2: u64,
    r: SysReturn,
)
    requires
        old(k).wf(old(bytes)@),
        0 <= old(k).tasks.current_thread,
        call_ensures(
            syscall::syscall_dispatch_inner,
            (k, bytes, user, 13u64, a0, a1, a2),
            r,
        ),
    ensures
        a0 == 0 ==> threads::handed_on(old(k).tasks@, final(k).tasks@, r.switch),
        a0 > 0 ==> exists|n: u64, b: Tasks|
            #![trigger threads::later(old(k).tasks.tick_count, n), threads::handed_on(b, final(k).tasks@, r.switch)]
            n * 5000 >= a0 * 91 && n * 5000 < a0 * 91 + 5000 && threads::set_aside(
                old(k).tasks@,
                b,
                TaskState::Blocked,
                threads::later(old(k).tasks.tick_count, n),
            ) && threads::handed_on(b, final(k).tasks@, r.switch),
        r.value == 0,
        r.output@.len() == 0,
        final(k).world(final(bytes)@) == (World {
            tasks: final(k).world(final(bytes)@).tasks,
            ..old(k).world(old(bytes)@)
        }),
{
    let w = old(k).world(old(bytes)@);
    let w2 = final(k).world(final(bytes)@);
    assert(syscall::called(w, old(user)@, 13u64, a0, a1, a2, w2, final(user)@, r));
    let a = w.tasks;
    assert(w2.tasks == final(k).tasks@ && w.tasks == old(k).tasks@);
    let n = crate::clock::ticks_of_ms(a0) as u64;
    assert(n == crate::clock::ticks_of_ms(a0));
    if a0 == 0 {
        threads::lemma_handed_on(a);
    } else {
        let cur = a.current as int;
        let until: u64 = if a.ticks + n <= u64::MAX {
            (a.ticks + n) as u64
        } else {
            u64::MAX
        };
        let b = (Tasks { sleep_until: a.sleep_until.update(cur, until), ..a }).with_state(
            cur,
            TaskState::Blocked,
        );
        assert(threads::set_aside(a, b, TaskState::Blocked, threads::later(a.ticks, n)));
        threads::lemma_in_order(a, b);
        threads::lemma_handed_on(b);
        assert(threads::handed_on(b, w2.tasks, r.switch));
    }
}

/// The 64-bit number at a place, in little-endian order.
pub open spec fn word(u: Seq<u8>, at: int) -> int {
    u[at] + 0x100 * u[at + 1] + 0x1_0000 * u[at + 2] + 0x100_0000 * u[at + 3] + 0x1_0000_0000 * u[at
        + 4] + 0x100_0000_0000 * u[at + 5] + 0x1_0000_0000_0000 * u[at + 6] + 0x100_0000_0000_0000
        * u[at + 7]
}

proof fn lemma_ids(v: u16, d: u16, x: u64)
    by (bit_vector)
    requires
        x == v + 0x1_0000 * d,
    ensures
        x % 0x100 + 0x100 * (x / 0x100 % 0x100) == v,
        x / 0x1_0000 % 0x100 + 0x100 * (x / 0x100_0000 % 0x100) == d,
        x / 0x1_0000_0000 % 0x100 == 0,
        x / 0x100_0000_0000 % 0x100 == 0,
        x / 0x1_0000_0000_0000 % 0x100 == 0,
        x / 0x100_0000_0000_0000 % 0x100 == 0,
{
}

/// A program learns of a device that is registered: the 32 bytes of its name, then its
/// vendor, its device number, its interrupt and where its registers are, in little-endian
/// order; 56 bytes in all. Of a device that is not registered it learns nothing.
pub proof fn law_device_is_told_as_it_is(
    k: &mut Kernel,
    bytes: &mut [u8],
    user: &mut [u8],
    a0: u64,
    a1: u64,
    a2: u64,
    r: SysReturn,
)
    requires
        old(k).wf(old(bytes)@),
        old(user)@.len() >= 56,
        call_ensures(
            syscall::syscall_dispatch_inner,
            (k, bytes, user, 14u64, a0, a1, a2),
            r,
        ),
    ensures
        final(k).world(final(bytes)@) == old(k).world(old(bytes)@),
        final(user)@.len() == old(user)@.len(),
        !(a0 < 64 && old(k).world(old(bytes)@).devices[a0 as int].active) ==> answers(r, minus_one())
            && final(user)@ == old(user)@,
        a0 < 64 && old(k).world(old(bytes)@).devices[a0 as int].active ==> {
            let d = old(k).world(old(bytes)@).devices[a0 as int];
            let u = final(user)@;
            &&& answers(r, 56)
            &&& forall|i: int| 0 <= i < 32 ==> #[trigger] u[i] == d.name@[i]
            &&& u[32] + 0x100 * u[33] == d.vendor_id
            &&& u[34] + 0x100 * u[35] == d.device_id
            &&& forall|i: int| 36 <= i < 40 ==> #[trigger] u[i] == 0
            &&& word(u, 40) == d.irq
            &&& word(u, 48) == d.mmio_base
            &&& forall|i: int| 56 <= i < u.len() ==> #[trigger] u[i] == old(user)@[i]
        },
{
    let w = old(k).world(old(bytes)@);
    let w2 = final(k).world(final(bytes)@);
    assert(syscall::called(w, old(user)@, 14u64, a0, a1, a2, w2, final(user)@, r));
    if a0 < 64 && w.devices[a0 as int].active {
        let d = w.devices[a0 as int];
        let u = final(user)@;
        let x = (d.vendor_id + 0x1_0000 * d.device_id) as u64;
        let rec = syscall::device_record(d);
        assert(rec.len() == 56);
        assert forall|i: int| 0 <= i < 56 implies #[trigger] u[i] == rec[i] by {}
        lemma_ids(d.vendor_id, d.device_id, x);
        let b = ram::bytes64(x);
        assert(u[32] == b[0] && u[33] == b[1] && u[34] == b[2] && u[35] == b[3]);
        assert(u[36] == b[4] && u[37] == b[5] && u[38] == b[6] && u[39] == b[7]);
        assert forall|i: int| 36 <= i < 40 implies #[trigger] u[i] == 0 by {}
        let c = ram::bytes64(d.irq as u64);
        assert(u[40] == c[0] && u[41] == c[1] && u[42] == c[2] && u[43] == c[3]);
        assert(u[44] == c[4] && u[45] == c[5] && u[46] == c[6] && u[47] == c[7]);
        threads::lemma_entry_bytes(d.irq as u64);
        let e = ram::bytes64(d.mmio_base);
        assert(u[48] == e[0] && u[49] == e[1] && u[50] == e[2] && u[51] == e[3]);
        assert(u[52] == e[4] && u[53] == e[5] && u[54] == e[6] && u[55] == e[7]);
        threads::lemma_entry_bytes(d.mmio_base);
    }
}

/// A number that stands for no call gives -1 and changes nothing.
pub proof fn law_unknown_call_fails(
    k: &mut Kernel,
    bytes: &mut [u8],
    user: &mut [u8],
    a0: u64,
    a1: u64,
    a2: u64,
    nr: u64,
    r: SysReturn,
)
    requires
        old(k).wf(old(bytes)@),
        nr > 14,
        call_ensures(
            syscall::syscall_dispatch_inner,
            (k, bytes, user, nr, a0, a1, a2),
            r,
        ),
    ensures
        answers(r, minus_one()),
        final(user)@ == old(user)@,
        final(k).world(final(bytes)@) == old(k).world(old(bytes)@),
{
    let w = old(k).world(old(bytes)@);
    let w2 = final(k).world(final(bytes)@);
    assert(syscall::called(w, old(user)@, nr, a0, a1, a2, w2, final(user)@, r));
}

} // verus!
