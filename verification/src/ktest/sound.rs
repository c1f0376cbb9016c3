//! A kernel fresh from its boot passes every test of the diagnostics.

use vstd::prelude::*;
use vstd::string::*;
use crate::drivers;
use crate::drivers::linux_shim;
use crate::ipc;
use crate::ipc::Channel;
use crate::kernel::World;
use crate::memory::paging::space;
use crate::memory::paging::Mem;
use crate::memory::phys;
use crate::memory::phys::Frames;
use crate::memory::phys::MAX_FRAMES;
use crate::search;
use crate::vfs;
use crate::vfs::laws;
use crate::vfs::ramfs;
use crate::vfs::{Backend, InodeType, Tables, MAX_DENTRIES, MAX_INODES, MAX_OPEN_FILES};
use super::checks;
use super::run;
use super::run::Step;
use super::{BootMode, Diag, Health, TestResults, Verdict, SUBSYSTEM_COUNT, TEST_COUNT};

verus! {

/// Frames can be taken as long as some are free.
proof fn lemma_pop(f: Frames, n: nat)
    requires
        f.used.len() == MAX_FRAMES,
        f.total <= MAX_FRAMES,
        f.free() >= n,
    ensures
        linux_shim::frames_popped(f, n).1,
    decreases n,
{
    if n > 0 {
        phys::law_alloc_succeeds_while_frames_are_free(f);
        phys::law_alloc_takes_a_free_frame(f);
        lemma_pop(f.take(f.lowest_free()->0 as int), (n - 1) as nat);
    }
}

/// The directory of temporary files takes new files: `k` were made and opened so
/// far, and the slots behind them are free.
spec fn takes_files(t: Tables, m: Mem, k: int) -> bool {
    &&& laws::tree(t)
    &&& laws::pages_apart(t, m)
    &&& m.frames.used[0]
    &&& t.resolved(checks::TMP_PATH@) == Some(5usize)
    &&& t.dentries[5].inode_idx == 5
    &&& t.inodes[5].active
    &&& t.inodes[5].itype == InodeType::Directory
    &&& t.inodes[5].inode_ops.create == Backend::Ramfs
    &&& forall|j: int| 7 + k <= j < MAX_INODES ==> !(#[trigger] t.inodes[j]).active
    &&& forall|j: int| 7 + k <= j < MAX_DENTRIES ==> !(#[trigger] t.dentries[j]).active
    &&& forall|j: int| k <= j < MAX_OPEN_FILES ==> !(#[trigger] t.files[j]).active
}

/// No entry of the directory of temporary files has a name.
spec fn is_new_name(t: Tables, name: Seq<u8>) -> bool {
    forall|j: int| 0 <= j < MAX_DENTRIES ==> !#[trigger] t.is_child(j, 5, name)
}

proof fn lemma_fresh_takes_files(t: Tables, m: Mem)
    requires
        ramfs::is_fresh(t),
        m.sane(),
        m.frames.used[0],
    ensures
        takes_files(t, m, 0),
        is_new_name(t, checks::WRITE_NAME@),
        is_new_name(t, checks::READ_NAME@),
        t.found(checks::DEV_PATH@) is Some,
        t.found(checks::NO_PATH@) is None,
        t.dentries[0].active,
{
    laws::law_fresh_tables_are_a_tree(t);
    let none = checks::NO_PATH@.subrange(1, 12);
    assert(none[0] == 0x6E);
    laws::law_fresh_root_has_its_directories(t, none);
    let root = Seq::<u8>::empty();
    assert(laws::joined(root, ramfs::base_name(5)) =~= checks::TMP_PATH@);
    assert(laws::joined(root, ramfs::base_name(1)) =~= checks::DEV_PATH@);
    assert(laws::joined(root, none) =~= checks::NO_PATH@);
    assert forall|i: int| 1 <= i < ramfs::BASE_ENTRIES implies none != #[trigger] ramfs::base_name(
        i,
    ) by {
        assert(none.len() == 11);
    }
    assert(t.dentries[5].inode_idx == 5);
    assert(t.dentries[0].active);
    assert forall|j: int| 0 <= j < MAX_DENTRIES implies !(t.dentries[j].active
        && t.dentries[j].parent_idx == 5) by {
        if j >= ramfs::BASE_ENTRIES {
            assert(t.dentries[j] == crate::vfs::Dentry::spec_empty());
        } else {
            assert(t.dentries[j].active);
        }
    }
    assert forall|j: int| 7 <= j < MAX_DENTRIES implies !(#[trigger] t.dentries[j]).active by {
        assert(t.dentries[j] == crate::vfs::Dentry::spec_empty());
    }
}

/// Making a file leaves it open to be found and written, with a page of its own.
proof fn lemma_made(t: Tables, m: Mem, k: int, name: Seq<u8>, t1: Tables, m1: Mem, d: Option<usize>)
    requires
        takes_files(t, m, k),
        0 <= k < 100,
        laws::plain(name),
        name.len() < vfs::MAX_NAME_LEN,
        is_new_name(t, name),
        m.frames.lowest_free() is Some,
        vfs::created(t, m, checks::TMP_PATH@, name, InodeType::File, t1, m1, d),
    ensures
        d is Some,
        laws::tree(t1),
        laws::pages_apart(t1, m1),
        m1.frames == m.frames.take(m.frames.lowest_free()->0 as int),
        m1.frames.used[0],
        t1.resolved(laws::joined(checks::TMP_PATH@, name)) == d,
        t1.resolved(checks::TMP_PATH@) == Some(5usize),
        t1.dentries[5] == t.dentries[5],
        t1.inodes[5] == t.inodes[5],
        t1.files == t.files,
        forall|j: int| 8 + k <= j < MAX_INODES ==> !(#[trigger] t1.inodes[j]).active,
        forall|j: int| 8 + k <= j < MAX_DENTRIES ==> !(#[trigger] t1.dentries[j]).active,
        forall|n: Seq<u8>| n != name && #[trigger] is_new_name(t, n) ==> is_new_name(t1, n),
        ({
            let i = t1.dentries[d->0 as int].inode_idx as int;
            &&& 0 <= i < MAX_INODES
            &&& i != 5
            &&& t1.inodes[i].active
            &&& t1.inodes[i].data_page != 0
            &&& t1.inodes[i].data_size == 0
            &&& t1.inodes[i].file_ops.read == Backend::Ramfs
            &&& t1.inodes[i].file_ops.write == Backend::Ramfs
        }),
{
    let pi = |i: int| !t.inodes[i].active;
    let pd = |i: int| !t.dentries[i].active;
    search::lemma_first(MAX_INODES as nat, pi);
    search::lemma_first(MAX_DENTRIES as nat, pd);
    assert(pi(7 + k));
    assert(pd(7 + k));
    let i = t.free_inode()->0 as int;
    let dd = t.free_dentry()->0 as int;
    assert(i <= 7 + k);
    assert(dd <= 7 + k);
    assert(d == t.free_dentry());
    search::lemma_first_none(MAX_DENTRIES as nat, |j: int| t.is_child(j, 5, name));
    laws::law_created_entry_is_found(
        t,
        m,
        checks::TMP_PATH@,
        name,
        InodeType::File,
        t1,
        m1,
        d->0,
    );
    laws::law_create_leaves_files_alone(t, m, 5, name, InodeType::File, t1, m1, d, 5);
    space::lemma_fresh(m);
    search::lemma_first(m.frames.total, |f: int| !m.frames.used[f]);
    assert(m.frames.lowest_free()->0 != 0);
    assert(t.found(checks::TMP_PATH@) is Some);
    assert forall|n: Seq<u8>| n != name && #[trigger] is_new_name(t, n) implies is_new_name(
        t1,
        n,
    ) by {
        assert forall|j: int| 0 <= j < MAX_DENTRIES implies !#[trigger] t1.is_child(j, 5, n) by {
            assert(!t.is_child(j, 5, n));
            if j == dd {
                assert(t1.dentries[dd].label() == vfs::cut_name(name));
            } else {
                assert(t1.dentries[j] == t.dentries[j]);
            }
        }
    }
}

/// A file that is made, opened and written to in the directory of temporary
/// files takes the data, and gives it back when it is read from the start.
proof fn lemma_file(
    t: Tables,
    m: Mem,
    k: int,
    name: Seq<u8>,
    path: Seq<u8>,
    t1: Tables,
    m1: Mem,
    d: Option<usize>,
    data: Seq<u8>,
)
    requires
        takes_files(t, m, k),
        0 <= k < 100,
        laws::plain(name),
        name.len() < vfs::MAX_NAME_LEN,
        is_new_name(t, name),
        m.frames.free() > 0,
        vfs::created(t, m, checks::TMP_PATH@, name, InodeType::File, t1, m1, d),
        path == laws::joined(checks::TMP_PATH@, name),
        0 < data.len() <= 32,
    ensures
        d is Some,
        ({
            let (to, fd) = t1.opened_at(path, 0);
            let (tw, mw, n) = to.written_to(m1, fd->0 as int, data);
            let ts = tw.sought(fd->0 as int, 0);
            &&& fd is Some
            &&& n == data.len()
            &&& takes_files(tw, mw, k + 1)
            &&& mw.frames.free() == m.frames.free() - 1
            &&& forall|n: Seq<u8>| n != name && #[trigger] is_new_name(t, n) ==> is_new_name(tw, n)
            &&& ts.opened(fd->0 as int) is Some
            &&& ts.readable(mw, fd->0 as int, 32) == data
            &&& takes_files(ts.advanced(fd->0 as int, data.len() as int), mw, k + 1)
        }),
{
    phys::law_alloc_succeeds_while_frames_are_free(m.frames);
    phys::law_alloc_takes_a_free_frame(m.frames);
    lemma_made(t, m, k, name, t1, m1, d);
    let pf = |i: int| !t1.files[i].active;
    search::lemma_first(MAX_OPEN_FILES as nat, pf);
    assert(pf(k));
    let (to, fd) = t1.opened_at(path, 0);
    let f = fd->0 as int;
    let i = t1.dentries[d->0 as int].inode_idx as int;
    assert(to.files[f].inode_idx == i);
    assert(to.opened(f) == Some(i as usize));
    assert(laws::pages_apart(to, m1));
    let (tw, mw, n) = to.written_to(m1, f, data);
    laws::law_read_gives_back_what_was_written(to, m1, f, data);
    laws::law_write_leaves_other_files_alone(to, m1, i, 0, data, 5);
    let (tr, mr, nr) = ramfs::written(to, m1, i, 0, data);
    assert(tw.inodes == tr.inodes);
    assert(laws::pages_apart(tw, mw));
    assert(tw.dentries == t1.dentries);
    assert(tw.inodes[5] == t1.inodes[5]);
    assert forall|j: int| 0 <= j < MAX_INODES implies (#[trigger] tw.inodes[j]).active
        == t1.inodes[j].active by {}
    lemma_same_names(t1, tw);
    let ts = tw.sought(f, 0);
    assert(data.subrange(0, data.len() as int) =~= data);
    assert(tw.inodes[i].data_size == data.len());
    assert(ts.content(mw, i).len() == data.len());
    assert(ts.readable(mw, f, 32) =~= ts.readable(mw, f, data.len() as int));
    let ta = ts.advanced(f, data.len() as int);
    assert(ta.dentries == t1.dentries);
    lemma_same_names(t1, ta);
}

/// Paths lead to the same entries in tables with the same names and the same
/// inodes in use.
proof fn lemma_same_names(t: Tables, u: Tables)
    requires
        laws::tree(t),
        u.dentries == t.dentries,
        u.superblocks == t.superblocks,
        u.inodes.len() == MAX_INODES,
        u.files.len() == MAX_OPEN_FILES,
        forall|j: int| 0 <= j < MAX_INODES ==> (#[trigger] u.inodes[j]).active == t.inodes[j].active,
    ensures
        laws::tree(u),
        u.resolved(checks::TMP_PATH@) == t.resolved(checks::TMP_PATH@),
        forall|n: Seq<u8>| #[trigger] is_new_name(t, n) ==> is_new_name(u, n),
{
    assert forall|e: int, n: Seq<u8>| #[trigger] t.child(e, n) == u.child(e, n) by {
        search::lemma_first_same(
            MAX_DENTRIES as nat,
            |j: int| t.is_child(j, e, n),
            |j: int| u.is_child(j, e, n),
        );
    }
    lemma_same_walk(t, u, 0, vfs::components(checks::TMP_PATH@));
    assert forall|n: Seq<u8>| #[trigger] is_new_name(t, n) implies is_new_name(u, n) by {
        assert forall|j: int| 0 <= j < MAX_DENTRIES implies !#[trigger] u.is_child(j, 5, n) by {
            assert(!t.is_child(j, 5, n));
        }
    }
}

proof fn lemma_same_walk(t: Tables, u: Tables, d: usize, names: Seq<Seq<u8>>)
    requires
        forall|e: int, n: Seq<u8>| #[trigger] t.child(e, n) == u.child(e, n),
    ensures
        t.walk(d, names) == u.walk(d, names),
    decreases names.len(),
{
    if names.len() > 0 {
        match t.child(d as int, names[0]) {
            Some(c) => lemma_same_walk(t, u, c, names.subrange(1, names.len() as int)),
            None => {},
        }
    }
}

/// A kernel fresh from its boot: frame 0 is taken and four frames are free, the
/// file system is new, no endpoint or driver is registered, there is a slot for
/// a device, and there is a process with a thread.
pub open spec fn is_booted(w: World) -> bool {
    &&& w.mem.sane()
    &&& w.mem.frames.used[0]
    &&& w.mem.frames.free() >= 4
    &&& ramfs::is_fresh(w.vfs)
    &&& idle_from(w.ipc, 0)
    &&& w.devices.len() == drivers::MAX_DEVICES
    &&& !w.devices[drivers::MAX_DEVICES - 1].active
    &&& w.drivers.len() == drivers::MAX_DRIVERS
    &&& forall|i: int| 0 <= i < drivers::MAX_DRIVERS ==> !(#[trigger] w.drivers[i]).active
    &&& run::process_total(w) >= 1
    &&& run::thread_total(w) >= 1
}

/// The endpoints from `n` on are not registered, and no message waits there;
/// those in front of them are registered under other names.
pub open spec fn idle_from(v: Seq<Channel>, n: int) -> bool {
    &&& v.len() == ipc::MAX_ENDPOINTS
    &&& forall|i: int| n <= i < v.len() ==> !(#[trigger] v[i]).active && v[i].waiting.len() == 0
    &&& forall|i: int| 0 <= i < n ==> (#[trigger] v[i]).active
}

/// How a kernel that was `w0` is after it passed the first `i` tests.
spec fn stage(i: int, w0: World, w: World) -> bool {
    &&& w.tasks == w0.tasks
    &&& w.mem.sane() && w.mem.frames.used[0]
    &&& i <= 7 ==> w.vfs == w0.vfs && w.mem == w0.mem
    &&& i == 8 ==> takes_files(w.vfs, w.mem, 1) && is_new_name(w.vfs, checks::READ_NAME@)
        && w.mem.frames.free() >= 3
    &&& 9 <= i ==> w.mem.frames.free() >= 2
    &&& i <= 9 ==> w.ipc == w0.ipc
    &&& i == 10 ==> idle_from(w.ipc, 1)
    &&& i == 11 ==> idle_from(w.ipc, 2)
    &&& i <= 12 ==> w.devices == w0.devices
    &&& i <= 13 ==> w.drivers == w0.drivers
}

proof fn lemma_files_stage(i: int, w0: World, w: World, w2: World, ok: bool)
    requires
        is_booted(w0),
        i == 7 || i == 8,
        stage(i, w0, w),
        run::checked(i, w, w2, ok),
    ensures
        ok,
        stage(i + 1, w0, w2),
{
    assert(laws::joined(checks::TMP_PATH@, checks::WRITE_NAME@) =~= checks::WRITE_PATH@);
    assert(laws::joined(checks::TMP_PATH@, checks::READ_NAME@) =~= checks::READ_PATH@);
    if i == 7 {
        lemma_fresh_takes_files(w.vfs, w.mem);
        let (t1, m1, d) = choose|t1: Tables, m1: Mem, d: Option<usize>| #[trigger]
            vfs::created(
                w.vfs,
                w.mem,
                checks::TMP_PATH@,
                checks::WRITE_NAME@,
                InodeType::File,
                t1,
                m1,
                d,
            ) && {
                let (to, fd) = t1.opened_at(checks::WRITE_PATH@, 0);
                if d is None || fd is None {
                    !ok && w2.vfs == t1 && w2.mem == m1
                } else {
                    let (tw, mw, n) = to.written_to(m1, fd->0 as int, checks::WRITE_DATA@);
                    w2.vfs == tw && w2.mem == mw && ok == (n == 16)
                }
            };
        assert(checks::WRITE_NAME@.len() == 8);
        lemma_file(
            w.vfs,
            w.mem,
            0,
            checks::WRITE_NAME@,
            checks::WRITE_PATH@,
            t1,
            m1,
            d,
            checks::WRITE_DATA@,
        );
        assert(checks::WRITE_NAME@.len() != checks::READ_NAME@.len());
    } else {
        let (t1, m1, d) = choose|t1: Tables, m1: Mem, d: Option<usize>| #[trigger]
            vfs::created(
                w.vfs,
                w.mem,
                checks::TMP_PATH@,
                checks::READ_NAME@,
                InodeType::File,
                t1,
                m1,
                d,
            ) && checks::read_back(t1, m1, w2.vfs, w2.mem, ok);
        lemma_file(
            w.vfs,
            w.mem,
            1,
            checks::READ_NAME@,
            checks::READ_PATH@,
            t1,
            m1,
            d,
            checks::READ_DATA@,
        );
        let (to, fd) = t1.opened_at(checks::READ_PATH@, 0);
        let (tw, mw, n) = to.written_to(m1, fd->0 as int, checks::READ_DATA@);
        let ts = tw.sought(fd->0 as int, 0);
        assert(ts.readable(crate::memory::paging::bare(mw.bytes), fd->0 as int, 32)
            == ts.readable(mw, fd->0 as int, 32));
    }
}

/// An endpoint is registered in the first slot that is free.
proof fn lemma_registered(v: Seq<Channel>, n: int, name: Seq<u8>)
    requires
        idle_from(v, n),
        0 <= n < 3,
        name.len() <= ipc::MAX_NAME_LEN,
    ensures
        ({
            let (w, id) = ipc::registered_at(v, name, 1);
            &&& id == Some(n as usize)
            &&& w == v.update(n, ipc::registered(v[n], name, 1))
            &&& idle_from(w, n + 1)
            &&& w[n].waiting.len() == 0
        }),
{
    search::lemma_first_is(v.len(), |i: int| !v[i].active, n as usize);
}

proof fn lemma_ipc_stage(i: int, w0: World, w: World, w2: World, ok: bool)
    requires
        is_booted(w0),
        9 <= i <= 11,
        stage(i, w0, w),
        run::checked(i, w, w2, ok),
    ensures
        ok,
        stage(i + 1, w0, w2),
{
    reveal_strlit("test_ep");
    reveal_strlit("test_sr");
    reveal_strlit("test_overflow");
    is_ascii_spec_bytes("test_ep");
    is_ascii_spec_bytes("test_sr");
    is_ascii_spec_bytes("test_overflow");
    if i == 9 {
        let name = "test_ep".spec_bytes();
        lemma_registered(w.ipc, 0, name);
        let v = w2.ipc;
        search::lemma_first_is(v.len(), |i: int| v[i].active && v[i].name == name, 0);
    } else if i == 10 {
        lemma_registered(w.ipc, 1, "test_sr".spec_bytes());
        let v = ipc::registered_at(w.ipc, "test_sr".spec_bytes(), 1).0;
        let msg = choose|msg: ipc::Message| #[trigger]
            msg.is_request(42, checks::PING@) && {
                let s = ipc::sent(v, 1, msg);
                let got = s[1].waiting[0];
                &&& w2.ipc == ipc::received(s, 1)
                &&& ok == (got.opcode == 42 && got.payload_len == 4 && got.payload@.subrange(0, 4)
                    == checks::PING@)
            };
        assert(ipc::sent(v, 1, msg)[1].waiting[0] == msg);
        assert(msg.data() == msg.payload@.subrange(0, 4));
    } else {
        lemma_registered(w.ipc, 2, "test_overflow".spec_bytes());
    }
}

proof fn lemma_stage(i: int, w0: World, w: World, w2: World, ok: bool)
    requires
        is_booted(w0),
        0 <= i < TEST_COUNT,
        stage(i, w0, w),
        run::checked(i, w, w2, ok),
    ensures
        ok,
        stage(i + 1, w0, w2),
{
    if i <= 6 {
        phys::law_alloc_succeeds_while_frames_are_free(w.mem.frames);
        lemma_pop(w.mem.frames, 4);
        lemma_fresh_takes_files(w.vfs, w.mem);
        if i == 2 {
            assert(w2 == w);
        }
    } else if i == 7 || i == 8 {
        lemma_files_stage(i, w0, w, w2, ok);
    } else if 9 <= i <= 11 {
        lemma_ipc_stage(i, w0, w, w2, ok);
    } else if i == 12 {
        let p = |i: int| !w.devices[i].active;
        search::lemma_first(drivers::MAX_DEVICES as nat, p);
        assert(p(drivers::MAX_DEVICES - 1));
    } else if i == 13 {
        let (dev, w1, r1, drv, r) = choose|
            dev: crate::drivers::Device,
            w1: World,
            r1: Option<usize>,
            drv: crate::drivers::Driver<crate::kernel::KernelDriver>,
            r: Option<usize>,
        |
            checks::is_test_device(dev, "matchable".spec_bytes(), 0x1234, 0x5678)
                && #[trigger] checks::device_added(w, dev, w1, r1) && checks::is_test_driver(
                drv,
                "test_drv".spec_bytes(),
            ) && #[trigger] checks::driver_added(w1, drv, w2, r) && ok == (r is Some);
        search::lemma_first_is(
            drivers::MAX_DRIVERS as nat,
            |i: int| !w1.drivers[i].active,
            0,
        );
    } else if i == 16 {
        phys::law_alloc_succeeds_while_frames_are_free(w.mem.frames);
        phys::law_alloc_takes_a_free_frame(w.mem.frames);
        linux_shim::law_kfree_gives_back_a_page(w.mem, 64, linux_shim::GFP_KERNEL);
        reveal_with_fuel(linux_shim::frames_popped, 2);
        assert(linux_shim::pages_for(64) == 1);
        assert(w.mem.frames.lowest_free()->0 != 0);
    }
}

/// A kernel fresh from its boot passes every test at once: in every run of the
/// diagnostics on it all subsystems come out healthy, and the kernel boots
/// normally.
pub proof fn law_booted_kernel_passes_every_test(
    steps: Seq<Step>,
    kernel_end: int,
    d: Diag,
    w: World,
    w2: World,
)
    requires
        is_booted(w),
        run::is_run(steps, kernel_end, d, w, w2),
        steps.len() == TEST_COUNT,
        d.health.len() == SUBSYSTEM_COUNT,
        d.mode == BootMode::Normal,
        d.attempts == Seq::new(SUBSYSTEM_COUNT as nat, |i: int| 0u8),
    ensures
        run::verdicts(steps) == Seq::new(TEST_COUNT as nat, |i: int| Verdict::Passed),
        ({
            let (d2, r) = super::concluded(d, run::verdicts(steps));
            &&& forall|s: int| 0 <= s < SUBSYSTEM_COUNT ==> d2.health[s] == Health::Healthy
            &&& r == Some(
                TestResults {
                    total: TEST_COUNT,
                    passed: TEST_COUNT,
                    failed: 0,
                    recovered: 0,
                    boot_mode: BootMode::Normal,
                },
            )
        }),
{
    assert forall|i: int| 0 <= i < TEST_COUNT implies (#[trigger] steps[i]).verdict
        == Verdict::Passed by {
        lemma_steps_pass(steps, kernel_end, d, w, w2, i);
    }
    assert(run::verdicts(steps) =~= Seq::new(TEST_COUNT as nat, |i: int| Verdict::Passed));
    super::laws::law_all_tests_passed_means_healthy(d, run::verdicts(steps));
}

proof fn lemma_steps_pass(
    steps: Seq<Step>,
    kernel_end: int,
    d: Diag,
    w: World,
    w2: World,
    i: int,
)
    requires
        is_booted(w),
        run::is_run(steps, kernel_end, d, w, w2),
        0 <= i < steps.len() <= TEST_COUNT,
    ensures
        steps[i].verdict == Verdict::Passed,
        stage(i + 1, w, steps[i].end),
    decreases i,
{
    reveal(run::is_step);
    assert(run::follows(steps, w, i));
    let s = steps[i];
    assert(run::is_step(i, kernel_end, run::attempts_before(d, steps, i), s));
    if i > 0 {
        lemma_steps_pass(steps, kernel_end, d, w, w2, i - 1);
    }
    assert(stage(i, w, s.start));
    lemma_stage(i, w, s.start, s.tested, s.verdict == Verdict::Passed);
}

} // verus!
