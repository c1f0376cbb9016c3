//! The tests that the kernel makes of itself: when they pass, and what they leave behind.

use vstd::prelude::*;
use vstd::string::*;
use crate::drivers::linux_shim;
use crate::ipc;
use crate::kernel::{Kernel, World};
use crate::ktest::checks;
use crate::ktest::run;
use crate::memory::paging;
use crate::memory::paging::Mem;
use crate::search;
use crate::vfs;
use crate::vfs::{InodeType, Tables, Vfs};
use super::files;
use super::memory::{clear_frames, lemma_clear, lemma_popped};
use super::messages::{is_registered, lemma_named_endpoint, named_endpoint};

verus! {

/// The test that writes to a file: it makes the file, see `files::makes`, opens it, see
/// `files::opens`, and puts its data there, see `files::put`. It passes exactly if all
/// three do and 16 bytes are written.
pub open spec fn write_tested(w: World, up: Option<usize>, w2: World, ok: bool) -> bool {
    exists|t1: Tables, m1: Mem, e: Option<usize>, to: Tables, fd: Option<usize>|
        {
            &&& #[trigger] files::makes(
                w.vfs,
                w.mem,
                up,
                checks::WRITE_NAME@,
                InodeType::File,
                t1,
                m1,
                e,
            )
            &&& #[trigger] files::opens(t1, t1.found(checks::WRITE_PATH@), 0, to, fd)
            &&& e is None || fd is None ==> !ok && w2.vfs == t1 && w2.mem == m1
            &&& e is Some && fd is Some ==> exists|n: int| #[trigger]
                files::put(
                    to,
                    m1,
                    fd->0 as int,
                    checks::WRITE_DATA@,
                    w2.vfs,
                    w2.mem,
                    n,
                ) && ok == (n == 16)
        }
}

/// The file is made under the name "test.txt" in "/tmp", and opened as "/tmp/test.txt".
/// See `write_tested`.
pub proof fn law_write_test_writes_a_file(
    k: &mut Kernel,
    bytes: &mut [u8],
    before: &Vfs,
    dir: &[u8],
    up: Option<usize>,
    ok: bool,
)
    requires
        old(k).wf(old(bytes)@),
        old(k).vfs.next_ino < u64::MAX,
        *before == old(k).vfs,
        dir@ == seq![0x2Fu8, 0x74, 0x6D, 0x70],
        call_ensures(vfs::path_lookup, (before, dir), up),
        call_ensures(run::run_check, (7usize, k, bytes), ok),
    ensures
        write_tested(old(k).world(old(bytes)@), up, final(k).world(final(bytes)@), ok),
        checks::WRITE_DATA@.len() == 16,
        checks::WRITE_PATH@ == dir@ + seq![0x2Fu8] + checks::WRITE_NAME@,
{
    let w = old(k).world(old(bytes)@);
    let w2 = final(k).world(final(bytes)@);
    assert(run::checked(7, w, w2, ok));
    assert(checks::TMP_PATH@ =~= dir@);
    assert(checks::WRITE_PATH@ =~= dir@ + seq![0x2Fu8] + checks::WRITE_NAME@);
    assert(checks::wrote_file(w.vfs, w.mem, w2.vfs, w2.mem, ok));
    let (t1, m1, e) = choose|t1: Tables, m1: Mem, d: Option<usize>| #[trigger]
        vfs::created(
            w.vfs,
            w.mem,
            checks::TMP_PATH@,
            checks::WRITE_NAME@,
            InodeType::File,
            t1,
            m1,
            d,
        ) && {
            let (to, fd) = t1.opened_at(checks::WRITE_PATH@, 0);
            if d is None || fd is None {
                !ok && w2.vfs == t1 && w2.mem == m1
            } else {
                let (tw, mw, n) = to.written_to(m1, fd->0 as int, checks::WRITE_DATA@);
                w2.vfs == tw && w2.mem == mw && ok == (n == 16)
            }
        };
    files::lemma_makes(
        w.vfs,
        w.mem,
        dir@,
        checks::WRITE_NAME@,
        InodeType::File,
        t1,
        m1,
        e,
    );
    lemma_created_keeps(w, dir@, checks::WRITE_NAME@, t1, m1, e);
    files::lemma_opens(t1, checks::WRITE_PATH@, 0);
    let (to, fd) = t1.opened_at(checks::WRITE_PATH@, 0);
    if e is Some && fd is Some {
        assert(to.wf() && to.pages_in_ram(m1.bytes.len() as int));
        files::lemma_put(to, m1, fd->0 as int, checks::WRITE_DATA@);
        let (tw, mw, n) = to.written_to(m1, fd->0 as int, checks::WRITE_DATA@);
        assert(files::put(to, m1, fd->0 as int, checks::WRITE_DATA@, tw, mw, n as int));
    }
    assert(files::makes(
        w.vfs,
        w.mem,
        up,
        checks::WRITE_NAME@,
        InodeType::File,
        t1,
        m1,
        e,
    ));
    assert(files::opens(t1, t1.found(checks::WRITE_PATH@), 0, to, fd));
}

proof fn lemma_created_keeps(
    w: World,
    dir: Seq<u8>,
    name: Seq<u8>,
    t1: Tables,
    m1: Mem,
    e: Option<usize>,
)
    requires
        w.vfs.wf(),
        w.mem.sane(),
        w.vfs.pages_in_ram(w.mem.bytes.len() as int),
        w.vfs.next_ino < u64::MAX,
        vfs::created(w.vfs, w.mem, dir, name, InodeType::File, t1, m1, e),
    ensures
        t1.wf(),
        m1.sane(),
        t1.pages_in_ram(m1.bytes.len() as int),
{
    if w.mem.frames.lowest_free() is Some {
        paging::space::lemma_fresh(w.mem);
    }
    search::lemma_first(256, |i: int| !w.vfs.inodes[i].active);
    search::lemma_first(256, |i: int| !w.vfs.dentries[i].active);
    assert forall|j: int| 0 <= j < 256 implies (#[trigger] t1.inodes[j]).data_size <= 4096 && (
    t1.inodes[j].data_page != 0 ==> t1.inodes[j].data_page + 4096 <= m1.bytes.len()) by {
        assert(w.vfs.inodes[j].data_size <= 4096);
    }
    assert forall|j: int| 0 <= j < 256 implies (#[trigger] t1.dentries[j]).name_len <= 64 by {
        assert(w.vfs.dentries[j].name_len <= 64);
    }
}

/// An endpoint test passes exactly if its endpoint could be registered, and no other
/// endpoint in front of it has the name. Nothing but the endpoints changes.
pub proof fn law_endpoint_test_finds_its_endpoint(k: &mut Kernel, bytes: &mut [u8], ok: bool)
    requires
        old(k).wf(old(bytes)@),
        call_ensures(run::run_check, (9usize, k, bytes), ok),
    ensures
        ({
            let v = old(k).ipc@;
            let v2 = final(k).ipc@;
            let name = "test_ep".spec_bytes();
            exists|id: Option<usize>| #[trigger]
                named_endpoint(v, name, 1, v2, id) && (ok <==> id is Some && forall|j: int|
                    0 <= j < id->0 ==> !(is_registered(v, j) && (#[trigger] v[j]).name == name))
        }),
{
    let w = old(k).world(old(bytes)@);
    let w2 = final(k).world(final(bytes)@);
    assert(run::checked(9, w, w2, ok));
    let v = old(k).ipc@;
    assert(w.ipc == v && w2.ipc == final(k).ipc@);
    let name = "test_ep".spec_bytes();
    assert(v.len() == 64);
    lemma_named_endpoint(v, name, 1);
    let (u, id) = ipc::registered_at(v, name, 1);
    assert(named_endpoint(v, name, 1, u, id));
    let p = |i: int| u[i].active && u[i].name == name;
    search::lemma_first(64, p);
    if id is Some {
        assert(p(id->0 as int));
        assert forall|j: int| 0 <= j < id->0 implies p(j) == (is_registered(v, j) && (
        #[trigger] v[j]).name == name) by {
            assert(u[j] == v[j]);
        }
        match search::first(64, p) {
            Some(i) => {
                assert(p(i as int));
                if i < id->0 {
                    assert(v[i as int].name == name);
                }
            },
            None => {},
        }
        if forall|j: int|
            0 <= j < id->0 ==> !(is_registered(v, j) && (#[trigger] v[j]).name == name) {
            assert forall|j: int| 0 <= j < id->0 implies !#[trigger] p(j) by {
                assert(!(is_registered(v, j) && v[j].name == name));
            }
            search::lemma_first_is(64, p, id->0);
        }
    }
}

/// A message test passes exactly if its endpoint could be registered, there was room for
/// the message, and the oldest message there is the one that was sent: a request 42 with
/// the data "ping".
pub proof fn law_message_test_gets_its_message(k: &mut Kernel, bytes: &mut [u8], ok: bool)
    requires
        old(k).wf(old(bytes)@),
        call_ensures(run::run_check, (10usize, k, bytes), ok),
    ensures
        ({
            let v = old(k).ipc@;
            exists|u: Seq<ipc::Channel>, id: Option<usize>|
                #[trigger] named_endpoint(v, "test_sr".spec_bytes(), 1, u, id) && (id is None
                    ==> !ok) && (id matches Some(e) ==> {
                    &&& u[e as int].waiting.len() >= 16 ==> !ok
                    &&& u[e as int].waiting.len() == 0 ==> ok
                    &&& 0 < u[e as int].waiting.len() < 16 ==> (ok <==> {
                        let m = u[e as int].waiting[0];
                        m.opcode == 42 && m.payload_len == 4 && m.payload@.subrange(0, 4)
                            == seq![0x70u8, 0x69, 0x6E, 0x67]
                    })
                })
        }),
{
    let w = old(k).world(old(bytes)@);
    let w2 = final(k).world(final(bytes)@);
    assert(run::checked(10, w, w2, ok));
    let v = old(k).ipc@;
    assert(w.ipc == v && w2.ipc == final(k).ipc@);
    let name = "test_sr".spec_bytes();
    assert(v.len() == 64);
    lemma_named_endpoint(v, name, 1);
    let (u, id) = ipc::registered_at(v, name, 1);
    assert(named_endpoint(v, name, 1, u, id));
    assert(checks::PING@ =~= seq![0x70u8, 0x69, 0x6E, 0x67]);
    if id is Some && u[id->0 as int].waiting.len() < 16 {
        let e = id->0 as int;
        let msg = choose|msg: ipc::Message| #[trigger]
            msg.is_request(42, checks::PING@) && {
                let s = ipc::sent(u, e, msg);
                let got = s[e].waiting[0];
                &&& final(k).ipc@ == ipc::received(s, e)
                &&& ok == (got.opcode == 42 && got.payload_len == 4 && got.payload@.subrange(0, 4)
                    == checks::PING@)
            };
        if u[e].waiting.len() == 0 {
            assert(ipc::sent(u, e, msg)[e].waiting[0] == msg);
            assert(msg.data() =~= checks::PING@);
            assert(msg.payload@.subrange(0, 4) =~= checks::PING@);
        }
    }
}

/// The test of a full queue passes exactly if its endpoint could be registered and no
/// message waited there: then 16 wait there.
pub proof fn law_full_queue_test_fills_the_queue(k: &mut Kernel, bytes: &mut [u8], ok: bool)
    requires
        old(k).wf(old(bytes)@),
        call_ensures(run::run_check, (11usize, k, bytes), ok),
    ensures
        ({
            let v = old(k).ipc@;
            exists|u: Seq<ipc::Channel>, id: Option<usize>|
                #[trigger] named_endpoint(v, "test_overflow".spec_bytes(), 1, u, id) && (ok <==> (
                id matches Some(e) && u[e as int].waiting.len() == 0)) && (id matches Some(e)
                    ==> final(k).ipc@[e as int].waiting.len() == 16)
        }),
{
    let w = old(k).world(old(bytes)@);
    let w2 = final(k).world(final(bytes)@);
    assert(run::checked(11, w, w2, ok));
    let v = old(k).ipc@;
    assert(w.ipc == v && w2.ipc == final(k).ipc@);
    let name = "test_overflow".spec_bytes();
    assert(v.len() == 64);
    lemma_named_endpoint(v, name, 1);
    let (u, id) = ipc::registered_at(v, name, 1);
    assert(named_endpoint(v, name, 1, u, id));
}

/// The tests of devices and drivers pass exactly if there is a place for a device, and one
/// for a driver.
pub proof fn law_device_tests_need_a_place(
    i: usize,
    k: &mut Kernel,
    bytes: &mut [u8],
    ok: bool,
)
    requires
        i == 12 || i == 13,
        old(k).wf(old(bytes)@),
        call_ensures(run::run_check, (i, k, bytes), ok),
    ensures
        i == 12 ==> (ok <==> exists|j: int|
            0 <= j < 64 && !(#[trigger] old(k).devices.devices@[j]).active),
        i == 13 ==> (ok <==> exists|j: int|
            0 <= j < 32 && !(#[trigger] old(k).devices.drivers@[j]).active),
{
    let w = old(k).world(old(bytes)@);
    let w2 = final(k).world(final(bytes)@);
    assert(run::checked(i as int, w, w2, ok));
    let ds = old(k).devices.devices@;
    let rs = old(k).devices.drivers@;
    assert(w.devices == ds && w.drivers == rs);
    let p = |j: int| !w.devices[j].active;
    let q = |j: int| !w.drivers[j].active;
    search::lemma_first(64, p);
    search::lemma_first(32, q);
    if exists|j: int| 0 <= j < 64 && !(#[trigger] ds[j]).active {
        let j = choose|j: int| 0 <= j < 64 && !(#[trigger] ds[j]).active;
        assert(p(j));
    }
    if exists|j: int| 0 <= j < 32 && !(#[trigger] rs[j]).active {
        let j = choose|j: int| 0 <= j < 32 && !(#[trigger] rs[j]).active;
        assert(q(j));
    }
    if search::first(64, p) is Some {
        assert(p(search::first(64, p)->0 as int));
        assert(!ds[search::first(64, p)->0 as int].active);
    }
    if search::first(32, q) is Some {
        assert(q(search::first(32, q)->0 as int));
        assert(!rs[search::first(32, q)->0 as int].active);
    }
    if i == 13 {
        let (dev, w1, r1, drv, r) = choose|
            dev: crate::drivers::Device,
            w1: World,
            r1: Option<usize>,
            drv: crate::drivers::Driver<crate::kernel::KernelDriver>,
            r: Option<usize>,
        |
            checks::is_test_device(dev, "matchable".spec_bytes(), 0x1234, 0x5678)
                && #[trigger] checks::device_added(w, dev, w1, r1) && checks::is_test_driver(
                drv,
                "test_drv".spec_bytes(),
            ) && #[trigger] checks::driver_added(w1, drv, w2, r) && ok == (r is Some);
        assert(w1.drivers == w.drivers);
        assert((|i: int| !w1.drivers[i].active) =~= q);
    }
}

/// The test of memory passes exactly if a frame is free, and then leaves the frames as they
/// were.
pub proof fn law_memory_test_needs_a_frame(k: &mut Kernel, bytes: &mut [u8], ok: bool)
    requires
        old(k).wf(old(bytes)@),
        old(k).frames@.used[0],
        call_ensures(run::run_check, (16usize, k, bytes), ok),
    ensures
        ok <==> clear_frames(old(k).frames@.used, old(k).frames@.total) >= 1,
        ok ==> final(k).frames@ == old(k).frames@,
        ok ==> exists|a: int|
            {
                &&& 0 <= a < old(bytes)@.len()
                &&& a % 4096 == 0
                &&& !old(k).frames@.used[a / 4096]
                &&& final(bytes)@ == #[trigger] old(bytes)@.update(a, 0xABu8)
            },
{
    let w = old(k).world(old(bytes)@);
    let w2 = final(k).world(final(bytes)@);
    assert(run::checked(16, w, w2, ok));
    let m = w.mem;
    lemma_clear(m.frames, m.frames.total);
    lemma_popped(m.frames, 1);
    crate::memory::phys::law_alloc_succeeds_while_frames_are_free(m.frames);
    reveal_with_fuel(linux_shim::frames_popped, 2);
    assert(linux_shim::pages_for(64) == 1);
    if m.frames.lowest_free() is Some {
        paging::space::lemma_fresh(m);
        linux_shim::law_kfree_gives_back_a_page(m, 64, linux_shim::GFP_KERNEL);
        assert(m.frames.lowest_free()->0 != 0);
        let a = m.fresh_addr();
        assert(final(bytes)@ == old(bytes)@.update(a, 0xABu8));
    }
}

} // verus!
