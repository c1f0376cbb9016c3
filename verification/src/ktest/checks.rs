//! The tests of the diagnostics, and the ways to recover a subsystem.
//!
//! A test works on the live kernel. What it is stated to do is what it leaves
//! behind and whether it passes.

use vstd::prelude::*;
use vstd::string::*;
use crate::drivers;
use crate::drivers::linux_shim;
use crate::drivers::linux_shim::{AtomicInt, SpinLock};
use crate::drivers::{BusType, Device, DeviceClass, Driver};
use crate::ipc;
use crate::ipc::{Channel, Message};
use crate::kernel;
use crate::kernel::{Kernel, KernelDriver, World};
use crate::memory::paging;
use crate::memory::paging::Mem;
use crate::memory::phys;
use crate::memory::phys::Frames;
use crate::scheduler;
use crate::search;
use crate::task;
use crate::vfs;
use crate::vfs::{InodeType, Tables};

verus! {

/// The path of the directory of devices: "/dev".
pub const DEV_PATH: [u8; 4] = [0x2F, 0x64, 0x65, 0x76];

/// A path that leads nowhere: "/nonexistent".
pub const NO_PATH: [u8; 12] = [
    0x2F, 0x6E, 0x6F, 0x6E, 0x65, 0x78, 0x69, 0x73, 0x74, 0x65, 0x6E, 0x74,
];

/// The path of the directory of temporary files: "/tmp".
pub const TMP_PATH: [u8; 4] = [0x2F, 0x74, 0x6D, 0x70];

/// The name of the file to write to: "test.txt".
pub const WRITE_NAME: [u8; 8] = [0x74, 0x65, 0x73, 0x74, 0x2E, 0x74, 0x78, 0x74];

/// The path of the file to write to: "/tmp/test.txt".
pub const WRITE_PATH: [u8; 13] = [
    0x2F, 0x74, 0x6D, 0x70, 0x2F, 0x74, 0x65, 0x73, 0x74, 0x2E, 0x74, 0x78, 0x74,
];

/// What is written to it: "Hello, NoNameOS!".
pub const WRITE_DATA: [u8; 16] = [
    0x48, 0x65, 0x6C, 0x6C, 0x6F, 0x2C, 0x20, 0x4E, 0x6F, 0x4E, 0x61, 0x6D, 0x65, 0x4F, 0x53, 0x21,
];

/// The name of the file to read from: "read_test.txt".
pub const READ_NAME: [u8; 13] = [
    0x72, 0x65, 0x61, 0x64, 0x5F, 0x74, 0x65, 0x73, 0x74, 0x2E, 0x74, 0x78, 0x74,
];

/// The path of the file to read from: "/tmp/read_test.txt".
pub const READ_PATH: [u8; 18] = [
    0x2F, 0x74, 0x6D, 0x70, 0x2F, 0x72, 0x65, 0x61, 0x64, 0x5F, 0x74, 0x65, 0x73, 0x74, 0x2E, 0x74,
    0x78, 0x74,
];

/// What is written to it and read back: "Test1234".
pub const READ_DATA: [u8; 8] = [0x54, 0x65, 0x73, 0x74, 0x31, 0x32, 0x33, 0x34];

/// The data of a message: "ping".
pub const PING: [u8; 4] = [0x70, 0x69, 0x6E, 0x67];

/// A frame can be taken, and the count of free frames follows.
pub fn test_phys_alloc_and_free(k: &mut Kernel) -> (ok: bool)
    requires
        old(k).frames.wf(),
    ensures
        ok == (old(k).frames@.lowest_free() is Some),
        *final(k) == (Kernel { frames: final(k).frames, ..*old(k) }),
        final(k).frames.wf(),
        final(k).frames@ == old(k).frames@,
{
    let before: usize = phys::free_count(&k.frames);
    match phys::alloc_frame(&mut k.frames) {
        None => false,
        Some(addr) => {
            proof {
                phys::law_free_undoes_alloc(old(k).frames@);
            }
            let after_alloc: usize = phys::free_count(&k.frames);
            if after_alloc >= before {
                return false;
            }
            phys::free_frame(&mut k.frames, addr);
            let after_free: usize = phys::free_count(&k.frames);
            after_free == before
        },
    }
}

/// A frame starts on a frame boundary.
pub fn test_phys_alloc_aligned(k: &mut Kernel) -> (ok: bool)
    requires
        old(k).frames.wf(),
    ensures
        ok == (old(k).frames@.lowest_free() is Some),
        *final(k) == (Kernel { frames: final(k).frames, ..*old(k) }),
        final(k).frames.wf(),
        final(k).frames@ == old(k).frames@,
{
    match phys::alloc_frame(&mut k.frames) {
        None => false,
        Some(addr) => {
            proof {
                phys::law_free_undoes_alloc(old(k).frames@);
            }
            let aligned: bool = addr % 4096 == 0;
            phys::free_frame(&mut k.frames, addr);
            aligned
        },
    }
}

/// Exactly the frames of `f` and those at the addresses from `i` on are taken.
spec fn also_taken(f: Frames, g: Frames, addrs: Seq<usize>, i: int) -> bool {
    &&& g.total == f.total
    &&& g.used.len() == f.used.len()
    &&& forall|n: int|
        0 <= n < f.used.len() ==> (#[trigger] g.used[n] <==> f.used[n] || exists|j: int|
            i <= j < addrs.len() && #[trigger] addrs[j] == n * 4096)
}

/// Four frames can be taken, and freeing them restores the count. Where there
/// are fewer, those that were taken stay taken.
pub fn test_phys_free_restores(k: &mut Kernel) -> (ok: bool)
    requires
        old(k).frames.wf(),
    ensures
        ok == linux_shim::frames_popped(old(k).frames@, 4).1,
        *final(k) == (Kernel { frames: final(k).frames, ..*old(k) }),
        final(k).frames.wf(),
        final(k).frames@.total == old(k).frames@.total,
        final(k).frames@ == (if ok {
            old(k).frames@
        } else {
            linux_shim::frames_popped(old(k).frames@, 4).0
        }),
{
    let ghost f = k.frames@;
    let before: usize = phys::free_count(&k.frames);
    let mut addrs: Vec<usize> = Vec::new();
    let mut i: usize = 0;
    while i < 4
        invariant
            i <= 4,
            *k == (Kernel { frames: k.frames, ..*old(k) }),
            k.frames.wf(),
            f == old(k).frames@,
            before == f.free(),
            addrs@.len() == i,
            k.frames.free_frames + i == before,
            linux_shim::frames_popped(f, 4) == linux_shim::frames_popped(
                k.frames@,
                (4 - i) as nat,
            ),
            also_taken(f, k.frames@, addrs@, 0),
            forall|a: int|
                0 <= a < i ==> (#[trigger] addrs@[a]) % 4096 == 0 && addrs@[a] as int / 4096
                    < phys::MAX_FRAMES && !f.used[addrs@[a] as int / 4096],
            forall|a: int, b: int| 0 <= a < b < i ==> addrs@[a] != addrs@[b],
        decreases 4 - i,
    {
        let ghost g = k.frames@;
        let ghost had = addrs@;
        match phys::alloc_frame(&mut k.frames) {
            Some(addr) => {
                proof {
                    phys::law_alloc_takes_a_free_frame(g);
                }
                addrs.push(addr);
                proof {
                    let n = addr as int / 4096;
                    assert(!g.used[n]);
                    assert forall|m: int| 0 <= m < f.used.len() implies (#[trigger] k.frames@.used[m]
                        <==> f.used[m] || exists|j: int|
                        0 <= j < addrs@.len() && #[trigger] addrs@[j] == m * 4096) by {
                        if exists|j: int| 0 <= j < had.len() && #[trigger] had[j] == m * 4096 {
                            let j = choose|j: int| 0 <= j < had.len() && #[trigger] had[j] == m * 4096;
                            assert(addrs@[j] == m * 4096);
                        }
                        if m == n {
                            assert(addrs@[i as int] == m * 4096);
                        }
                        if exists|j: int| 0 <= j < addrs@.len() && #[trigger] addrs@[j] == m * 4096 {
                            let j = choose|j: int|
                                0 <= j < addrs@.len() && #[trigger] addrs@[j] == m * 4096;
                            if j < i {
                                assert(had[j] == m * 4096);
                            }
                        }
                    }
                    assert forall|a: int| 0 <= a < i implies addrs@[a] != addr by {
                        if had[a] == addr {
                            assert(had[a] == n * 4096);
                        }
                    }
                }
            },
            None => {
                return false;
            },
        }
        i = i + 1;
    }
    let mid: usize = phys::free_count(&k.frames);
    if mid != before - 4 {
        return false;
    }
    i = 0;
    while i < 4
        invariant
            i <= 4,
            *k == (Kernel { frames: k.frames, ..*old(k) }),
            k.frames.wf(),
            f == old(k).frames@,
            addrs@.len() == 4,
            also_taken(f, k.frames@, addrs@, i as int),
            forall|a: int|
                0 <= a < 4 ==> (#[trigger] addrs@[a]) % 4096 == 0 && addrs@[a] as int / 4096
                    < phys::MAX_FRAMES && !f.used[addrs@[a] as int / 4096],
            forall|a: int, b: int| 0 <= a < b < 4 ==> addrs@[a] != addrs@[b],
        decreases 4 - i,
    {
        let ghost g = k.frames@;
        phys::free_frame(&mut k.frames, addrs[i]);
        proof {
            let n = addrs@[i as int] as int / 4096;
            assert forall|m: int| 0 <= m < f.used.len() implies (#[trigger] k.frames@.used[m]
                <==> f.used[m] || exists|j: int|
                i + 1 <= j < addrs@.len() && #[trigger] addrs@[j] == m * 4096) by {
                if m == n {
                    assert forall|j: int| i + 1 <= j < 4 implies #[trigger] addrs@[j] != m * 4096 by {
                        assert(addrs@[i as int] != addrs@[j]);
                    }
                } else {
                    assert(g.used[m] == k.frames@.used[m]);
                }
            }
        }
        i = i + 1;
    }
    assert(k.frames@.used =~= f.used);
    assert(k.frames@ =~= f);
    phys::free_count(&k.frames) == before
}

/// Freeing a frame twice adds none.
pub fn test_phys_double_free(k: &mut Kernel) -> (ok: bool)
    requires
        old(k).frames.wf(),
    ensures
        ok == (old(k).frames@.lowest_free() is Some),
        *final(k) == (Kernel { frames: final(k).frames, ..*old(k) }),
        final(k).frames.wf(),
        final(k).frames@ == old(k).frames@,
{
    let before: usize = phys::free_count(&k.frames);
    match phys::alloc_frame(&mut k.frames) {
        None => false,
        Some(addr) => {
            proof {
                phys::law_free_undoes_alloc(old(k).frames@);
                search::lemma_count_bound(
                    old(k).frames@.total,
                    |f: int| !old(k).frames@.used[f],
                );
            }
            phys::free_frame(&mut k.frames, addr);
            phys::free_frame(&mut k.frames, addr);
            assert(k.frames@.used =~= old(k).frames@.used);
            phys::free_count(&k.frames) <= before + 1
        },
    }
}

/// The file system has a root.
pub fn test_vfs_root_exists(k: &Kernel) -> (ok: bool)
    ensures
        ok == k.vfs@.dentries[0].active,
{
    vfs::get_dentry(&k.vfs, 0).is_some()
}

/// The directory of devices is there.
pub fn test_vfs_lookup_dev(k: &Kernel) -> (ok: bool)
    requires
        k.vfs.wf(),
    ensures
        ok == (k.vfs@.found(DEV_PATH@) is Some),
{
    let path: [u8; 4] = DEV_PATH;
    vfs::path_lookup(&k.vfs, &path).is_some()
}

/// A path that leads nowhere is not found.
pub fn test_vfs_lookup_nonexistent(k: &Kernel) -> (ok: bool)
    requires
        k.vfs.wf(),
    ensures
        ok == (k.vfs@.found(NO_PATH@) is None),
{
    let path: [u8; 12] = NO_PATH;
    vfs::path_lookup(&k.vfs, &path).is_none()
}

/// What `test_vfs_create_and_write` leaves behind, and whether it passes: a file
/// is made, opened and written to.
pub open spec fn wrote_file(t: Tables, m: Mem, t2: Tables, m2: Mem, ok: bool) -> bool {
    exists|t1: Tables, m1: Mem, d: Option<usize>| #[trigger]
        vfs::created(t, m, TMP_PATH@, WRITE_NAME@, InodeType::File, t1, m1, d) && {
            let (to, fd) = t1.opened_at(WRITE_PATH@, 0);
            if d is None || fd is None {
                !ok && t2 == t1 && m2 == m1
            } else {
                let (tw, mw, n) = to.written_to(m1, fd->0 as int, WRITE_DATA@);
                t2 == tw && m2 == mw && ok == (n == 16)
            }
        }
}

/// A file can be made and written to. It stays open.
pub fn test_vfs_create_and_write(k: &mut Kernel, bytes: &mut [u8]) -> (ok: bool)
    requires
        old(k).wf(old(bytes)@),
        old(k).vfs.next_ino < u64::MAX,
    ensures
        final(k).wf(final(bytes)@),
        final(bytes)@.len() == old(bytes)@.len(),
        final(k).vfs.next_ino <= old(k).vfs.next_ino + 1,
        *final(k) == (Kernel { frames: final(k).frames, vfs: final(k).vfs, ..*old(k) }),
        wrote_file(
            old(k).vfs@,
            paging::mem(&old(k).frames, old(bytes)@),
            final(k).vfs@,
            paging::mem(&final(k).frames, final(bytes)@),
            ok,
        ),
{
    let tmp: [u8; 4] = TMP_PATH;
    let name: [u8; 8] = WRITE_NAME;
    let dentry: Option<usize> = vfs::create(
        &mut k.vfs,
        &mut k.frames,
        bytes,
        &tmp,
        &name,
        InodeType::File,
    );
    if dentry.is_none() {
        return false;
    }
    let path: [u8; 13] = WRITE_PATH;
    match vfs::open(&mut k.vfs, &path, 0) {
        None => false,
        Some(fd) => {
            let data: [u8; 16] = WRITE_DATA;
            let n: isize = vfs::write(&mut k.vfs, &mut k.frames, bytes, fd, &data);
            n == 16
        },
    }
}

/// What `test_vfs_create_and_read` makes of the tables and the memory once the
/// file is made, and whether it passes: the file is opened, and what is written
/// to it is read back.
pub open spec fn read_back(t: Tables, m: Mem, t2: Tables, m2: Mem, ok: bool) -> bool {
    let (to, fd) = t.opened_at(READ_PATH@, 0);
    if fd is None {
        !ok && t2 == t && m2 == m
    } else {
        let (tw, mw, n) = to.written_to(m, fd->0 as int, READ_DATA@);
        let ts = tw.sought(fd->0 as int, 0);
        let part = ts.readable(paging::bare(mw.bytes), fd->0 as int, 32);
        if n != 8 {
            !ok && t2 == tw && m2 == mw
        } else if ts.opened(fd->0 as int) is None {
            !ok && t2 == ts && m2 == mw
        } else {
            &&& t2 == ts.advanced(fd->0 as int, part.len() as int)
            &&& m2 == mw
            &&& ok == (part == READ_DATA@)
        }
    }
}

/// What `test_vfs_create_and_read` leaves behind, and whether it passes.
pub open spec fn read_file(t: Tables, m: Mem, t2: Tables, m2: Mem, ok: bool) -> bool {
    exists|t1: Tables, m1: Mem, d: Option<usize>| #[trigger]
        vfs::created(t, m, TMP_PATH@, READ_NAME@, InodeType::File, t1, m1, d) && read_back(
            t1,
            m1,
            t2,
            m2,
            ok,
        )
}

/// Whether the first bytes of a buffer are the given ones.
fn starts_with(buf: &[u8], data: &[u8]) -> (r: bool)
    requires
        data@.len() <= buf@.len(),
    ensures
        r == (buf@.subrange(0, data@.len() as int) == data@),
{
    let mut i: usize = 0;
    while i < data.len()
        invariant
            i <= data@.len() <= buf@.len(),
            forall|j: int| 0 <= j < i ==> buf@[j] == data@[j],
        decreases data@.len() - i,
    {
        if buf[i] != data[i] {
            assert(buf@.subrange(0, data@.len() as int)[i as int] != data@[i as int]);
            return false;
        }
        i = i + 1;
    }
    assert(buf@.subrange(0, data@.len() as int) =~= data@);
    true
}

/// What is written to a file is read back. The file stays open.
pub fn test_vfs_create_and_read(k: &mut Kernel, bytes: &mut [u8]) -> (ok: bool)
    requires
        old(k).wf(old(bytes)@),
        old(k).vfs.next_ino < u64::MAX,
    ensures
        final(k).wf(final(bytes)@),
        final(bytes)@.len() == old(bytes)@.len(),
        final(k).vfs.next_ino <= old(k).vfs.next_ino + 1,
        *final(k) == (Kernel { frames: final(k).frames, vfs: final(k).vfs, ..*old(k) }),
        read_file(
            old(k).vfs@,
            paging::mem(&old(k).frames, old(bytes)@),
            final(k).vfs@,
            paging::mem(&final(k).frames, final(bytes)@),
            ok,
        ),
{
    let tmp: [u8; 4] = TMP_PATH;
    let name: [u8; 13] = READ_NAME;
    let _dentry: Option<usize> = vfs::create(
        &mut k.vfs,
        &mut k.frames,
        bytes,
        &tmp,
        &name,
        InodeType::File,
    );
    let path: [u8; 18] = READ_PATH;
    match vfs::open(&mut k.vfs, &path, 0) {
        None => false,
        Some(fd) => {
            let data: [u8; 8] = READ_DATA;
            let n: isize = vfs::write(&mut k.vfs, &mut k.frames, bytes, fd, &data);
            if n != 8 {
                return false;
            }
            vfs::seek(&mut k.vfs, fd, 0);
            let mut buf: [u8; 32] = [0u8; 32];
            let ghost ts = k.vfs@;
            let read: isize = vfs::read(&mut k.vfs, bytes, fd, &mut buf);
            let ghost part = ts.readable(paging::bare(bytes@), fd as int, 32);
            if read != 8 {
                return false;
            }
            proof {
                if ts.opened(fd as int) is Some {
                    assert(buf@.subrange(0, 8) =~= part);
                }
            }
            starts_with(&buf, &data)
        },
    }
}

/// What `test_ipc_register` leaves behind, and whether it passes: an endpoint is
/// registered, and found under its name.
pub open spec fn endpoint_found(v: Seq<Channel>, v2: Seq<Channel>, ok: bool) -> bool {
    let (w, id) = ipc::registered_at(v, "test_ep".spec_bytes(), 1);
    &&& v2 == w
    &&& ok == (id is Some && ipc::endpoint_named(w, "test_ep".spec_bytes()) == id)
}

/// An endpoint is found under its name.
pub fn test_ipc_register(k: &mut Kernel) -> (ok: bool)
    requires
        old(k).ipc.wf(),
    ensures
        final(k).ipc.wf(),
        *final(k) == (Kernel { ipc: final(k).ipc, ..*old(k) }),
        endpoint_found(old(k).ipc@, final(k).ipc@, ok),
{
    match ipc::register_endpoint(&mut k.ipc, "test_ep", 1) {
        None => false,
        Some(id) => match ipc::find_endpoint(&k.ipc, "test_ep") {
            None => false,
            Some(found) => found == id,
        },
    }
}

/// What `test_ipc_send_receive` leaves behind, and whether it passes: a message
/// is sent to a new endpoint, and the oldest one there is received.
pub open spec fn message_returned(v: Seq<Channel>, v2: Seq<Channel>, ok: bool) -> bool {
    let (w, id) = ipc::registered_at(v, "test_sr".spec_bytes(), 1);
    let e = id->0 as int;
    if id is None || w[e].waiting.len() >= ipc::QUEUE_SIZE {
        !ok && v2 == w
    } else {
        exists|msg: Message| #[trigger]
            msg.is_request(42, PING@) && {
                let s = ipc::sent(w, e, msg);
                let got = s[e].waiting[0];
                &&& v2 == ipc::received(s, e)
                &&& ok == (got.opcode == 42 && got.payload_len == 4 && got.payload@.subrange(0, 4)
                    == PING@)
            }
    }
}

/// A message that is sent is received.
pub fn test_ipc_send_receive(k: &mut Kernel) -> (ok: bool)
    requires
        old(k).ipc.wf(),
    ensures
        final(k).ipc.wf(),
        *final(k) == (Kernel { ipc: final(k).ipc, ..*old(k) }),
        message_returned(old(k).ipc@, final(k).ipc@, ok),
{
    match ipc::register_endpoint(&mut k.ipc, "test_sr", 1) {
        None => false,
        Some(id) => {
            let ghost w = k.ipc@;
            proof {
                search::lemma_first(old(k).ipc@.len(), |i: int| !old(k).ipc@[i].active);
            }
            let ping: [u8; 4] = PING;
            let msg: Message = Message::request(42, &ping);
            if ipc::send(&mut k.ipc, id, msg).is_err() {
                return false;
            }
            match ipc::receive(&mut k.ipc, id) {
                None => false,
                Some(got) => {
                    assert(msg.is_request(42, PING@));
                    got.opcode == 42 && got.payload_len == 4 && starts_with(&got.payload, &ping)
                },
            }
        },
    }
}

/// Endpoint `id` has `n` requests more, numbered from 0 on, each with the data
/// "x".
pub open spec fn stuffed(v: Seq<Channel>, id: int, n: int, w: Seq<Channel>) -> bool {
    let had = v[id].waiting.len();
    &&& w == v.update(id, Channel { waiting: w[id].waiting, ..v[id] })
    &&& w[id].waiting.len() == had + n
    &&& forall|j: int| 0 <= j < had ==> w[id].waiting[j] == v[id].waiting[j]
    &&& forall|j: int|
        0 <= j < n ==> (#[trigger] w[id].waiting[had + j]).is_request(j as u32, seq![0x78u8])
}

/// What `test_ipc_queue_overflow` leaves behind, and whether it passes: requests
/// are sent to a new endpoint until it is full. That are sixteen if it was empty.
pub open spec fn queue_filled(v: Seq<Channel>, v2: Seq<Channel>, ok: bool) -> bool {
    let (w, id) = ipc::registered_at(v, "test_overflow".spec_bytes(), 1);
    let e = id->0 as int;
    if id is None {
        !ok && v2 == w
    } else {
        &&& stuffed(w, e, ipc::QUEUE_SIZE - w[e].waiting.len(), v2)
        &&& ok == (w[e].waiting.len() == 0)
    }
}

/// Sixteen messages wait at an endpoint, and a seventeenth is refused.
pub fn test_ipc_queue_overflow(k: &mut Kernel) -> (ok: bool)
    requires
        old(k).ipc.wf(),
    ensures
        final(k).ipc.wf(),
        *final(k) == (Kernel { ipc: final(k).ipc, ..*old(k) }),
        queue_filled(old(k).ipc@, final(k).ipc@, ok),
{
    let id: usize = match ipc::register_endpoint(&mut k.ipc, "test_overflow", 1) {
        None => {
            return false;
        },
        Some(id) => id,
    };
    proof {
        search::lemma_first(old(k).ipc@.len(), |i: int| !old(k).ipc@[i].active);
        k.ipc.lemma_room(id as int);
    }
    let ghost w = k.ipc@;
    let x: [u8; 1] = [0x78];
    assert(x@ =~= seq![0x78u8]);
    assert(w =~= w.update(id as int, Channel { waiting: w[id as int].waiting, ..w[id as int] }));
    let mut i: u32 = 0;
    while i < 16
        invariant
            i <= 16,
            k.ipc.wf(),
            *k == (Kernel { ipc: k.ipc, ..*old(k) }),
            w.len() == ipc::MAX_ENDPOINTS,
            id < ipc::MAX_ENDPOINTS,
            w[id as int].active,
            w[id as int].waiting.len() <= ipc::QUEUE_SIZE,
            w[id as int].waiting.len() + i <= ipc::QUEUE_SIZE,
            ipc::registered_at(old(k).ipc@, "test_overflow".spec_bytes(), 1) == (w, Some(id)),
            x@ == seq![0x78u8],
            stuffed(w, id as int, i as int, k.ipc@),
        decreases 16 - i,
    {
        let msg: Message = Message::request(i, &x);
        let ghost before = k.ipc@;
        if ipc::send(&mut k.ipc, id, msg).is_err() {
            return false;
        }
        assert(k.ipc@ =~= w.update(
            id as int,
            Channel { waiting: k.ipc@[id as int].waiting, ..w[id as int] },
        ));
        assert forall|j: int| 0 <= j < i + 1 implies (
        #[trigger] k.ipc@[id as int].waiting[w[id as int].waiting.len() + j]).is_request(
            j as u32,
            seq![0x78u8],
        ) by {
            if j < i {
                assert(before[id as int].waiting[w[id as int].waiting.len() + j].is_request(
                    j as u32,
                    seq![0x78u8],
                ));
            }
        }
        i = i + 1;
    }
    let last: [u8; 8] = [0x6F, 0x76, 0x65, 0x72, 0x66, 0x6C, 0x6F, 0x77];
    let msg: Message = Message::request(99, &last);
    ipc::send(&mut k.ipc, id, msg).is_err()
}

/// A device that a test registers.
pub open spec fn is_test_device(
    dev: Device,
    name: Seq<u8>,
    vendor_id: u16,
    device_id: u16,
) -> bool {
    &&& dev == (Device {
        name: dev.name,
        name_len: dev.name_len,
        vendor_id,
        device_id,
        ..Device::spec_empty()
    })
    &&& dev.name@ == task::named(Device::spec_empty().name@, name)
    &&& dev.name_len == task::name_len(Device::spec_empty().name@, name)
}

/// What registering a device leaves behind.
pub open spec fn device_added(w: World, dev: Device, w2: World, r: Option<usize>) -> bool {
    let placed = Device { id: w.next_device, active: true, ..dev };
    &&& r == search::first(drivers::MAX_DEVICES as nat, |i: int| !w.devices[i].active)
    &&& w2 == (World {
        devices: w2.devices,
        next_device: (w.next_device + 1) as u32,
        ..w
    })
    &&& match r {
        Some(i) => {
            &&& drivers::bound_from(w.drivers, 0, placed, w2.devices[i as int])
            &&& w2.devices == w.devices.update(i as int, w2.devices[i as int])
        },
        None => w2.devices == w.devices,
    }
}

/// What `test_driver_register_device` leaves behind, and whether it passes: a
/// device is registered.
pub open spec fn device_counted(w: World, w2: World, ok: bool) -> bool {
    exists|dev: Device, r: Option<usize>|
        is_test_device(dev, "test_dev".spec_bytes(), 0, 0) && #[trigger] device_added(w, dev, w2, r)
            && ok == (r is Some)
}

/// A device can be registered.
pub fn test_driver_register_device(k: &mut Kernel, bytes: &[u8]) -> (ok: bool)
    requires
        old(k).devices.next_device_id < u32::MAX,
    ensures
        *final(k) == (Kernel { devices: final(k).devices, ..*old(k) }),
        final(k).devices.next_device_id == old(k).devices.next_device_id + 1,
        device_counted(old(k).world(bytes@), final(k).world(bytes@), ok),
{
    let ghost w = k.world(bytes@);
    let before: usize = drivers::device_count(&k.devices);
    let mut dev = Device::empty();
    dev.set_name("test_dev");
    dev.class = DeviceClass::Unknown;
    dev.bus = BusType::Platform;
    let idx: Option<usize> = drivers::register_device(&mut k.devices, dev);
    assert(device_added(w, dev, k.world(bytes@), idx));
    if idx.is_none() {
        return false;
    }
    proof {
        let i = idx->0 as int;
        let ds = k.devices.devices@;
        search::lemma_first(drivers::MAX_DEVICES as nat, |i: int| !w.devices[i].active);
        kernel::lemma_bound_stays_active(
            w.drivers,
            0,
            Device { id: w.next_device, active: true, ..dev },
            ds[i],
        );
        search::lemma_count_add(
            drivers::MAX_DEVICES as nat,
            |j: int| w.devices[j].active,
            |j: int| ds[j].active,
            i,
        );
    }
    drivers::device_count(&k.devices) > before
}

/// The driver that a test registers: for every device of the platform.
pub open spec fn is_test_driver(drv: Driver<KernelDriver>, name: Seq<u8>) -> bool {
    &&& drv == (Driver {
        name: drv.name,
        name_len: drv.name_len,
        bus: BusType::Platform,
        match_vendor: drivers::ANY_ID,
        match_device: drivers::ANY_ID,
        ops: KernelDriver::Probe,
        active: false,
    })
    &&& drv.name@ == task::named([0u8; drivers::NAME_SIZE]@, name)
    &&& drv.name_len == task::name_len([0u8; drivers::NAME_SIZE]@, name)
}

/// What registering a driver leaves behind.
pub open spec fn driver_added(
    w: World,
    drv: Driver<KernelDriver>,
    w2: World,
    r: Option<usize>,
) -> bool {
    let placed = Driver { active: true, ..drv };
    &&& r == search::first(drivers::MAX_DRIVERS as nat, |i: int| !w.drivers[i].active)
    &&& w2 == (World { devices: w2.devices, drivers: w2.drivers, ..w })
    &&& w2.devices.len() == w.devices.len()
    &&& match r {
        Some(i) => {
            &&& w2.drivers == w.drivers.update(i as int, placed)
            &&& forall|d: int|
                0 <= d < drivers::MAX_DEVICES ==> drivers::bound_to(
                    placed,
                    i as int,
                    w.devices[d],
                    #[trigger] w2.devices[d],
                )
        },
        None => w2.drivers == w.drivers && w2.devices == w.devices,
    }
}

/// What `test_driver_match` leaves behind, and whether it passes: a device and a
/// driver for it are registered.
pub open spec fn driver_matched(w: World, w2: World, ok: bool) -> bool {
    exists|dev: Device, w1: World, r1: Option<usize>, drv: Driver<KernelDriver>, r: Option<usize>|
        is_test_device(dev, "matchable".spec_bytes(), 0x1234, 0x5678) && #[trigger] device_added(
            w,
            dev,
            w1,
            r1,
        ) && is_test_driver(drv, "test_drv".spec_bytes()) && #[trigger] driver_added(w1, drv, w2, r)
            && ok == (r is Some)
}

/// A driver can be registered, for a device that is there.
pub fn test_driver_match(k: &mut Kernel, bytes: &[u8]) -> (ok: bool)
    requires
        old(k).devices.next_device_id < u32::MAX,
    ensures
        *final(k) == (Kernel { devices: final(k).devices, ..*old(k) }),
        final(k).devices.next_device_id == old(k).devices.next_device_id + 1,
        driver_matched(old(k).world(bytes@), final(k).world(bytes@), ok),
{
    let ghost w = k.world(bytes@);
    let mut dev = Device::empty();
    dev.set_name("matchable");
    dev.bus = BusType::Platform;
    dev.vendor_id = 0x1234;
    dev.device_id = 0x5678;
    let dev_idx: Option<usize> = drivers::register_device(&mut k.devices, dev);
    let ghost w1 = k.world(bytes@);
    assert(device_added(w, dev, w1, dev_idx));
    let mut drv: Driver<KernelDriver> = Driver::empty(KernelDriver::Probe);
    drv.set_name("test_drv");
    drv.bus = BusType::Platform;
    drv.match_vendor = 0xFFFF;
    drv.match_device = 0xFFFF;
    let idx: Option<usize> = drivers::register_driver(&mut k.devices, drv);
    assert(driver_added(w1, drv, k.world(bytes@), idx));
    idx.is_some()
}

/// There is a process.
pub fn test_sched_init_state(k: &Kernel) -> (ok: bool)
    ensures
        ok == (search::count(
            scheduler::MAX_PROCESSES as nat,
            |i: int| k.tasks@.processes[i] is Some,
        ) >= 1),
{
    scheduler::process_count(&k.tasks) >= 1
}

/// There is a thread.
pub fn test_sched_thread_count(k: &Kernel) -> (ok: bool)
    ensures
        ok == (search::count(
            scheduler::MAX_THREADS as nat,
            |i: int| scheduler::alive(k.tasks@.threads[i]),
        ) >= 1),
{
    scheduler::thread_count(&k.tasks) >= 1
}

/// What `test_shim_kmalloc` leaves behind, and whether it passes: memory is
/// allocated, a byte in it written, and the memory freed.
pub open spec fn memory_written(m: Mem, m2: Mem, ok: bool) -> bool {
    let (w, addr) = linux_shim::allocated(m, 64, linux_shim::GFP_KERNEL);
    if addr == 0 {
        !ok && m2 == w
    } else {
        &&& ok
        &&& m2.bytes == w.bytes.update(addr, 0xABu8)
        &&& m2.frames == w.frames.release(addr / 4096)
    }
}

/// Memory that was allocated can be written and read.
pub fn test_shim_kmalloc(k: &mut Kernel, bytes: &mut [u8]) -> (ok: bool)
    requires
        old(k).wf(old(bytes)@),
    ensures
        final(k).wf(final(bytes)@),
        final(bytes)@.len() == old(bytes)@.len(),
        *final(k) == (Kernel { frames: final(k).frames, ..*old(k) }),
        memory_written(
            paging::mem(&old(k).frames, old(bytes)@),
            paging::mem(&final(k).frames, final(bytes)@),
            ok,
        ),
{
    let ghost m = paging::mem(&k.frames, bytes@);
    let addr: usize = linux_shim::kmalloc(&mut k.frames, bytes, 64, linux_shim::GFP_KERNEL);
    if addr == 0 {
        return false;
    }
    proof {
        reveal_with_fuel(linux_shim::frames_popped, 2);
        search::lemma_first(m.frames.total, |f: int| !m.frames.used[f]);
    }
    bytes[addr] = 0xAB;
    let val: u8 = bytes[addr];
    linux_shim::kfree(&mut k.frames, addr);
    val == 0xAB
}

/// A lock can be taken once until it is given up.
pub fn test_shim_spinlock() -> (ok: bool)
    ensures
        ok,
{
    let mut lock = SpinLock::new();
    if !lock.try_lock() {
        return false;
    }
    if lock.try_lock() {
        return false;
    }
    lock.unlock();
    lock.try_lock()
}

/// A counter counts up and down and wraps around.
pub fn test_shim_atomic_ops() -> (ok: bool)
    ensures
        ok,
{
    let mut counter = AtomicInt::new(41);
    if counter.inc() != 41 || counter.read() != 42 {
        return false;
    }
    if counter.sub(2) != 42 || counter.dec() != 40 || counter.read() != 39 {
        return false;
    }
    counter.set(i32::MAX);
    counter.add(1) == i32::MAX && counter.read() == i32::MIN
}

} // verus!
