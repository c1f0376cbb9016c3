//! The threads of the kernel: what is reported, and what is cleared away.

use vstd::prelude::*;
use vstd::string::*;
use crate::kernel::{Kernel, World};
use crate::kthread;
use crate::memory::paging;
use crate::memory::paging::space;
use crate::memory::paging::Mem;
use crate::memory::phys::FrameAllocator;
use crate::text;
use crate::vfs;
use crate::vfs::{File, InodeType, Tables, Vfs};
use super::console::{is_number, lemma_is_number};
use super::diagnostics::{in_table, lemma_living, living};
use super::files;
use super::memory::{clear_frames, lemma_clear};
use super::threads;

verus! {

/// The pieces of a report: how many seconds the kernel runs, at 18 ticks a second, how many
/// KiB of memory are free and how many there are, how many threads have not ended, and how
/// many processes there are.
pub open spec fn is_report(p: Seq<Seq<u8>>, w: World) -> bool {
    &&& p.len() == 10
    &&& p[0] == "uptime_s:".spec_bytes()
    &&& is_number(p[1], w.tasks.ticks as int / 18)
    &&& p[2] == " mem:".spec_bytes()
    &&& is_number(p[3], 4 * clear_frames(w.mem.frames.used, w.mem.frames.total) as int)
    &&& p[4] == "/".spec_bytes()
    &&& is_number(p[5], 4 * w.mem.frames.total as int)
    &&& p[6] == "KB thr:".spec_bytes()
    &&& is_number(p[7], living(w.tasks, 64) as int)
    &&& p[8] == " proc:".spec_bytes()
    &&& is_number(p[9], in_table(w.tasks, 16) as int)
}

/// Some pieces are written to a file, one behind the other: `ts` and `ms` are the tables
/// and the memory before and after each. See `files::put`.
pub open spec fn all_put(p: Seq<Seq<u8>>, fd: int, ts: Seq<Tables>, ms: Seq<Mem>) -> bool {
    &&& ts.len() == p.len() + 1
    &&& ms.len() == p.len() + 1
    &&& forall|k: int| 0 <= k < p.len() ==> piece_put(#[trigger] p[k], fd, ts, ms, k)
}

/// Piece `k` is written to a file.
pub open spec fn piece_put(
    piece: Seq<u8>,
    fd: int,
    ts: Seq<Tables>,
    ms: Seq<Mem>,
    k: int,
) -> bool {
    exists|n: int| #[trigger] files::put(ts[k], ms[k], fd, piece, ts[k + 1], ms[k + 1], n)
}

proof fn lemma_write_keeps(t: Tables, m: Mem, fd: int, data: Seq<u8>)
    requires
        t.wf(),
        m.sane(),
        t.pages_in_ram(m.bytes.len() as int),
    ensures
        ({
            let (t2, m2, _) = t.written_to(m, fd, data);
            t2.wf() && m2.sane() && t2.pages_in_ram(m2.bytes.len() as int) && m2.bytes.len()
                == m.bytes.len()
        }),
{
    let (t2, m2, _) = t.written_to(m, fd, data);
    files::lemma_put(t, m, fd, data);
    if m.frames.lowest_free() is Some {
        space::lemma_fresh(m);
    }
    if files::is_open(t, fd) {
        let i = t.files[fd].inode_idx as int;
        assert(t.inodes[i].data_size <= 4096);
        assert forall|j: int| 0 <= j < 256 implies (#[trigger] t2.inodes[j]).data_size <= 4096 && (
        t2.inodes[j].data_page != 0 ==> t2.inodes[j].data_page + 4096 <= m2.bytes.len()) by {
            assert(t.inodes[j].data_size <= 4096);
        }
    } else {
        assert(t.opened(fd) is None);
    }
}

spec fn tables_after(t: Tables, m: Mem, fd: int, p: Seq<Seq<u8>>, k: int) -> Tables {
    kthread::pieces_written(t, m, fd, p.subrange(0, k)).0
}

spec fn memory_after(t: Tables, m: Mem, fd: int, p: Seq<Seq<u8>>, k: int) -> Mem {
    kthread::pieces_written(t, m, fd, p.subrange(0, k)).1
}

proof fn lemma_all_put(t: Tables, m: Mem, fd: int, p: Seq<Seq<u8>>, k: int)
    requires
        t.wf(),
        m.sane(),
        t.pages_in_ram(m.bytes.len() as int),
        0 <= k <= p.len(),
    ensures
        ({
            let t2 = tables_after(t, m, fd, p, k);
            let m2 = memory_after(t, m, fd, p, k);
            &&& t2.wf() && m2.sane() && t2.pages_in_ram(m2.bytes.len() as int)
            &&& k > 0 ==> exists|n: int| #[trigger]
                files::put(
                    tables_after(t, m, fd, p, k - 1),
                    memory_after(t, m, fd, p, k - 1),
                    fd,
                    p[k - 1],
                    t2,
                    m2,
                    n,
                )
        }),
    decreases k,
{
    if k > 0 {
        lemma_all_put(t, m, fd, p, k - 1);
        let t1 = tables_after(t, m, fd, p, k - 1);
        let m1 = memory_after(t, m, fd, p, k - 1);
        let q = p.subrange(0, k);
        assert(q.drop_last() =~= p.subrange(0, k - 1));
        assert(q.last() == p[k - 1]);
        files::lemma_put(t1, m1, fd, p[k - 1]);
        lemma_write_keeps(t1, m1, fd, p[k - 1]);
        let (t2, m2, n) = t1.written_to(m1, fd, p[k - 1]);
        assert(files::put(t1, m1, fd, p[k - 1], t2, m2, n as int));
    }
}

/// From `t` to `u` a file is closed, and nothing else changes.
pub open spec fn only_closed(t: Tables, u: Tables, fd: int) -> bool {
    &&& u == (Tables { files: u.files, ..t })
    &&& u.files == t.files.update(fd, File { active: false, ..t.files[fd] })
}

/// The name of the report: "kstats".
pub open spec fn kstats() -> Seq<u8> {
    seq![0x6Bu8, 0x73, 0x74, 0x61, 0x74, 0x73]
}

/// A report is written to "/tmp/kstats": the file is opened, the pieces of the report are
/// put into it from its start on, and it is closed.
pub open spec fn report_written(
    w: World,
    d: Option<usize>,
    t2: Tables,
    m2: Mem,
    t1: Tables,
    fd: usize,
    p: Seq<Seq<u8>>,
    ts: Seq<Tables>,
    ms: Seq<Mem>,
) -> bool {
    &&& files::opens(w.vfs, d, 0, t1, Some(fd))
    &&& is_report(p, w)
    &&& all_put(p, fd as int, ts, ms)
    &&& ts[0] == t1
    &&& ms[0] == w.mem
    &&& only_closed(ts[10], t2, fd as int)
    &&& m2 == ms[10]
}

/// The reporting thread writes its report to "/tmp/kstats" if that can be opened, see
/// `report_written`, and makes the file otherwise.
pub proof fn law_report_tells_of_the_kernel(
    k: &mut Kernel,
    bytes: &mut [u8],
    before: &Vfs,
    path: &[u8],
    dir: &[u8],
    d: Option<usize>,
    up: Option<usize>,
)
    requires
        old(k).wf(old(bytes)@),
        old(k).vfs.next_ino < u64::MAX,
        *before == old(k).vfs,
        path@ == seq![0x2Fu8, 0x74, 0x6D, 0x70, 0x2F, 0x6B, 0x73, 0x74, 0x61, 0x74, 0x73],
        dir@ == seq![0x2Fu8, 0x74, 0x6D, 0x70],
        call_ensures(vfs::path_lookup, (before, path), d),
        call_ensures(vfs::path_lookup, (before, dir), up),
        call_ensures(kthread::kthread_stats, (k, bytes), ()),
    ensures
        ({
            let w = old(k).world(old(bytes)@);
            let w2 = final(k).world(final(bytes)@);
            &&& w2 == (World { vfs: w2.vfs, mem: w2.mem, ..w })
            &&& {
                ||| exists|
                    t1: Tables,
                    fd: usize,
                    p: Seq<Seq<u8>>,
                    ts: Seq<Tables>,
                    ms: Seq<Mem>,
                | #[trigger]
                    report_written(w, d, w2.vfs, w2.mem, t1, fd, p, ts, ms)
                ||| files::opens(w.vfs, d, 0, w.vfs, None) && exists|e: Option<usize>| #[trigger]
                    files::makes(
                        w.vfs,
                        w.mem,
                        up,
                        kstats(),
                        InodeType::File,
                        w2.vfs,
                        w2.mem,
                        e,
                    )
            }
        }),
{
    let w = old(k).world(old(bytes)@);
    let w2 = final(k).world(final(bytes)@);
    assert(kthread::STATS_PATH@ =~= path@);
    assert(kthread::STATS_DIR@ =~= dir@);
    assert(kthread::STATS_NAME@ =~= kstats());
    assert(kthread::reported(w, w2.vfs, w2.mem));
    files::lemma_opens(w.vfs, path@, 0);
    let (t1, r) = w.vfs.opened_at(path@, 0);
    match r {
        Some(fd) => {
            let p = kthread::report(w);
            lemma_report(w);
            let t0 = t1.sought(fd as int, 0);
            assert(t0.files =~= t1.files);
            assert(t0 == t1);
            assert(t1.wf() && t1.pages_in_ram(w.mem.bytes.len() as int));
            let ts = Seq::new(11, |k: int| tables_after(t1, w.mem, fd as int, p, k));
            let ms = Seq::new(11, |k: int| memory_after(t1, w.mem, fd as int, p, k));
            assert forall|k: int| 0 <= k < p.len() implies piece_put(
                #[trigger] p[k],
                fd as int,
                ts,
                ms,
                k,
            ) by {
                lemma_all_put(t1, w.mem, fd as int, p, k + 1);
                let n = choose|n: int| #[trigger]
                    files::put(
                        tables_after(t1, w.mem, fd as int, p, k),
                        memory_after(t1, w.mem, fd as int, p, k),
                        fd as int,
                        p[k],
                        tables_after(t1, w.mem, fd as int, p, k + 1),
                        memory_after(t1, w.mem, fd as int, p, k + 1),
                        n,
                    );
                assert(files::put(ts[k], ms[k], fd as int, p[k], ts[k + 1], ms[k + 1], n));
            }
            assert(p.subrange(0, 10) =~= p);
            assert(p.subrange(0, 0) =~= Seq::<Seq<u8>>::empty());
            assert(report_written(w, d, w2.vfs, w2.mem, t1, fd, p, ts, ms));
        },
        None => {
            let e = choose|e: Option<usize>| #[trigger]
                vfs::created(
                    w.vfs,
                    w.mem,
                    kthread::STATS_DIR@,
                    kthread::STATS_NAME@,
                    InodeType::File,
                    w2.vfs,
                    w2.mem,
                    e,
                );
            files::lemma_makes(
                w.vfs,
                w.mem,
                dir@,
                kthread::STATS_NAME@,
                InodeType::File,
                w2.vfs,
                w2.mem,
                e,
            );
        },
    }
}

proof fn lemma_report(w: World)
    ensures
        is_report(kthread::report(w), w),
{
    lemma_clear(w.mem.frames, w.mem.frames.total);
    lemma_living(w.tasks, 64);
    lemma_living(w.tasks, 16);
    lemma_is_number((w.tasks.ticks / 18) as nat);
    lemma_is_number(w.mem.frames.free() * 4);
    lemma_is_number(w.mem.frames.total * 4);
    lemma_is_number(living(w.tasks, 64));
    lemma_is_number(in_table(w.tasks, 16));
}

/// A number is put into a file in its decimal digits. See `files::put`.
pub proof fn law_number_is_put_into_the_file(
    v: &mut Vfs,
    frames: &mut FrameAllocator,
    bytes: &mut [u8],
    fd: usize,
    n: u64,
)
    requires
        old(v).wf(),
        paging::mem(old(frames), old(bytes)@).sane(),
        old(v)@.pages_in_ram(old(bytes)@.len() as int),
        call_ensures(kthread::write_usize_to_vfs, (v, frames, bytes, fd, n), ()),
    ensures
        exists|s: Seq<u8>, r: int|
            #[trigger] is_number(s, n as int) && #[trigger] files::put(
                old(v)@,
                paging::mem(old(frames), old(bytes)@),
                fd as int,
                s,
                final(v)@,
                paging::mem(final(frames), final(bytes)@),
                r,
            ),
{
    let s = text::decimal(n as nat);
    let m = paging::mem(old(frames), old(bytes)@);
    lemma_is_number(n as nat);
    files::lemma_put(old(v)@, m, fd as int, s);
    let (t2, m2, r) = old(v)@.written_to(m, fd as int, s);
    assert(files::put(old(v)@, m, fd as int, s, t2, m2, r as int));
}

/// The reaping thread takes the threads that have ended out of their slots and gives back
/// the frames of their stacks; nothing else changes.
pub proof fn law_reaper_takes_the_dead_alone(k: &mut Kernel, bytes: &[u8])
    requires
        old(k).wf(bytes@),
        call_ensures(kthread::kthread_reaper, (k, bytes), ()),
    ensures
        forall|i: int|
            0 <= i < 64 ==> #[trigger] final(k).tasks@.threads[i] == (if threads::gone(
                old(k).tasks@,
                i,
            ) {
                None
            } else {
                old(k).tasks@.threads[i]
            }),
        forall|f: int|
            0 <= f < 131_072 ==> #[trigger] final(k).frames@.used[f] == (old(k).frames@.used[f]
                && !threads::of_gone_stack(old(k).tasks@, 64, f)),
        *final(k) == (Kernel { tasks: final(k).tasks, frames: final(k).frames, ..*old(k) }),
{
    let a = old(k).tasks@;
    assert((final(k).tasks@, final(k).frames@) == a.reaped(old(k).frames@, 64));
    threads::lemma_reaping(a, old(k).frames@, 64);
}

} // verus!
