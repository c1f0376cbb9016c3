//! The threads of the kernel: what each does in one round.
//!
//! A thread sleeps between its rounds, for the number of ticks that is given
//! here with it.

use vstd::prelude::*;
use vstd::string::*;
use crate::kernel::{Kernel, World, ASSUMED_MEMORY};
use crate::ktest::run;
use crate::ktest::{Diagnostics, Subsystem};
use crate::memory::paging;
use crate::memory::paging::Mem;
use crate::memory::phys;
use crate::memory::phys::FrameAllocator;
use crate::scheduler;
use crate::text;
use crate::vfs;
use crate::vfs::{InodeType, Tables, Vfs};

verus! {

/// Ticks between two checks of the subsystems: about 5 seconds.
pub const HEALTH_TICKS: u64 = 91;

/// Ticks between two reports: about 10 seconds.
pub const STATS_TICKS: u64 = 182;

/// Ticks between two looks for threads that have ended: about 2 seconds.
pub const REAPER_TICKS: u64 = 36;

/// Ticks of a second.
pub const TICKS_PER_SECOND: u64 = 18;

/// The directory of the report: "/tmp".
pub const STATS_DIR: [u8; 4] = [0x2F, 0x74, 0x6D, 0x70];

/// The name of the report: "kstats".
pub const STATS_NAME: [u8; 6] = [0x6B, 0x73, 0x74, 0x61, 0x74, 0x73];

/// The path of the report: "/tmp/kstats".
pub const STATS_PATH: [u8; 11] = [
    0x2F, 0x74, 0x6D, 0x70, 0x2F, 0x6B, 0x73, 0x74, 0x61, 0x74, 0x73,
];

/// Writes a number to a file in decimal digits.
pub fn write_usize_to_vfs(
    vfs: &mut Vfs,
    frames: &mut FrameAllocator,
    bytes: &mut [u8],
    fd: usize,
    val: u64,
)
    requires
        old(vfs).wf(),
        old(frames).wf(),
        paging::mem(old(frames), old(bytes)@).sane(),
        old(vfs)@.pages_in_ram(old(bytes)@.len() as int),
    ensures
        final(vfs).wf(),
        final(frames).wf(),
        paging::mem(final(frames), final(bytes)@).sane(),
        final(bytes)@.len() == old(bytes)@.len(),
        final(vfs)@.pages_in_ram(final(bytes)@.len() as int),
        ({
            let (t, m, _) = old(vfs)@.written_to(
                paging::mem(old(frames), old(bytes)@),
                fd as int,
                text::decimal(val as nat),
            );
            final(vfs)@ == t && paging::mem(final(frames), final(bytes)@) == m
        }),
{
    let d: Vec<u8> = text::digits(val);
    let _n: isize = vfs::write(vfs, frames, bytes, fd, d.as_slice());
}

/// Writes a text to a file.
fn write_text(
    vfs: &mut Vfs,
    frames: &mut FrameAllocator,
    bytes: &mut [u8],
    fd: usize,
    s: &str,
)
    requires
        old(vfs).wf(),
        old(frames).wf(),
        paging::mem(old(frames), old(bytes)@).sane(),
        old(vfs)@.pages_in_ram(old(bytes)@.len() as int),
    ensures
        final(vfs).wf(),
        final(frames).wf(),
        paging::mem(final(frames), final(bytes)@).sane(),
        final(bytes)@.len() == old(bytes)@.len(),
        final(vfs)@.pages_in_ram(final(bytes)@.len() as int),
        ({
            let (t, m, _) = old(vfs)@.written_to(
                paging::mem(old(frames), old(bytes)@),
                fd as int,
                s.spec_bytes(),
            );
            final(vfs)@ == t && paging::mem(final(frames), final(bytes)@) == m
        }),
{
    let _n: isize = vfs::write(vfs, frames, bytes, fd, s.as_bytes());
}

/// The tables and the memory once some pieces were written to a file, one after
/// the other.
pub open spec fn pieces_written(t: Tables, m: Mem, fd: int, pieces: Seq<Seq<u8>>) -> (Tables, Mem)
    decreases pieces.len(),
{
    if pieces.len() == 0 {
        (t, m)
    } else {
        let (t1, m1) = pieces_written(t, m, fd, pieces.drop_last());
        let (t2, m2, _) = t1.written_to(m1, fd, pieces.last());
        (t2, m2)
    }
}

/// The pieces of a report with the given numbers.
pub open spec fn pieces(uptime: nat, free: nat, total: nat, threads: nat, processes: nat) -> Seq<Seq<u8>> {
    seq![
        "uptime_s:".spec_bytes(),
        text::decimal(uptime),
        " mem:".spec_bytes(),
        text::decimal(free),
        "/".spec_bytes(),
        text::decimal(total),
        "KB thr:".spec_bytes(),
        text::decimal(threads),
        " proc:".spec_bytes(),
        text::decimal(processes),
    ]
}

/// The pieces of the report on a kernel: how many seconds it runs, free and all
/// memory, threads and processes.
pub open spec fn report(w: World) -> Seq<Seq<u8>> {
    pieces(
        (w.tasks.ticks / TICKS_PER_SECOND) as nat,
        w.mem.frames.free() * 4,
        w.mem.frames.total * 4,
        run::thread_total(w),
        run::process_total(w),
    )
}

/// What a round of the reporting thread leaves of the file system and the
/// memory: the report is written from the start of its file; where there is no
/// such file, it is made.
pub open spec fn reported(w: World, t2: Tables, m2: Mem) -> bool {
    match w.vfs.opened_at(STATS_PATH@, 0) {
        (t1, Some(fd)) => {
            let (tw, mw) = pieces_written(t1.sought(fd as int, 0), w.mem, fd as int, report(w));
            t2 == tw.closed_at(fd as int) && m2 == mw
        },
        (_, None) => exists|d: Option<usize>| #[trigger]
            vfs::created(
                w.vfs,
                w.mem,
                STATS_DIR@,
                STATS_NAME@,
                InodeType::File,
                t2,
                m2,
                d,
            ),
    }
}

/// One round of the reporting thread. See `reported`.
pub fn kthread_stats(k: &mut Kernel, bytes: &mut [u8])
    requires
        old(k).wf(old(bytes)@),
        old(k).vfs.next_ino < u64::MAX,
    ensures
        final(k).wf(final(bytes)@),
        final(bytes)@.len() == old(bytes)@.len(),
        *final(k) == (Kernel { frames: final(k).frames, vfs: final(k).vfs, ..*old(k) }),
        reported(
            old(k).world(old(bytes)@),
            final(k).vfs@,
            paging::mem(&final(k).frames, final(bytes)@),
        ),
{
    let ghost w = k.world(bytes@);
    let uptime_secs: u64 = scheduler::ticks(&k.tasks) / TICKS_PER_SECOND;
    let free_kb: u64 = phys::free_memory_kb(&k.frames) as u64;
    let total_kb: u64 = phys::total_memory_kb(&k.frames) as u64;
    let threads: u64 = scheduler::thread_count(&k.tasks) as u64;
    let processes: u64 = scheduler::process_count(&k.tasks) as u64;
    let path: [u8; 11] = STATS_PATH;
    match vfs::open(&mut k.vfs, &path, 0) {
        Some(fd) => {
            vfs::seek(&mut k.vfs, fd, 0);
            write_report(
                &mut k.vfs,
                &mut k.frames,
                bytes,
                fd,
                uptime_secs,
                free_kb,
                total_kb,
                threads,
                processes,
            );
            vfs::close(&mut k.vfs, fd);
        },
        None => {
            let dir: [u8; 4] = STATS_DIR;
            let name: [u8; 6] = STATS_NAME;
            let _d: Option<usize> = vfs::create(
                &mut k.vfs,
                &mut k.frames,
                bytes,
                &dir,
                &name,
                InodeType::File,
            );
            assert(vfs::created(
                w.vfs,
                w.mem,
                STATS_DIR@,
                STATS_NAME@,
                InodeType::File,
                k.vfs@,
                paging::mem(&k.frames, bytes@),
                _d,
            ));
        },
    }
}

/// Writes a report piece by piece.
fn write_report(
    vfs: &mut Vfs,
    frames: &mut FrameAllocator,
    bytes: &mut [u8],
    fd: usize,
    uptime: u64,
    free: u64,
    total: u64,
    threads: u64,
    processes: u64,
)
    requires
        old(vfs).wf(),
        old(frames).wf(),
        paging::mem(old(frames), old(bytes)@).sane(),
        old(vfs)@.pages_in_ram(old(bytes)@.len() as int),
    ensures
        final(vfs).wf(),
        final(frames).wf(),
        paging::mem(final(frames), final(bytes)@).sane(),
        final(bytes)@.len() == old(bytes)@.len(),
        final(vfs)@.pages_in_ram(final(bytes)@.len() as int),
        (final(vfs)@, paging::mem(final(frames), final(bytes)@)) == pieces_written(
            old(vfs)@,
            paging::mem(old(frames), old(bytes)@),
            fd as int,
            pieces(
                uptime as nat,
                free as nat,
                total as nat,
                threads as nat,
                processes as nat,
            ),
        ),
{
    let ghost t = vfs@;
    let ghost m = paging::mem(frames, bytes@);
    let ghost p = pieces(
        uptime as nat,
        free as nat,
        total as nat,
        threads as nat,
        processes as nat,
    );
    write_text(vfs, frames, bytes, fd, "uptime_s:");
    proof { lemma_pieces(t, m, fd as int, p, 1); }
    write_usize_to_vfs(vfs, frames, bytes, fd, uptime);
    proof { lemma_pieces(t, m, fd as int, p, 2); }
    write_text(vfs, frames, bytes, fd, " mem:");
    proof { lemma_pieces(t, m, fd as int, p, 3); }
    write_usize_to_vfs(vfs, frames, bytes, fd, free);
    proof { lemma_pieces(t, m, fd as int, p, 4); }
    write_text(vfs, frames, bytes, fd, "/");
    proof { lemma_pieces(t, m, fd as int, p, 5); }
    write_usize_to_vfs(vfs, frames, bytes, fd, total);
    proof { lemma_pieces(t, m, fd as int, p, 6); }
    write_text(vfs, frames, bytes, fd, "KB thr:");
    proof { lemma_pieces(t, m, fd as int, p, 7); }
    write_usize_to_vfs(vfs, frames, bytes, fd, threads);
    proof { lemma_pieces(t, m, fd as int, p, 8); }
    write_text(vfs, frames, bytes, fd, " proc:");
    proof { lemma_pieces(t, m, fd as int, p, 9); }
    write_usize_to_vfs(vfs, frames, bytes, fd, processes);
    proof {
        lemma_pieces(t, m, fd as int, p, 10);
        assert(p.subrange(0, 10) =~= p);
    }
}

/// One piece more is one write more.
proof fn lemma_pieces(t: Tables, m: Mem, fd: int, p: Seq<Seq<u8>>, n: int)
    requires
        0 < n <= p.len(),
    ensures
        ({
            let (t1, m1) = pieces_written(t, m, fd, p.subrange(0, n - 1));
            let (t2, m2, _) = t1.written_to(m1, fd, p[n - 1]);
            pieces_written(t, m, fd, p.subrange(0, n)) == (t2, m2)
        }),
        n == 1 ==> pieces_written(t, m, fd, p.subrange(0, 0)) == (t, m),
{
    assert(p.subrange(0, n).drop_last() =~= p.subrange(0, n - 1));
}

/// One round of the thread that watches the subsystems: those that fail are
/// noted and restored. Returns how many failed. `kernel_end` is where the kernel
/// ends in the RAM.
pub fn kthread_health_monitor(
    d: &mut Diagnostics,
    k: &mut Kernel,
    bytes: &[u8],
    kernel_end: usize,
) -> (r: usize)
    requires
        old(k).wf(bytes@),
        bytes@.len() >= ASSUMED_MEMORY,
        kernel_end <= phys::MAX_FRAMES * 4096,
    ensures
        final(k).wf(bytes@),
        final(d).log == old(d).log,
        run::watched(
            old(d)@,
            old(k).world(bytes@),
            kernel_end as int,
            final(d)@,
            final(k).world(bytes@),
        ),
        r == run::failed_checks(
            run::works(Subsystem::Memory, old(k).world(bytes@)),
            run::works(Subsystem::Vfs, old(k).world(bytes@)),
            run::works(Subsystem::Scheduler, old(k).world(bytes@)),
        ),
{
    run::watch(d, k, bytes, kernel_end)
}

/// One round of the reaping thread: the threads that have ended go, and their
/// stacks are free again.
pub fn kthread_reaper(k: &mut Kernel, bytes: &[u8])
    requires
        old(k).wf(bytes@),
    ensures
        final(k).wf(bytes@),
        *final(k) == (Kernel { tasks: final(k).tasks, frames: final(k).frames, ..*old(k) }),
        (final(k).tasks@, final(k).frames@) == old(k).tasks@.reaped(
            old(k).frames@,
            scheduler::MAX_THREADS as int,
        ),
{
    proof {
        lemma_reaping_keeps_total(
            k.tasks@,
            k.frames@,
            scheduler::MAX_THREADS as int,
        );
    }
    scheduler::reap_dead_threads(&mut k.tasks, &mut k.frames);
}

/// Reaping threads leaves the number of frames as it is.
proof fn lemma_reaping_keeps_total(v: scheduler::Tasks, f: phys::Frames, n: int)
    requires
        f.used.len() == phys::MAX_FRAMES,
    ensures
        v.reaped(f, n).1.total == f.total,
        v.reaped(f, n).1.used.len() == f.used.len(),
    decreases n,
{
    if n > 0 {
        lemma_reaping_keeps_total(v, f, n - 1);
    }
}

} // verus!
