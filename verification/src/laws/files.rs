//! Files: what a path leads to, what a read gives, what a write leaves behind.

use vstd::prelude::*;
use crate::memory::paging;
use crate::memory::paging::Mem;
use crate::memory::phys::{FrameAllocator, Frames};
use crate::memory::ram;
use crate::search;
use crate::vfs;
use crate::vfs::{Backend, File, FileOps, Inode, InodeOps, InodeType, Tables, Vfs};

verus! {

/// Descriptor `fd` is open, and its inode in use.
pub open spec fn is_open(t: Tables, fd: int) -> bool {
    &&& 0 <= fd < 128
    &&& t.files[fd].active
    &&& t.files[fd].inode_idx < 256
    &&& t.inodes[t.files[fd].inode_idx as int].active
}

/// The inode behind a descriptor.
pub open spec fn inode_behind(t: Tables, fd: int) -> Inode {
    t.inodes[t.files[fd].inode_idx as int]
}

/// How many bytes lie between the position of a descriptor and the end of its file.
pub open spec fn bytes_left(t: Tables, fd: int) -> int {
    let n = inode_behind(t, fd);
    if n.file_ops.read == Backend::Ramfs && n.data_page != 0 && t.files[fd].offset < n.data_size {
        n.data_size - t.files[fd].offset
    } else {
        0
    }
}

/// The smaller of two numbers.
pub open spec fn smaller(a: int, b: int) -> int {
    if a < b {
        a
    } else {
        b
    }
}

/// `b` is `a` but for the position of descriptor `fd`, which has moved on by `n`.
pub open spec fn moved_on(a: Tables, b: Tables, fd: int, n: int) -> bool {
    &&& b.files.len() == 128
    &&& b.files[fd].offset == a.files[fd].offset + n
    &&& b.files[fd].inode_idx == a.files[fd].inode_idx
    &&& b.files[fd].mode == a.files[fd].mode
    &&& b.files[fd].active == a.files[fd].active
    &&& forall|k: int| 0 <= k < 128 && k != fd ==> #[trigger] b.files[k] == a.files[k]
}

/// What a read of at most `n` bytes from descriptor `fd` into `buf` leaves behind, and
/// the number `r` of bytes: as many as are asked for and the file still has, those that
/// stand in the file from its position on. The position moves behind them; the rest of
/// the buffer and all else stays. A descriptor that is not open gives -1.
pub open spec fn got(
    t: Tables,
    bytes: Seq<u8>,
    fd: int,
    n: int,
    buf: Seq<u8>,
    t2: Tables,
    buf2: Seq<u8>,
    r: int,
) -> bool {
    &&& buf2.len() == buf.len()
    &&& !is_open(t, fd) ==> r == -1 && t2 == t && buf2 == buf
    &&& is_open(t, fd) ==> {
        let at = inode_behind(t, fd).data_page + t.files[fd].offset;
        &&& r == smaller(n, bytes_left(t, fd))
        &&& forall|k: int| 0 <= k < r ==> #[trigger] buf2[k] == bytes[at + k]
        &&& forall|k: int| r <= k < buf.len() ==> #[trigger] buf2[k] == buf[k]
        &&& moved_on(t, t2, fd, r)
        &&& t2 == (Tables { files: t2.files, ..t })
    }
}

/// What the file system's own terms say of a read is what a read is for.
pub proof fn lemma_got(t: Tables, bytes: Seq<u8>, fd: int, n: int, buf: Seq<u8>)
    requires
        t.wf(),
        t.pages_in_ram(bytes.len() as int),
        is_open(t, fd),
        0 <= n <= buf.len(),
    ensures
        ({
            let part = t.readable(paging::bare(bytes), fd, n);
            got(
                t,
                bytes,
                fd,
                n,
                buf,
                t.advanced(fd, part.len() as int),
                ram::patched(buf, 0, part),
                part.len() as int,
            ) && t.opened(fd) is Some && part.len() <= 4096
        }),
{
    let i = t.files[fd].inode_idx as int;
    assert(t.inodes[i].data_size <= 4096);
    let part = t.readable(paging::bare(bytes), fd, n);
    let c = t.content(paging::bare(bytes), i);
    if t.inodes[i].data_page != 0 {
        assert(c.len() == t.inodes[i].data_size);
    }
}

/// A read gives the bytes of the file. See `got`.
pub proof fn law_read_gives_the_bytes_of_the_file(
    v: &mut Vfs,
    bytes: &[u8],
    fd: usize,
    buf: &mut [u8],
    r: isize,
)
    requires
        old(v).wf(),
        old(v)@.pages_in_ram(bytes@.len() as int),
        call_ensures(vfs::read, (v, bytes, fd, buf), r),
    ensures
        got(
            old(v)@,
            bytes@,
            fd as int,
            old(buf)@.len() as int,
            old(buf)@,
            final(v)@,
            final(buf)@,
            r as int,
        ),
{
    let t = old(v)@;
    if is_open(t, fd as int) {
        lemma_got(t, bytes@, fd as int, old(buf)@.len() as int, old(buf)@);
    } else {
        assert(t.opened(fd as int) is None);
    }
}

/// No frame of the RAM is free.
pub open spec fn no_frame_free(a: Frames) -> bool {
    forall|f: int| 0 <= f < a.total ==> #[trigger] a.used[f]
}

/// `p` is the address of the lowest free frame.
pub open spec fn is_lowest_free(a: Frames, p: int) -> bool {
    &&& p % 4096 == 0
    &&& 0 <= p / 4096 < a.total
    &&& !a.used[p / 4096]
    &&& forall|f: int| 0 <= f < p / 4096 ==> #[trigger] a.used[f]
}

/// The allocator's own terms say which frame is the lowest free one.
pub proof fn lemma_lowest(a: Frames)
    requires
        a.total <= 131_072,
    ensures
        match a.lowest_free() {
            Some(f) => !no_frame_free(a) && is_lowest_free(a, f * 4096),
            None => no_frame_free(a),
        },
{
    let p = |f: int| !a.used[f];
    search::lemma_first(a.total, p);
    match a.lowest_free() {
        Some(f) => {
            assert(p(f as int));
            assert forall|k: int| 0 <= k < f implies #[trigger] a.used[k] by {
                assert(!p(k));
            }
            assert(!a.used[f as int]);
        },
        None => {
            assert forall|k: int| 0 <= k < a.total implies #[trigger] a.used[k] by {
                assert(!p(k));
            }
        },
    }
}

/// How many bytes fit into a page from `offset` on.
pub open spec fn page_room(offset: int) -> int {
    if offset < 4096 {
        4096 - offset
    } else {
        0
    }
}

/// `b` is inode `a` once it reaches up to `end`, with its data in the page at `page`.
pub open spec fn reaches(a: Inode, b: Inode, page: int, end: int) -> bool {
    &&& b == (Inode { data_page: b.data_page, data_size: b.data_size, size: b.size, ..a })
    &&& b.data_page == page
    &&& b.data_size == (if end > a.data_size {
        end
    } else {
        a.data_size as int
    })
    &&& end > a.data_size ==> b.size == end
    &&& end <= a.data_size ==> b.size == a.size
}

/// What a write of `data` to descriptor `fd` leaves behind, and its result `r`: the
/// data, as much as fits into the page of the file, stands at the position of the
/// descriptor, which moves behind it; the file reaches at least up to there. No other
/// byte of a file that has its page changes, and no other file. A file without a page
/// gets the lowest free frame, cleared; without one the write fails, as it does on a
/// descriptor that is not open.
pub open spec fn put(
    t: Tables,
    m: Mem,
    fd: int,
    data: Seq<u8>,
    t2: Tables,
    m2: Mem,
    r: int,
) -> bool {
    &&& m2.bytes.len() == m.bytes.len()
    &&& t2 == (Tables { files: t2.files, inodes: t2.inodes, ..t })
    &&& !is_open(t, fd) ==> r == -1 && t2 == t && m2 == m
    &&& is_open(t, fd) && inode_behind(t, fd).file_ops.write == Backend::Null ==> r == 0 && t2 == t
        && m2 == m
    &&& is_open(t, fd) && inode_behind(t, fd).file_ops.write == Backend::Ramfs ==> {
        let i = t.files[fd].inode_idx as int;
        let a = t.inodes[i];
        let o = t.files[fd].offset as int;
        let page = t2.inodes[i].data_page as int;
        if a.data_page == 0 && no_frame_free(m.frames) {
            r == -1 && t2 == t && m2 == m
        } else {
            &&& r == smaller(data.len() as int, page_room(o))
            &&& a.data_page != 0 ==> page == a.data_page && m2.frames == m.frames
            &&& a.data_page == 0 ==> is_lowest_free(m.frames, page) && m2.frames.used
                == m.frames.used.update(page / 4096, true)
            &&& forall|k: int| 0 <= k < r ==> #[trigger] m2.bytes[page + o + k] == data[k]
            &&& forall|k: int|
                0 <= k < m.bytes.len() && !(page + o <= k < page + o + r)
                    ==> #[trigger] m2.bytes[k] == (if a.data_page == 0 && page <= k < page + 4096 {
                    0
                } else {
                    m.bytes[k]
                })
            &&& o < 4096 ==> reaches(a, t2.inodes[i], page, o + r)
            &&& o >= 4096 ==> reaches(a, t2.inodes[i], page, 0)
            &&& forall|k: int| 0 <= k < 256 && k != i ==> #[trigger] t2.inodes[k] == t.inodes[k]
            &&& moved_on(t, t2, fd, r)
        }
    }
}

/// What the file system's own terms say of a write is what a write is for.
pub proof fn lemma_put(t: Tables, m: Mem, fd: int, data: Seq<u8>)
    requires
        t.wf(),
        m.sane(),
        t.pages_in_ram(m.bytes.len() as int),
    ensures
        ({
            let (t2, m2, r) = t.written_to(m, fd, data);
            put(t, m, fd, data, t2, m2, r as int) && r <= 4096
        }),
{
    if is_open(t, fd) {
        let i = t.files[fd].inode_idx as int;
        assert(t.opened(fd) is Some);
        assert(t.inodes[i].data_size <= 4096);
        lemma_lowest(m.frames);
    } else {
        assert(t.opened(fd) is None);
    }
}

/// A write puts the bytes into the file. See `put`.
pub proof fn law_write_puts_the_bytes_into_the_file(
    v: &mut Vfs,
    frames: &mut FrameAllocator,
    bytes: &mut [u8],
    fd: usize,
    data: &[u8],
    r: isize,
)
    requires
        old(v).wf(),
        old(frames).wf(),
        paging::mem(old(frames), old(bytes)@).sane(),
        old(v)@.pages_in_ram(old(bytes)@.len() as int),
        call_ensures(vfs::write, (v, frames, bytes, fd, data), r),
    ensures
        put(
            old(v)@,
            paging::mem(old(frames), old(bytes)@),
            fd as int,
            data@,
            final(v)@,
            paging::mem(final(frames), final(bytes)@),
            r as int,
        ),
{
    lemma_put(old(v)@, paging::mem(old(frames), old(bytes)@), fd as int, data@);
}

/// Entry `i` is in directory `d` under `name`.
pub open spec fn entry_is(t: Tables, i: int, d: int, name: Seq<u8>) -> bool {
    &&& t.dentries[i].active
    &&& t.dentries[i].parent_idx == d
    &&& t.dentries[i].name_len == name.len()
    &&& forall|k: int| 0 <= k < name.len() ==> #[trigger] t.dentries[i].name@[k] == name[k]
}

/// `r` is the first entry of directory `d` under `name`, if there is one.
pub open spec fn first_entry(t: Tables, d: int, name: Seq<u8>, r: Option<usize>) -> bool {
    match r {
        Some(i) => {
            &&& i < 256
            &&& entry_is(t, i as int, d, name)
            &&& forall|j: int| 0 <= j < i ==> !#[trigger] entry_is(t, j, d, name)
        },
        None => forall|j: int| 0 <= j < 256 ==> !#[trigger] entry_is(t, j, d, name),
    }
}

pub proof fn lemma_child(t: Tables, d: int, name: Seq<u8>)
    requires
        t.wf(),
    ensures
        first_entry(t, d, name, t.child(d, name)),
{
    let p = |i: int| t.is_child(i, d, name);
    search::lemma_first(256, p);
    assert forall|i: int| 0 <= i < 256 implies #[trigger] entry_is(t, i, d, name) == p(i) by {
        assert(t.dentries[i].name_len <= 64);
        if entry_is(t, i, d, name) {
            assert(t.dentries[i].label() =~= name);
        }
        if p(i) {
            assert forall|k: int| 0 <= k < name.len() implies #[trigger] t.dentries[i].name@[k]
                == name[k] by {
                assert(t.dentries[i].label()[k] == name[k]);
            }
        }
    }
}

/// A path with a slash and a name behind it leads to the entry of that name in the
/// directory that the path leads to: the first one that has exactly this name.
/// Where the path leads nowhere, so does the longer one.
pub proof fn law_path_goes_down_name_by_name(
    v: &Vfs,
    path: &[u8],
    name: Seq<u8>,
    longer: &[u8],
    r: Option<usize>,
    r2: Option<usize>,
)
    requires
        v.wf(),
        path@.len() > 0,
        name.len() > 0,
        forall|k: int| 0 <= k < name.len() ==> name[k] != 0x2F,
        longer@ == path@ + seq![0x2Fu8] + name,
        call_ensures(vfs::path_lookup, (v, path), r),
        call_ensures(vfs::path_lookup, (v, longer), r2),
    ensures
        match r {
            Some(d) => first_entry(v@, d as int, name, r2),
            None => r2 is None,
        },
{
    vfs::laws::law_path_leads_into_directories(v@, path@, name);
    assert(longer@ =~= vfs::laws::joined(path@, name));
    match r {
        Some(d) => lemma_child(v@, d as int, name),
        None => {},
    }
}

/// A slash is the root, and a slash and a name lead to the entry of that name in the
/// root. An empty path leads nowhere.
pub proof fn law_paths_start_at_the_root(
    v: &Vfs,
    path: &[u8],
    name: Seq<u8>,
    r: Option<usize>,
)
    requires
        v.wf(),
        name.len() > 0,
        forall|k: int| 0 <= k < name.len() ==> name[k] != 0x2F,
        call_ensures(vfs::path_lookup, (v, path), r),
    ensures
        path@.len() == 0 ==> r is None,
        path@ == seq![0x2Fu8] ==> r == Some(0usize),
        path@ == seq![0x2Fu8] + name ==> first_entry(v@, 0, name, r),
{
    if path@ == seq![0x2Fu8] {
        assert(path@.subrange(1, 1) =~= Seq::<u8>::empty());
        assert(vfs::components(path@) == vfs::components(Seq::<u8>::empty()));
    }
    if path@ == seq![0x2Fu8] + name {
        vfs::laws::law_path_leads_into_directories(v@, Seq::empty(), name);
        assert(vfs::laws::joined(Seq::empty(), name) =~= path@);
        assert(vfs::components(Seq::<u8>::empty()).len() == 0);
        lemma_child(v@, 0, name);
    }
}

/// Slashes in front of a path and behind it change nothing about where it leads.
pub proof fn law_outer_slashes_change_nothing(
    v: &Vfs,
    path: &[u8],
    before: &[u8],
    behind: &[u8],
    r: Option<usize>,
    r1: Option<usize>,
    r2: Option<usize>,
)
    requires
        v.wf(),
        path@.len() > 0,
        before@ == seq![0x2Fu8] + path@,
        behind@ == path@ + seq![0x2Fu8],
        call_ensures(vfs::path_lookup, (v, path), r),
        call_ensures(vfs::path_lookup, (v, before), r1),
        call_ensures(vfs::path_lookup, (v, behind), r2),
    ensures
        r1 == r,
        r2 == r,
{
    assert(before@.subrange(1, before@.len() as int) =~= path@);
    vfs::laws::law_trailing_slash_changes_nothing(path@);
    assert(behind@ =~= path@.push(vfs::SLASH));
}

/// What opening a path that leads to entry `d` leaves behind, and the descriptor: the
/// first free one, for the inode of the entry, at its start. It succeeds exactly if
/// there is such an entry with an inode in use and a descriptor is free. No other
/// descriptor changes, and nothing else.
pub open spec fn opens(
    t: Tables,
    d: Option<usize>,
    mode: u32,
    t2: Tables,
    r: Option<usize>,
) -> bool {
    &&& r is Some <==> {
        &&& d is Some
        &&& t.dentries[d->0 as int].active
        &&& t.dentries[d->0 as int].inode_idx < 256
        &&& t.inodes[t.dentries[d->0 as int].inode_idx as int].active
        &&& exists|f: int| 0 <= f < 128 && !(#[trigger] t.files[f]).active
    }
    &&& r matches Some(f) ==> {
        &&& f < 128
        &&& !t.files[f as int].active
        &&& forall|k: int| 0 <= k < f ==> (#[trigger] t.files[k]).active
        &&& t2.files == t.files.update(
            f as int,
            File {
                inode_idx: t.dentries[d->0 as int].inode_idx,
                offset: 0,
                mode,
                active: true,
            },
        )
        &&& t2 == (Tables { files: t2.files, ..t })
    }
    &&& r is None ==> t2 == t
}

/// What the file system's own terms say of opening is what opening is for.
pub proof fn lemma_opens(t: Tables, path: Seq<u8>, mode: u32)
    requires
        t.wf(),
    ensures
        opens(t, t.found(path), mode, t.opened_at(path, mode).0, t.opened_at(path, mode).1),
{
    let (t2, r) = t.opened_at(path, mode);
    let p = |i: int| !t.files[i].active;
    search::lemma_first(128, p);
    if r is Some {
        let f = r->0 as int;
        assert(p(f));
        assert(!t.files[f].active);
        assert forall|k: int| 0 <= k < f implies (#[trigger] t.files[k]).active by {
            assert(!p(k));
        }
    }
    if exists|f: int| 0 <= f < 128 && !(#[trigger] t.files[f]).active {
        let f = choose|f: int| 0 <= f < 128 && !(#[trigger] t.files[f]).active;
        assert(p(f));
    }
}

/// Opening a path takes a descriptor for what the path leads to. See `opens`.
pub proof fn law_open_takes_a_descriptor(
    v: &mut Vfs,
    before: &Vfs,
    path: &[u8],
    mode: u32,
    d: Option<usize>,
    r: Option<usize>,
)
    requires
        old(v).wf(),
        *before == *old(v),
        call_ensures(vfs::path_lookup, (before, path), d),
        call_ensures(vfs::open, (v, path, mode), r),
    ensures
        opens(old(v)@, d, mode, final(v)@, r),
{
    assert((final(v)@, r) == old(v)@.opened_at(path@, mode));
    lemma_opens(old(v)@, path@, mode);
}

/// Closing frees the descriptor and no other.
pub proof fn law_close_frees_the_descriptor(v: &mut Vfs, fd: usize)
    requires
        old(v).wf(),
        call_ensures(vfs::close, (v, fd), ()),
    ensures
        fd < 128 ==> !final(v)@.files[fd as int].active,
        final(v)@.files.len() == 128,
        forall|k: int| 0 <= k < 128 && k != fd ==> #[trigger] final(v)@.files[k] == old(v)@.files[k],
        final(v)@ == (Tables { files: final(v)@.files, ..old(v)@ }),
{
}

/// Seeking sets the position of an open descriptor and of no other. It succeeds
/// exactly if the descriptor is open.
pub proof fn law_seek_sets_the_position(v: &mut Vfs, fd: usize, offset: usize, r: bool)
    requires
        old(v).wf(),
        call_ensures(vfs::seek, (v, fd, offset), r),
    ensures
        r == (fd < 128 && old(v)@.files[fd as int].active),
        r ==> final(v)@.files[fd as int] == (File { offset, ..old(v)@.files[fd as int] }),
        forall|k: int| 0 <= k < 128 && k != fd ==> #[trigger] final(v)@.files[k] == old(v)@.files[k],
        !r ==> final(v)@ == old(v)@,
        final(v)@ == (Tables { files: final(v)@.files, ..old(v)@ }),
{
}

/// What a directory and a file can do.
pub open spec fn works_as(n: Inode, itype: InodeType) -> bool {
    &&& itype == InodeType::Directory ==> n.inode_ops == (InodeOps {
        lookup: Backend::Ramfs,
        create: Backend::Ramfs,
    })
    &&& itype == InodeType::File ==> n.file_ops == (FileOps {
        read: Backend::Ramfs,
        write: Backend::Ramfs,
    })
}

/// What making an entry leaves behind, and the entry. The entry is under its name, cut to
/// 63 bytes, in the directory that entry `d` leads to, with a new empty inode of its type
/// and the next number; a file has a cleared page if a frame is free. It is made exactly if
/// `d` leads to a directory that can be added to and there is room for an inode and an
/// entry. No other entry changes, no other inode and no open file.
pub open spec fn makes(
    t: Tables,
    m: Mem,
    d: Option<usize>,
    name: Seq<u8>,
    itype: InodeType,
    t2: Tables,
    m2: Mem,
    r: Option<usize>,
) -> bool {
    &&& r is Some <==> {
        let i = t.dentries[d->0 as int].inode_idx;
        &&& d is Some
        &&& t.dentries[d->0 as int].active
        &&& i < 256
        &&& t.inodes[i as int].active
        &&& t.inodes[i as int].itype == InodeType::Directory
        &&& t.inodes[i as int].inode_ops.create == Backend::Ramfs
        &&& exists|k: int| 0 <= k < 256 && !(#[trigger] t.inodes[k]).active
        &&& exists|k: int| 0 <= k < 256 && !(#[trigger] t.dentries[k]).active
    }
    &&& r matches Some(e) ==> {
        let x = t2.dentries[e as int];
        let n = t2.inodes[x.inode_idx as int];
        let len = smaller(name.len() as int, 63);
        &&& e < 256
        &&& !t.dentries[e as int].active
        &&& x.active
        &&& 0 <= x.parent_idx < 256
        &&& t.dentries[x.parent_idx as int].active
        &&& t.dentries[x.parent_idx as int].inode_idx == t.dentries[d->0 as int].inode_idx
        &&& x.name_len == len
        &&& forall|k: int| 0 <= k < len ==> #[trigger] x.name@[k] == name[k]
        &&& x.inode_idx < 256
        &&& !t.inodes[x.inode_idx as int].active
        &&& n.active
        &&& n.itype == itype
        &&& n.ino == t.next_ino
        &&& n.nlink == 1
        &&& n.size == 0
        &&& n.data_size == 0
        &&& works_as(n, itype)
        &&& if itype == InodeType::File && !no_frame_free(m.frames) {
            &&& is_lowest_free(m.frames, n.data_page as int)
            &&& forall|a: int|
                n.data_page <= a < n.data_page + 4096 ==> #[trigger] m2.bytes[a] == 0
        } else {
            n.data_page == 0 && m2.bytes == m.bytes
        }
        &&& t2.next_ino == t.next_ino + 1
        &&& forall|k: int|
            0 <= k < 256 && k != e ==> #[trigger] t2.dentries[k] == t.dentries[k]
        &&& forall|k: int|
            0 <= k < 256 && k != x.inode_idx ==> #[trigger] t2.inodes[k] == t.inodes[k]
        &&& t2.files == t.files
    }
}

/// What the file system's own terms say of making an entry is what making one is for.
pub proof fn lemma_makes(
    t: Tables,
    m: Mem,
    path: Seq<u8>,
    name: Seq<u8>,
    itype: InodeType,
    t2: Tables,
    m2: Mem,
    r: Option<usize>,
)
    requires
        t.wf(),
        t.next_ino < u64::MAX,
        m.sane(),
        vfs::created(t, m, path, name, itype, t2, m2, r),
    ensures
        makes(t, m, t.found(path), name, itype, t2, m2, r),
{
    let d = t.found(path);
    vfs::laws::lemma_walk_bound(t, 0, vfs::components(path));
    let p = |k: int| !t.inodes[k].active;
    let q = |k: int| !t.dentries[k].active;
    search::lemma_first(256, p);
    search::lemma_first(256, q);
    if exists|k: int| 0 <= k < 256 && !(#[trigger] t.inodes[k]).active {
        let k = choose|k: int| 0 <= k < 256 && !(#[trigger] t.inodes[k]).active;
        assert(p(k));
    }
    if exists|k: int| 0 <= k < 256 && !(#[trigger] t.dentries[k]).active {
        let k = choose|k: int| 0 <= k < 256 && !(#[trigger] t.dentries[k]).active;
        assert(q(k));
    }
    if r is Some {
        let dir = t.dentries[d->0 as int].inode_idx;
        let c = |k: int| t.dentries[k].active && t.dentries[k].inode_idx == dir;
        search::lemma_first(256, c);
        assert(c(d->0 as int));
        let pd = t.dentry_of(dir)->0 as int;
        assert(c(pd));
        let e = r->0 as int;
        assert(q(e));
        assert(p(t.free_inode()->0 as int));
        assert(!t.dentries[e].active && !t.inodes[t.free_inode()->0 as int].active);
        lemma_lowest(m.frames);
    }
}

/// A new entry is made in the directory that the path leads to. See `makes`.
pub proof fn law_create_makes_the_entry(
    v: &mut Vfs,
    frames: &mut FrameAllocator,
    bytes: &mut [u8],
    before: &Vfs,
    path: &[u8],
    name: &[u8],
    itype: InodeType,
    d: Option<usize>,
    r: Option<usize>,
)
    requires
        old(v).wf(),
        old(v).next_ino < u64::MAX,
        old(frames).wf(),
        paging::mem(old(frames), old(bytes)@).sane(),
        old(v)@.pages_in_ram(old(bytes)@.len() as int),
        *before == *old(v),
        call_ensures(vfs::path_lookup, (before, path), d),
        call_ensures(vfs::create, (v, frames, bytes, path, name, itype), r),
    ensures
        makes(
            old(v)@,
            paging::mem(old(frames), old(bytes)@),
            d,
            name@,
            itype,
            final(v)@,
            paging::mem(final(frames), final(bytes)@),
            r,
        ),
{
    lemma_makes(
        old(v)@,
        paging::mem(old(frames), old(bytes)@),
        path@,
        name@,
        itype,
        final(v)@,
        paging::mem(final(frames), final(bytes)@),
        r,
    );
}

} // verus!
