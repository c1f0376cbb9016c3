//! The RAM file system: the data of a file lies in one page of memory, names
//! and directories in the tables of the virtual file system.

use vstd::prelude::*;
use crate::memory::paging;
use crate::memory::paging::Mem;
use crate::memory::phys;
use crate::memory::phys::FrameAllocator;
use crate::memory::ram;
use crate::memory::PAGE_SIZE;
use crate::search;
use crate::task;
use super::{
    Backend, Dentry, FileOps, Inode, InodeOps, InodeType, SuperOps, Superblock, Tables, Vfs,
    FS_TYPE_SIZE, MAX_DENTRIES, MAX_INODES,
};

verus! {

/// An inode slot once it is taken for a new inode. The operations of types
/// other than files and directories are those that the slot had before.
pub open spec fn inode_made(slot: Inode, ino: u64, sb: usize, itype: InodeType) -> Inode {
    Inode {
        ino,
        itype,
        size: 0,
        sb_idx: sb,
        active: true,
        nlink: 1,
        inode_ops: match itype {
            InodeType::Directory => InodeOps { lookup: Backend::Ramfs, create: Backend::Ramfs },
            InodeType::File => InodeOps { lookup: Backend::Null, create: Backend::Null },
            _ => slot.inode_ops,
        },
        file_ops: match itype {
            InodeType::Directory => FileOps { read: Backend::Null, write: Backend::Null },
            InodeType::File => FileOps { read: Backend::Ramfs, write: Backend::Ramfs },
            _ => slot.file_ops,
        },
        data_page: 0,
        data_size: 0,
    }
}

impl Tables {
    /// The tables once a new inode is made in slot `i`.
    pub open spec fn with_inode(self, i: int, sb: usize, itype: InodeType) -> Tables {
        Tables {
            inodes: self.inodes.update(i, inode_made(self.inodes[i], self.next_ino, sb, itype)),
            next_ino: (self.next_ino + 1) as u64,
            ..self
        }
    }

    /// The tables once the data of inode `i` is in the page at `page`.
    pub open spec fn with_page(self, i: int, page: int) -> Tables {
        Tables {
            inodes: self.inodes.update(i, Inode { data_page: page as usize, ..self.inodes[i] }),
            ..self
        }
    }

    /// The first dentry that leads to an inode.
    pub open spec fn dentry_of(self, inode: usize) -> Option<usize> {
        search::first(
            MAX_DENTRIES as nat,
            |i: int| self.dentries[i].active && self.dentries[i].inode_idx == inode,
        )
    }

    /// The data of every inode fits its page, and the page lies in the RAM.
    pub open spec fn pages_in_ram(self, ram_len: int) -> bool {
        forall|i: int|
            0 <= i < MAX_INODES ==> (#[trigger] self.inodes[i]).data_size <= PAGE_SIZE && (
            self.inodes[i].data_page != 0 ==> self.inodes[i].data_page + PAGE_SIZE <= ram_len)
    }

    /// The data of inode `i`.
    pub open spec fn content(self, m: Mem, i: int) -> Seq<u8> {
        let n = self.inodes[i];
        if n.data_page == 0 {
            Seq::empty()
        } else {
            m.bytes.subrange(n.data_page as int, n.data_page + n.data_size)
        }
    }
}

/// A dentry slot once it is taken for a new entry.
pub open spec fn is_entry(
    slot: Dentry,
    d: Dentry,
    name: Seq<u8>,
    inode: usize,
    parent: i32,
    sb: usize,
) -> bool {
    &&& d.name@ == task::named(slot.name@, name)
    &&& d.name_len == task::name_len(slot.name@, name)
    &&& d.label() == super::cut_name(name)
    &&& d.inode_idx == inode
    &&& d.parent_idx == parent
    &&& d.active
    &&& d.sb_idx == sb
}

/// Makes an inode of this file system.
pub fn ramfs_alloc_inode(vfs: &mut Vfs, sb_idx: usize, itype: InodeType) -> (r: Option<usize>)
    requires
        old(vfs).wf(),
        old(vfs).next_ino < u64::MAX,
    ensures
        final(vfs).wf(),
        r == old(vfs)@.free_inode(),
        match r {
            Some(i) => i < MAX_INODES && final(vfs)@ == old(vfs)@.with_inode(
                i as int,
                sb_idx,
                itype,
            ),
            None => final(vfs)@ == old(vfs)@,
        },
{
    let idx: usize = match super::alloc_inode_slot(vfs) {
        Some(i) => i,
        None => {
            return None;
        },
    };
    let mut inode: Inode = vfs.inodes[idx];
    inode.itype = itype;
    inode.size = 0;
    inode.sb_idx = sb_idx;
    inode.nlink = 1;
    inode.data_page = 0;
    inode.data_size = 0;
    match itype {
        InodeType::Directory => {
            inode.inode_ops = InodeOps { lookup: Backend::Ramfs, create: Backend::Ramfs };
            inode.file_ops = FileOps { read: Backend::Null, write: Backend::Null };
        },
        InodeType::File => {
            inode.inode_ops = InodeOps { lookup: Backend::Null, create: Backend::Null };
            inode.file_ops = FileOps { read: Backend::Ramfs, write: Backend::Ramfs };
        },
        _ => {},
    }
    vfs.inodes[idx] = inode;
    assert(vfs@ =~= old(vfs)@.with_inode(idx as int, sb_idx, itype));
    Some(idx)
}

/// Gives an inode back, and with it the page of its data.
pub fn ramfs_free_inode(
    vfs: &mut Vfs,
    frames: &mut FrameAllocator,
    _sb_idx: usize,
    inode_idx: usize,
)
    requires
        old(vfs).wf(),
        old(frames).wf(),
        inode_idx < MAX_INODES ==> old(vfs)@.inodes[inode_idx as int].data_page as int / 4096
            < phys::MAX_FRAMES,
    ensures
        final(vfs).wf(),
        final(frames).wf(),
        if inode_idx < MAX_INODES && old(vfs)@.inodes[inode_idx as int].active {
            let n = old(vfs)@.inodes[inode_idx as int];
            &&& final(vfs)@ == (Tables {
                inodes: old(vfs)@.inodes.update(
                    inode_idx as int,
                    Inode { active: false, data_page: 0, ..n },
                ),
                ..old(vfs)@
            })
            &&& final(frames)@ == (if n.data_page != 0 {
                old(frames)@.release(n.data_page as int / 4096)
            } else {
                old(frames)@
            })
        } else {
            final(vfs)@ == old(vfs)@ && final(frames)@ == old(frames)@
        },
{
    if inode_idx < MAX_INODES && vfs.inodes[inode_idx].active {
        let mut inode: Inode = vfs.inodes[inode_idx];
        if inode.data_page != 0 {
            phys::free_frame(frames, inode.data_page);
            inode.data_page = 0;
        }
        inode.active = false;
        vfs.inodes[inode_idx] = inode;
    }
}

/// Finds the first dentry that leads to an inode.
fn find_dentry_of(vfs: &Vfs, inode_idx: usize) -> (r: Option<usize>)
    ensures
        r == vfs@.dentry_of(inode_idx),
        r matches Some(i) ==> i < MAX_DENTRIES,
{
    let ghost t = vfs@;
    let ghost p = |i: int| t.dentries[i].active && t.dentries[i].inode_idx == inode_idx;
    let mut i: usize = 0;
    while i < MAX_DENTRIES
        invariant
            i <= MAX_DENTRIES,
            t == vfs@,
            p == (|i: int| t.dentries[i].active && t.dentries[i].inode_idx == inode_idx),
            forall|j: int| 0 <= j < i ==> !#[trigger] p(j),
        decreases MAX_DENTRIES - i,
    {
        if vfs.dentries[i].active && vfs.dentries[i].inode_idx == inode_idx {
            proof {
                assert(p(i as int));
                search::lemma_first_is(MAX_DENTRIES as nat, p, i);
            }
            return Some(i);
        }
        i = i + 1;
    }
    proof {
        search::lemma_first_none(MAX_DENTRIES as nat, p);
    }
    None
}

/// Finds an entry of a directory, given by its inode, by its name.
pub fn ramfs_lookup(vfs: &Vfs, dir_inode_idx: usize, name: &[u8]) -> (r: Option<usize>)
    requires
        vfs.wf(),
    ensures
        r == match vfs@.dentry_of(dir_inode_idx) {
            Some(d) => vfs@.child(d as int, name@),
            None => None,
        },
{
    match find_dentry_of(vfs, dir_inode_idx) {
        Some(d) => super::find_child_dentry(vfs, d, name),
        None => None,
    }
}

/// The tables and the memory once a new entry has its inode, and for a file its
/// page, as long as a frame is free.
pub open spec fn inode_ready(
    t: Tables,
    m: Mem,
    i: int,
    sb: usize,
    itype: InodeType,
) -> (Tables, Mem) {
    let t1 = t.with_inode(i, sb, itype);
    if itype == InodeType::File && m.frames.lowest_free() is Some {
        (t1.with_page(i, m.fresh_addr()), m.fresh())
    } else {
        (t1, m)
    }
}

/// What `ramfs_create` does to tables `t` and memory `m`: they become `t2` and
/// `m2`, and `r` is returned.
pub open spec fn entry_created(
    t: Tables,
    m: Mem,
    dir: usize,
    name: Seq<u8>,
    itype: InodeType,
    t2: Tables,
    m2: Mem,
    r: Option<usize>,
) -> bool {
    let sb = t.inodes[dir as int].sb_idx;
    if dir >= MAX_INODES || !t.inodes[dir as int].active || t.free_inode() is None {
        r is None && t2 == t && m2 == m
    } else {
        let i = t.free_inode()->0;
        let (t1, m1) = inode_ready(t, m, i as int, sb, itype);
        let parent: i32 = match t.dentry_of(dir) {
            Some(d) => d as i32,
            None => -1i32,
        };
        &&& m2 == m1
        &&& r == t.free_dentry()
        &&& match r {
            Some(d) => {
                &&& is_entry(
                    t.dentries[d as int],
                    t2.dentries[d as int],
                    name,
                    i,
                    parent,
                    sb,
                )
                &&& t2 == (Tables {
                    dentries: t.dentries.update(d as int, t2.dentries[d as int]),
                    ..t1
                })
            },
            None => t2 == t1,
        }
    }
}

/// Makes an entry in a directory, given by its inode, and returns its dentry.
/// `None` if the directory is not in use or a table is full.
pub fn ramfs_create(
    vfs: &mut Vfs,
    frames: &mut FrameAllocator,
    bytes: &mut [u8],
    dir_inode_idx: usize,
    name: &[u8],
    itype: InodeType,
) -> (r: Option<usize>)
    requires
        old(vfs).wf(),
        old(vfs).next_ino < u64::MAX,
        old(frames).wf(),
        paging::mem(old(frames), old(bytes)@).sane(),
        old(vfs)@.pages_in_ram(old(bytes)@.len() as int),
    ensures
        final(vfs).wf(),
        final(frames).wf(),
        paging::mem(final(frames), final(bytes)@).sane(),
        final(bytes)@.len() == old(bytes)@.len(),
        final(vfs)@.pages_in_ram(final(bytes)@.len() as int),
        entry_created(
            old(vfs)@,
            paging::mem(old(frames), old(bytes)@),
            dir_inode_idx,
            name@,
            itype,
            final(vfs)@,
            paging::mem(final(frames), final(bytes)@),
            r,
        ),
        r matches Some(d) ==> d < MAX_DENTRIES,
{
    if dir_inode_idx >= MAX_INODES || !vfs.inodes[dir_inode_idx].active {
        return None;
    }
    let ghost t = vfs@;
    let ghost m = paging::mem(frames, bytes@);
    let sb_idx: usize = vfs.inodes[dir_inode_idx].sb_idx;
    let new_inode_idx: usize = match ramfs_alloc_inode(vfs, sb_idx, itype) {
        Some(i) => i,
        None => {
            return None;
        },
    };
    if itype == InodeType::File {
        match phys::alloc_frame(frames) {
            Some(page) => {
                paging::zero_frame(bytes, page);
                vfs.inodes[new_inode_idx].data_page = page;
                assert(vfs@ =~= t.with_inode(new_inode_idx as int, sb_idx, itype).with_page(
                    new_inode_idx as int,
                    page as int,
                ));
            },
            None => {},
        }
    }
    let ghost t1 = vfs@;
    assert((t1, paging::mem(frames, bytes@)) == inode_ready(
        t,
        m,
        new_inode_idx as int,
        sb_idx,
        itype,
    ));
    let parent: i32 = match find_dentry_of(vfs, dir_inode_idx) {
        Some(d) => d as i32,
        None => -1,
    };
    proof {
        assert(t1.dentries == t.dentries);
        search::lemma_first_same(
            MAX_DENTRIES as nat,
            |i: int| t.dentries[i].active && t.dentries[i].inode_idx == dir_inode_idx,
            |i: int| t1.dentries[i].active && t1.dentries[i].inode_idx == dir_inode_idx,
        );
        search::lemma_first_same(
            MAX_DENTRIES as nat,
            |i: int| !t.dentries[i].active,
            |i: int| !t1.dentries[i].active,
        );
    }
    let dentry_idx: usize = match super::alloc_dentry(vfs) {
        Some(d) => d,
        None => {
            return None;
        },
    };
    put_entry(vfs, dentry_idx, name, new_inode_idx, parent, sb_idx);
    Some(dentry_idx)
}

/// Fills a dentry slot.
fn put_entry(vfs: &mut Vfs, idx: usize, name: &[u8], inode: usize, parent: i32, sb: usize)
    requires
        old(vfs).wf(),
        idx < MAX_DENTRIES,
    ensures
        final(vfs).wf(),
        is_entry(
            old(vfs)@.dentries[idx as int],
            final(vfs)@.dentries[idx as int],
            name@,
            inode,
            parent,
            sb,
        ),
        final(vfs)@ == (Tables {
            dentries: old(vfs)@.dentries.update(idx as int, final(vfs)@.dentries[idx as int]),
            ..old(vfs)@
        }),
{
    let mut d: Dentry = vfs.dentries[idx];
    d.set_name(name);
    d.inode_idx = inode;
    d.parent_idx = parent;
    d.active = true;
    d.sb_idx = sb;
    vfs.dentries[idx] = d;
    assert(d.label() =~= super::cut_name(name@));
}

/// What a read of `n` bytes at `offset` gives.
pub open spec fn read_part(content: Seq<u8>, offset: int, n: int) -> Seq<u8> {
    if offset >= content.len() {
        Seq::empty()
    } else if offset + n <= content.len() {
        content.subrange(offset, offset + n)
    } else {
        content.subrange(offset, content.len() as int)
    }
}

/// Reads from a file, given by its inode, into a buffer. Returns the number of
/// bytes read, -1 if the inode is not in use.
pub fn ramfs_read(
    vfs: &Vfs,
    bytes: &[u8],
    inode_idx: usize,
    offset: usize,
    buf: &mut [u8],
) -> (r: isize)
    requires
        vfs@.pages_in_ram(bytes@.len() as int),
    ensures
        if inode_idx >= MAX_INODES || !vfs@.inodes[inode_idx as int].active {
            r == -1 && final(buf)@ == old(buf)@
        } else {
            let part = read_part(
                vfs@.content(paging::bare(bytes@), inode_idx as int),
                offset as int,
                old(buf)@.len() as int,
            );
            r == part.len() && final(buf)@ == ram::patched(old(buf)@, 0, part)
        },
        final(buf)@.len() == old(buf)@.len(),
        -1 <= r <= PAGE_SIZE,
        r <= old(buf)@.len(),
        r > 0 ==> offset + r <= PAGE_SIZE,
{
    if inode_idx >= MAX_INODES || !vfs.inodes[inode_idx].active {
        return -1;
    }
    let inode: Inode = vfs.inodes[inode_idx];
    assert(vfs@.inodes[inode_idx as int].data_size <= PAGE_SIZE);
    if inode.data_page == 0 || offset >= inode.data_size {
        assert(buf@ =~= ram::patched(old(buf)@, 0, Seq::<u8>::empty()));
        return 0;
    }
    let available: usize = inode.data_size - offset;
    let to_read: usize = if buf.len() < available {
        buf.len()
    } else {
        available
    };
    let ghost part = read_part(
        vfs@.content(paging::bare(bytes@), inode_idx as int),
        offset as int,
        old(buf)@.len() as int,
    );
    assert(inode.data_page + PAGE_SIZE <= bytes.len());
    ram::copy(buf, 0, bytes, inode.data_page + offset, to_read);
    assert(part =~= bytes@.subrange(
        inode.data_page + offset,
        inode.data_page + offset + to_read,
    ));
    to_read as isize
}

/// The tables and the memory once inode `i` has a page, if it has one or a frame
/// is free.
pub open spec fn page_ready(t: Tables, m: Mem, i: int) -> Option<(Tables, Mem)> {
    if t.inodes[i].data_page != 0 {
        Some((t, m))
    } else if m.frames.lowest_free() is Some {
        Some((t.with_page(i, m.fresh_addr()), m.fresh()))
    } else {
        None
    }
}

/// How many bytes of some data fit into a page from `offset` on.
pub open spec fn fitting(offset: int, len: int) -> int {
    if offset >= PAGE_SIZE {
        0
    } else if offset + len <= PAGE_SIZE {
        len
    } else {
        PAGE_SIZE - offset
    }
}

/// The tables, the memory and the result after data was written to inode `i`.
pub open spec fn written(t: Tables, m: Mem, i: int, offset: int, data: Seq<u8>) -> (
    Tables,
    Mem,
    isize,
) {
    match page_ready(t, m, i) {
        None => (t, m, -1isize),
        Some((t1, m1)) => if offset >= PAGE_SIZE {
            (t1, m1, 0)
        } else {
            let n = fitting(offset, data.len() as int);
            let inode = t1.inodes[i];
            let end = offset + n;
            let grown = if end > inode.data_size {
                Inode { data_size: end as usize, size: end as usize, ..inode }
            } else {
                inode
            };
            (
                Tables { inodes: t1.inodes.update(i, grown), ..t1 },
                Mem {
                    bytes: ram::patched(
                        m1.bytes,
                        inode.data_page + offset,
                        data.subrange(0, n),
                    ),
                    frames: m1.frames,
                },
                n as isize,
            )
        },
    }
}

/// Writes to a file, given by its inode. A file ends with its page: what does
/// not fit is not written. Returns the number of bytes written, -1 if the inode
/// is not in use or there is no frame for its page.
pub fn ramfs_write(
    vfs: &mut Vfs,
    frames: &mut FrameAllocator,
    bytes: &mut [u8],
    inode_idx: usize,
    offset: usize,
    data: &[u8],
) -> (r: isize)
    requires
        old(vfs).wf(),
        old(frames).wf(),
        paging::mem(old(frames), old(bytes)@).sane(),
        old(vfs)@.pages_in_ram(old(bytes)@.len() as int),
    ensures
        final(vfs).wf(),
        final(frames).wf(),
        paging::mem(final(frames), final(bytes)@).sane(),
        final(bytes)@.len() == old(bytes)@.len(),
        final(vfs)@.pages_in_ram(final(bytes)@.len() as int),
        (final(vfs)@, paging::mem(final(frames), final(bytes)@), r) == (if inode_idx >= MAX_INODES
            || !old(vfs)@.inodes[inode_idx as int].active {
            (old(vfs)@, paging::mem(old(frames), old(bytes)@), -1isize)
        } else {
            written(
                old(vfs)@,
                paging::mem(old(frames), old(bytes)@),
                inode_idx as int,
                offset as int,
                data@,
            )
        }),
        -1 <= r <= PAGE_SIZE,
        r <= data@.len(),
        r > 0 ==> offset + r <= PAGE_SIZE,
{
    if inode_idx >= MAX_INODES || !vfs.inodes[inode_idx].active {
        return -1;
    }
    let ghost t = vfs@;
    let ghost m = paging::mem(frames, bytes@);
    if vfs.inodes[inode_idx].data_page == 0 {
        match phys::alloc_frame(frames) {
            Some(page) => {
                paging::zero_frame(bytes, page);
                vfs.inodes[inode_idx].data_page = page;
            },
            None => {
                return -1;
            },
        }
    }
    proof {
        assert(page_ready(t, m, inode_idx as int) == Some((vfs@, paging::mem(frames, bytes@)))) by {
            if t.inodes[inode_idx as int].data_page == 0 {
                assert(vfs@ =~= t.with_page(inode_idx as int, m.fresh_addr()));
            }
        }
    }
    if offset >= PAGE_SIZE {
        return 0;
    }
    let ghost t1 = vfs@;
    let max_write: usize = PAGE_SIZE - offset;
    let to_write: usize = if data.len() < max_write {
        data.len()
    } else {
        max_write
    };
    assert(t1.pages_in_ram(bytes@.len() as int));
    let mut inode: Inode = vfs.inodes[inode_idx];
    assert(t1.inodes[inode_idx as int] == inode);
    assert(inode.data_page + PAGE_SIZE <= bytes.len());
    ram::copy(bytes, inode.data_page + offset, data, 0, to_write);
    let new_end: usize = offset + to_write;
    if new_end > inode.data_size {
        inode.data_size = new_end;
        inode.size = new_end;
    }
    vfs.inodes[inode_idx] = inode;
    assert(vfs@.inodes =~= t1.inodes.update(inode_idx as int, inode));
    to_write as isize
}

/// The names of the root and of the directories in it, by their dentries.
pub open spec fn base_name(i: int) -> Seq<u8> {
    if i == 0 {
        // "/"
        seq![0x2Fu8]
    } else if i == 1 {
        // "dev"
        seq![0x64u8, 0x65, 0x76]
    } else if i == 2 {
        // "sys"
        seq![0x73u8, 0x79, 0x73]
    } else if i == 3 {
        // "proc"
        seq![0x70u8, 0x72, 0x6F, 0x63]
    } else if i == 4 {
        // "mnt"
        seq![0x6Du8, 0x6E, 0x74]
    } else if i == 5 {
        // "tmp"
        seq![0x74u8, 0x6D, 0x70]
    } else {
        // "drives"
        seq![0x64u8, 0x72, 0x69, 0x76, 0x65, 0x73]
    }
}

/// How many dentries and inodes a new file system has.
pub const BASE_ENTRIES: usize = 7;

/// The first `n` entries of a new file system are made: the root, and
/// directories in it.
pub open spec fn based(t: Tables, n: int) -> bool {
    &&& t == (Tables {
        superblocks: t.superblocks,
        inodes: t.inodes,
        dentries: t.dentries,
        next_ino: (n + 1) as u64,
        ..Tables::blank()
    })
    &&& is_ramfs(t.superblocks[0])
    &&& t.superblocks == Tables::blank().superblocks.update(0, t.superblocks[0])
    &&& t.inodes == Seq::new(
        MAX_INODES as nat,
        |i: int|
            if i < n {
                inode_made(Inode::spec_empty(), (i + 1) as u64, 0, InodeType::Directory)
            } else {
                Inode::spec_empty()
            },
    )
    &&& t.dentries.len() == MAX_DENTRIES
    &&& forall|i: int|
        0 <= i < n ==> is_entry(
            Dentry::spec_empty(),
            #[trigger] t.dentries[i],
            base_name(i),
            i as usize,
            if i == 0 {
                -1i32
            } else {
                0
            },
            0,
        )
    &&& forall|i: int| n <= i < MAX_DENTRIES ==> #[trigger] t.dentries[i] == Dentry::spec_empty()
}

/// The superblock of this file system, with its root in inode 0.
pub open spec fn is_ramfs(sb: Superblock) -> bool {
    &&& sb == (Superblock {
        fs_type: sb.fs_type,
        fs_type_len: 5,
        active: true,
        root_inode: 0,
        ops: SuperOps { alloc_inode: Backend::Ramfs, free_inode: Backend::Ramfs },
    })
    // "ramfs", and zeros
    &&& sb.fs_type@ == seq![
        0x72u8,
        0x61,
        0x6D,
        0x66,
        0x73,
        0,
        0,
        0,
        0,
        0,
        0,
        0,
        0,
        0,
        0,
        0,
    ]
}

/// A new file system: the root with its directories and nothing else.
pub open spec fn is_fresh(t: Tables) -> bool {
    based(t, BASE_ENTRIES as int)
}

/// Makes entry `n` of a new file system.
fn add_base(vfs: &mut Vfs, n: usize, name: &[u8])
    requires
        old(vfs).wf(),
        n < BASE_ENTRIES,
        based(old(vfs)@, n as int),
        name@ == base_name(n as int),
    ensures
        final(vfs).wf(),
        based(final(vfs)@, n + 1),
{
    let ghost t = vfs@;
    proof {
        search::lemma_first_is(MAX_INODES as nat, |i: int| !t.inodes[i].active, n);
    }
    match ramfs_alloc_inode(vfs, 0, InodeType::Directory) {
        Some(inode_idx) => {
            proof {
                let t1 = vfs@;
                assert forall|i: int| 0 <= i < n implies t1.dentries[i].active by {
                    assert(is_entry(
                        Dentry::spec_empty(),
                        t.dentries[i],
                        base_name(i),
                        i as usize,
                        if i == 0 {
                            -1i32
                        } else {
                            0
                        },
                        0,
                    ));
                }
                search::lemma_first_is(MAX_DENTRIES as nat, |i: int| !t1.dentries[i].active, n);
            }
            match super::alloc_dentry(vfs) {
                Some(dentry_idx) => {
                    let parent: i32 = if n == 0 {
                        -1
                    } else {
                        0
                    };
                    put_entry(vfs, dentry_idx, name, inode_idx, parent, 0);
                    proof {
                        let w = vfs@;
                        assert(w.inodes =~= Seq::new(
                            MAX_INODES as nat,
                            |i: int|
                                if i < n + 1 {
                                    inode_made(
                                        Inode::spec_empty(),
                                        (i + 1) as u64,
                                        0,
                                        InodeType::Directory,
                                    )
                                } else {
                                    Inode::spec_empty()
                                },
                        ));
                        assert forall|i: int| 0 <= i < n + 1 implies is_entry(
                            Dentry::spec_empty(),
                            #[trigger] w.dentries[i],
                            base_name(i),
                            i as usize,
                            if i == 0 {
                                -1i32
                            } else {
                                0
                            },
                            0,
                        ) by {
                            if i < n {
                                assert(w.dentries[i] == t.dentries[i]);
                            }
                        }
                    }
                },
                None => {},
            }
        },
        None => {},
    }
}

/// Starts the file system afresh: a superblock for this file system, its root
/// directory and the directories dev, sys, proc, mnt, tmp and drives in it.
/// Files that were open are closed.
pub fn init(vfs: &mut Vfs)
    ensures
        final(vfs).wf(),
        is_fresh(final(vfs)@),
{
    *vfs = Vfs::new();
    let fs_type: [u8; FS_TYPE_SIZE] = [
        0x72, 0x61, 0x6D, 0x66, 0x73, 0, 0, 0, 0, 0, 0, 0, 0, 0, 0, 0,
    ];
    vfs.superblocks[0] = Superblock {
        fs_type,
        fs_type_len: 5,
        active: true,
        root_inode: 0,
        ops: SuperOps { alloc_inode: Backend::Ramfs, free_inode: Backend::Ramfs },
    };
    proof {
        let t = vfs@;
        assert(fs_type@ =~= seq![0x72u8, 0x61, 0x6D, 0x66, 0x73, 0, 0, 0, 0, 0, 0, 0, 0, 0, 0, 0]);
        assert(t.inodes =~= Seq::new(
            MAX_INODES as nat,
            |i: int|
                if i < 0 {
                    inode_made(Inode::spec_empty(), (i + 1) as u64, 0, InodeType::Directory)
                } else {
                    Inode::spec_empty()
                },
        ));
        assert(based(t, 0));
    }
    let root: [u8; 1] = [0x2F];
    let dev: [u8; 3] = [0x64, 0x65, 0x76];
    let sys: [u8; 3] = [0x73, 0x79, 0x73];
    let proc: [u8; 4] = [0x70, 0x72, 0x6F, 0x63];
    let mnt: [u8; 3] = [0x6D, 0x6E, 0x74];
    let tmp: [u8; 3] = [0x74, 0x6D, 0x70];
    let drives: [u8; 6] = [0x64, 0x72, 0x69, 0x76, 0x65, 0x73];
    proof {
        assert(root@ =~= base_name(0));
        assert(dev@ =~= base_name(1));
        assert(sys@ =~= base_name(2));
        assert(proc@ =~= base_name(3));
        assert(mnt@ =~= base_name(4));
        assert(tmp@ =~= base_name(5));
        assert(drives@ =~= base_name(6));
    }
    add_base(vfs, 0, &root);
    add_base(vfs, 1, &dev);
    add_base(vfs, 2, &sys);
    add_base(vfs, 3, &proc);
    add_base(vfs, 4, &mnt);
    add_base(vfs, 5, &tmp);
    add_base(vfs, 6, &drives);
}

} // verus!
