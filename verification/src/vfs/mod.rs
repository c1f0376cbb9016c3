//! The virtual file system: one interface to all file systems.
//!
//! A superblock stands for a mounted file system, an inode for a file or a
//! directory, a dentry for a name in a directory, a file for an inode that was
//! opened. Dentry 0 is the root.

pub mod laws;
pub mod ramfs;

use vstd::prelude::*;
use crate::memory::paging;
use crate::memory::paging::Mem;
use crate::memory::phys::FrameAllocator;
use crate::memory::ram;
use crate::search;
use crate::task;

verus! {

pub const MAX_SUPERBLOCKS: usize = 8;

pub const MAX_INODES: usize = 256;

pub const MAX_DENTRIES: usize = 256;

pub const MAX_OPEN_FILES: usize = 128;

/// Bytes kept of a name, the closing zero included.
pub const MAX_NAME_LEN: usize = 64;

/// The longest path that callers should pass.
pub const MAX_PATH_LEN: usize = 256;

/// Bytes kept of the name of a file system.
pub const FS_TYPE_SIZE: usize = 16;

/// The character between the components of a path.
pub const SLASH: u8 = 0x2F;

/// What an inode stands for.
#[derive(Debug, Clone, Copy, PartialEq, Eq, Structural)]
pub enum InodeType {
    File,
    Directory,
    Symlink,
    Device,
    Pipe,
}

impl InodeType {
    /// The number of the type.
    pub fn number(self) -> (r: u32)
        ensures
            r == match self {
                InodeType::File => 1u32,
                InodeType::Directory => 2,
                InodeType::Symlink => 3,
                InodeType::Device => 4,
                InodeType::Pipe => 5,
            },
    {
        match self {
            InodeType::File => 1,
            InodeType::Directory => 2,
            InodeType::Symlink => 3,
            InodeType::Device => 4,
            InodeType::Pipe => 5,
        }
    }
}

/// How a file is opened.
#[derive(Debug, Clone, Copy, PartialEq, Eq, Structural)]
pub enum OpenMode {
    ReadOnly,
    WriteOnly,
    ReadWrite,
    Append,
    Create,
    Truncate,
}

impl OpenMode {
    /// The mode as the bits that `open` takes.
    pub fn bits(self) -> (r: u32)
        ensures
            r == match self {
                OpenMode::ReadOnly => 0u32,
                OpenMode::WriteOnly => 1,
                OpenMode::ReadWrite => 2,
                OpenMode::Append => 4,
                OpenMode::Create => 8,
                OpenMode::Truncate => 16,
            },
    {
        match self {
            OpenMode::ReadOnly => 0,
            OpenMode::WriteOnly => 1,
            OpenMode::ReadWrite => 2,
            OpenMode::Append => 4,
            OpenMode::Create => 8,
            OpenMode::Truncate => 16,
        }
    }
}

/// The number of an inode, unique in its file system.
pub type InodeNum = u64;

/// A file descriptor.
pub type Fd = i32;

/// Who carries out an operation.
#[derive(Debug, Clone, Copy, PartialEq, Eq, Structural)]
pub enum Backend {
    /// Nobody: the operation does nothing.
    Null,
    /// The RAM file system.
    Ramfs,
}

/// The operations on a superblock.
#[derive(Debug, Clone, Copy, PartialEq, Eq, Structural)]
pub struct SuperOps {
    /// Makes an inode.
    pub alloc_inode: Backend,
    /// Gives an inode back.
    pub free_inode: Backend,
}

/// The operations on a directory.
#[derive(Debug, Clone, Copy, PartialEq, Eq, Structural)]
pub struct InodeOps {
    /// Finds an entry by its name.
    pub lookup: Backend,
    /// Makes an entry.
    pub create: Backend,
}

/// The operations on an open file.
#[derive(Debug, Clone, Copy, PartialEq, Eq, Structural)]
pub struct FileOps {
    pub read: Backend,
    pub write: Backend,
}

/// A mounted file system.
#[derive(Clone, Copy)]
pub struct Superblock {
    /// The name of the file system.
    pub fs_type: [u8; FS_TYPE_SIZE],
    pub fs_type_len: usize,
    pub active: bool,
    /// The inode of its root directory.
    pub root_inode: usize,
    pub ops: SuperOps,
}

impl Superblock {
    /// A superblock that is not in use.
    pub open spec fn spec_empty() -> Superblock {
        Superblock {
            fs_type: [0u8; FS_TYPE_SIZE],
            fs_type_len: 0,
            active: false,
            root_inode: 0,
            ops: SuperOps { alloc_inode: Backend::Null, free_inode: Backend::Null },
        }
    }

    /// A superblock that is not in use.
    pub fn empty() -> (r: Superblock)
        ensures
            r == Superblock::spec_empty(),
    {
        Superblock {
            fs_type: [0u8; FS_TYPE_SIZE],
            fs_type_len: 0,
            active: false,
            root_inode: 0,
            ops: SuperOps { alloc_inode: Backend::Null, free_inode: Backend::Null },
        }
    }
}

/// A file or a directory, without its name.
#[derive(Clone, Copy, PartialEq, Eq, Structural)]
pub struct Inode {
    pub ino: InodeNum,
    pub itype: InodeType,
    /// Its size in bytes.
    pub size: usize,
    /// The superblock it belongs to.
    pub sb_idx: usize,
    pub active: bool,
    /// How many dentries lead to it.
    pub nlink: u32,
    pub inode_ops: InodeOps,
    pub file_ops: FileOps,
    /// The physical address of the page with its data, 0 if it has none.
    pub data_page: usize,
    /// How many bytes of the page are data.
    pub data_size: usize,
}

impl Inode {
    /// An inode that is not in use.
    pub open spec fn spec_empty() -> Inode {
        Inode {
            ino: 0,
            itype: InodeType::File,
            size: 0,
            sb_idx: 0,
            active: false,
            nlink: 0,
            inode_ops: InodeOps { lookup: Backend::Null, create: Backend::Null },
            file_ops: FileOps { read: Backend::Null, write: Backend::Null },
            data_page: 0,
            data_size: 0,
        }
    }

    /// An inode that is not in use.
    pub fn empty() -> (r: Inode)
        ensures
            r == Inode::spec_empty(),
    {
        Inode {
            ino: 0,
            itype: InodeType::File,
            size: 0,
            sb_idx: 0,
            active: false,
            nlink: 0,
            inode_ops: InodeOps { lookup: Backend::Null, create: Backend::Null },
            file_ops: FileOps { read: Backend::Null, write: Backend::Null },
            data_page: 0,
            data_size: 0,
        }
    }
}

/// A name in a directory.
#[derive(Clone, Copy)]
pub struct Dentry {
    pub name: [u8; MAX_NAME_LEN],
    pub name_len: usize,
    /// The inode that the name stands for.
    pub inode_idx: usize,
    /// The dentry of the directory, -1 for the root.
    pub parent_idx: i32,
    pub active: bool,
    pub sb_idx: usize,
}

impl Dentry {
    /// The name without what is behind it.
    pub open spec fn label(self) -> Seq<u8> {
        self.name@.subrange(0, self.name_len as int)
    }

    /// A dentry that is not in use.
    pub open spec fn spec_empty() -> Dentry {
        Dentry {
            name: [0u8; MAX_NAME_LEN],
            name_len: 0,
            inode_idx: 0,
            parent_idx: -1i32,
            active: false,
            sb_idx: 0,
        }
    }

    /// A dentry that is not in use.
    pub fn empty() -> (r: Dentry)
        ensures
            r == Dentry::spec_empty(),
    {
        Dentry {
            name: [0u8; MAX_NAME_LEN],
            name_len: 0,
            inode_idx: 0,
            parent_idx: -1,
            active: false,
            sb_idx: 0,
        }
    }

    /// Sets the name, cut to 63 bytes.
    pub fn set_name(&mut self, n: &[u8])
        ensures
            final(self).name@ == task::named(old(self).name@, n@),
            final(self).name_len == task::name_len(old(self).name@, n@),
            final(self).label() == cut_name(n@),
            *final(self) == (Dentry {
                name: final(self).name,
                name_len: final(self).name_len,
                ..*old(self)
            }),
    {
        let len: usize = if n.len() > MAX_NAME_LEN - 1 {
            MAX_NAME_LEN - 1
        } else {
            n.len()
        };
        let mut i: usize = 0;
        while i < len
            invariant
                i <= len,
                len <= n.len(),
                len == task::name_len(old(self).name@, n@),
                len < MAX_NAME_LEN,
                *self == (Dentry { name: self.name, ..*old(self) }),
                forall|j: int| 0 <= j < i ==> self.name@[j] == n@[j],
                forall|j: int| i <= j < MAX_NAME_LEN ==> self.name@[j] == old(self).name@[j],
            decreases len - i,
        {
            self.name[i] = n[i];
            i = i + 1;
        }
        self.name[len] = 0;
        self.name_len = len;
        assert(self.name@ =~= task::named(old(self).name@, n@));
        assert(self.label() =~= cut_name(n@));
    }

    /// Whether the name is `n`.
    pub fn name_eq(&self, n: &[u8]) -> (r: bool)
        requires
            self.name_len <= MAX_NAME_LEN,
        ensures
            r == (self.label() == n@),
    {
        if self.name_len != n.len() {
            return false;
        }
        let mut i: usize = 0;
        while i < n.len()
            invariant
                i <= n.len(),
                n.len() == self.name_len,
                self.name_len <= MAX_NAME_LEN,
                forall|j: int| 0 <= j < i ==> self.name@[j] == n@[j],
            decreases n.len() - i,
        {
            if self.name[i] != n[i] {
                assert(self.label()[i as int] != n@[i as int]);
                return false;
            }
            i = i + 1;
        }
        assert(self.label() =~= n@);
        true
    }
}

/// A name cut to 63 bytes.
pub open spec fn cut_name(n: Seq<u8>) -> Seq<u8> {
    if n.len() < MAX_NAME_LEN {
        n
    } else {
        n.subrange(0, MAX_NAME_LEN - 1)
    }
}

/// An inode that was opened.
#[derive(Clone, Copy, PartialEq, Eq, Structural)]
pub struct File {
    pub inode_idx: usize,
    /// Where the next read or write starts.
    pub offset: usize,
    pub mode: u32,
    pub active: bool,
}

impl File {
    /// A file that is not open.
    pub fn empty() -> (r: File)
        ensures
            r == (File { inode_idx: 0, offset: 0, mode: 0, active: false }),
    {
        File { inode_idx: 0, offset: 0, mode: 0, active: false }
    }
}

/// The tables of the file system.
pub struct Vfs {
    pub superblocks: [Superblock; MAX_SUPERBLOCKS],
    pub inodes: [Inode; MAX_INODES],
    pub dentries: [Dentry; MAX_DENTRIES],
    pub files: [File; MAX_OPEN_FILES],
    pub next_ino: InodeNum,
}

/// The tables as sequences.
#[verifier::ext_equal]
pub struct Tables {
    pub superblocks: Seq<Superblock>,
    pub inodes: Seq<Inode>,
    pub dentries: Seq<Dentry>,
    pub files: Seq<File>,
    pub next_ino: InodeNum,
}

impl View for Vfs {
    type V = Tables;

    open spec fn view(&self) -> Tables {
        Tables {
            superblocks: self.superblocks@,
            inodes: self.inodes@,
            dentries: self.dentries@,
            files: self.files@,
            next_ino: self.next_ino,
        }
    }
}

impl Tables {
    /// The tables have their sizes, and names fit their buffers.
    pub open spec fn wf(self) -> bool {
        &&& self.superblocks.len() == MAX_SUPERBLOCKS
        &&& self.inodes.len() == MAX_INODES
        &&& self.dentries.len() == MAX_DENTRIES
        &&& self.files.len() == MAX_OPEN_FILES
        &&& forall|i: int|
            0 <= i < MAX_DENTRIES ==> (#[trigger] self.dentries[i]).name_len <= MAX_NAME_LEN
    }

    /// Dentry `i` is the entry `name` of the directory with dentry `parent`.
    pub open spec fn is_child(self, i: int, parent: int, name: Seq<u8>) -> bool {
        &&& self.dentries[i].active
        &&& self.dentries[i].parent_idx == parent
        &&& self.dentries[i].label() == name
    }

    /// The first entry of a directory with a name.
    pub open spec fn child(self, parent: int, name: Seq<u8>) -> Option<usize> {
        search::first(MAX_DENTRIES as nat, |i: int| self.is_child(i, parent, name))
    }

    /// Where a list of names leads, starting at dentry `d`.
    pub open spec fn walk(self, d: usize, names: Seq<Seq<u8>>) -> Option<usize>
        decreases names.len(),
    {
        if names.len() == 0 {
            Some(d)
        } else {
            match self.child(d as int, names[0]) {
                Some(c) => self.walk(c, names.subrange(1, names.len() as int)),
                None => None,
            }
        }
    }

    /// The dentry that a path leads to. An empty path leads nowhere.
    pub open spec fn found(self, path: Seq<u8>) -> Option<usize> {
        if path.len() == 0 {
            None
        } else {
            self.walk(0, components(path))
        }
    }

    /// The dentry that a path leads to, with its inode, if both are in use.
    pub open spec fn resolved(self, path: Seq<u8>) -> Option<usize> {
        match self.found(path) {
            Some(d) => {
                let i = self.dentries[d as int].inode_idx;
                if self.dentries[d as int].active && i < MAX_INODES && self.inodes[i as int].active {
                    Some(d)
                } else {
                    None
                }
            },
            None => None,
        }
    }

    /// The first file slot that is free.
    pub open spec fn free_file(self) -> Option<usize> {
        search::first(MAX_OPEN_FILES as nat, |i: int| !self.files[i].active)
    }

    /// The first inode slot that is free.
    pub open spec fn free_inode(self) -> Option<usize> {
        search::first(MAX_INODES as nat, |i: int| !self.inodes[i].active)
    }

    /// The first dentry slot that is free.
    pub open spec fn free_dentry(self) -> Option<usize> {
        search::first(MAX_DENTRIES as nat, |i: int| !self.dentries[i].active)
    }

    /// The inode behind a file descriptor, if the file is open and the inode in
    /// use.
    pub open spec fn opened(self, fd: int) -> Option<usize> {
        if 0 <= fd < MAX_OPEN_FILES && self.files[fd].active && self.files[fd].inode_idx
            < MAX_INODES && self.inodes[self.files[fd].inode_idx as int].active {
            Some(self.files[fd].inode_idx)
        } else {
            None
        }
    }

    /// The file `fd` moved on by `n` bytes.
    pub open spec fn advanced(self, fd: int, n: int) -> Tables {
        Tables {
            files: self.files.update(
                fd,
                File { offset: (self.files[fd].offset + n) as usize, ..self.files[fd] },
            ),
            ..self
        }
    }
}

/// How many bytes in front of the first slash.
pub open spec fn head_len(path: Seq<u8>) -> nat
    decreases path.len(),
{
    if path.len() == 0 || path[0] == SLASH {
        0
    } else {
        1 + head_len(path.subrange(1, path.len() as int))
    }
}

/// The components of a path: what is between slashes, without empty ones.
pub open spec fn components(path: Seq<u8>) -> Seq<Seq<u8>>
    decreases path.len(),
{
    if path.len() == 0 {
        Seq::empty()
    } else if path[0] == SLASH {
        components(path.subrange(1, path.len() as int))
    } else {
        let n = head_len(path) as int;
        if 0 < n <= path.len() {
            seq![path.subrange(0, n)] + components(path.subrange(n, path.len() as int))
        } else {
            Seq::empty()
        }
    }
}

/// `head_len` is the place of the first slash, or the length.
pub proof fn lemma_head_len(path: Seq<u8>, n: int)
    requires
        0 <= n <= path.len(),
        forall|i: int| 0 <= i < n ==> path[i] != SLASH,
        n == path.len() || path[n] == SLASH,
    ensures
        head_len(path) == n,
    decreases path.len(),
{
    if n > 0 {
        let rest = path.subrange(1, path.len() as int);
        assert forall|i: int| 0 <= i < n - 1 implies rest[i] != SLASH by {
            assert(rest[i] == path[i + 1]);
        }
        lemma_head_len(rest, n - 1);
    }
}

impl Vfs {
    /// See `Tables::wf`.
    pub open spec fn wf(&self) -> bool {
        self@.wf()
    }

    /// Tables with nothing in use.
    pub fn new() -> (r: Vfs)
        ensures
            r.wf(),
            r@ == Tables::blank(),
    {
        let r = Vfs {
            superblocks: [Superblock::empty(); MAX_SUPERBLOCKS],
            inodes: [Inode::empty(); MAX_INODES],
            dentries: [Dentry::empty(); MAX_DENTRIES],
            files: [File::empty(); MAX_OPEN_FILES],
            next_ino: 1,
        };
        assert(r@ =~= Tables::blank());
        r
    }
}

impl Tables {
    /// Tables with nothing in use.
    pub open spec fn blank() -> Tables {
        Tables {
            superblocks: Seq::new(MAX_SUPERBLOCKS as nat, |i: int| Superblock::spec_empty()),
            inodes: Seq::new(MAX_INODES as nat, |i: int| Inode::spec_empty()),
            dentries: Seq::new(MAX_DENTRIES as nat, |i: int| Dentry::spec_empty()),
            files: Seq::new(
                MAX_OPEN_FILES as nat,
                |i: int| File { inode_idx: 0, offset: 0, mode: 0, active: false },
            ),
            next_ino: 1,
        }
    }
}

/// Finds an entry of a directory by its name.
pub(crate) fn find_child_dentry(vfs: &Vfs, parent_dentry_idx: usize, name: &[u8]) -> (r: Option<usize>)
    requires
        vfs.wf(),
        parent_dentry_idx < MAX_DENTRIES,
    ensures
        r == vfs@.child(parent_dentry_idx as int, name@),
        r matches Some(i) ==> i < MAX_DENTRIES,
{
    let ghost t = vfs@;
    let ghost p = |i: int| t.is_child(i, parent_dentry_idx as int, name@);
    let mut i: usize = 0;
    while i < MAX_DENTRIES
        invariant
            i <= MAX_DENTRIES,
            vfs.wf(),
            t == vfs@,
            parent_dentry_idx < MAX_DENTRIES,
            p == (|i: int| t.is_child(i, parent_dentry_idx as int, name@)),
            forall|j: int| 0 <= j < i ==> !#[trigger] p(j),
        decreases MAX_DENTRIES - i,
    {
        assert(t.dentries[i as int].name_len <= MAX_NAME_LEN);
        if vfs.dentries[i].active && vfs.dentries[i].parent_idx == parent_dentry_idx as i32
            && vfs.dentries[i].name_eq(name) {
            proof {
                assert(p(i as int));
                search::lemma_first_is(MAX_DENTRIES as nat, p, i);
            }
            return Some(i);
        }
        i = i + 1;
    }
    proof {
        search::lemma_first_none(MAX_DENTRIES as nat, p);
    }
    None
}

/// Finds the dentry that a path leads to, starting at the root.
pub fn path_lookup(vfs: &Vfs, path: &[u8]) -> (r: Option<usize>)
    requires
        vfs.wf(),
    ensures
        r == vfs@.found(path@),
        r matches Some(d) ==> d < MAX_DENTRIES,
{
    if path.len() == 0 {
        return None;
    }
    let ghost t = vfs@;
    let ghost want = t.walk(0, components(path@));
    let mut current: usize = 0;
    let mut pos: usize = 0;
    assert(path@.subrange(0, path@.len() as int) =~= path@);
    while pos < path.len()
        invariant
            pos <= path.len(),
            vfs.wf(),
            t == vfs@,
            current < MAX_DENTRIES,
            want == t.walk(0, components(path@)),
            path@.len() > 0,
            want == t.walk(current, components(path@.subrange(pos as int, path@.len() as int))),
        decreases path.len() - pos,
    {
        let ghost rest = path@.subrange(pos as int, path@.len() as int);
        let mut end: usize = pos;
        while end < path.len() && path[end] != SLASH
            invariant
                pos <= end <= path.len(),
                rest == path@.subrange(pos as int, path@.len() as int),
                forall|j: int| 0 <= j < end - pos ==> rest[j] != SLASH,
            decreases path.len() - end,
        {
            end = end + 1;
        }
        proof {
            lemma_head_len(rest, end - pos);
        }
        if end == pos {
            assert(rest.subrange(1, rest.len() as int) =~= path@.subrange(
                pos + 1,
                path@.len() as int,
            ));
            pos = end + 1;
        } else {
            let component: &[u8] = vstd::slice::slice_subrange(path, pos, end);
            let ghost names = components(rest);
            proof {
                assert(component@ =~= rest.subrange(0, end - pos));
                assert(rest.subrange(end - pos, rest.len() as int) =~= path@.subrange(
                    end as int,
                    path@.len() as int,
                ));
                assert(names[0] == component@);
                assert(names.subrange(1, names.len() as int) =~= components(
                    path@.subrange(end as int, path@.len() as int),
                ));
            }
            match find_child_dentry(vfs, current, component) {
                Some(c) => {
                    current = c;
                },
                None => {
                    return None;
                },
            }
            pos = end;
        }
    }
    assert(path@.subrange(pos as int, path@.len() as int) =~= Seq::<u8>::empty());
    Some(current)
}

/// Finds a superblock that is not in use.
pub fn alloc_superblock(vfs: &Vfs) -> (r: Option<usize>)
    ensures
        r == search::first(MAX_SUPERBLOCKS as nat, |i: int| !vfs@.superblocks[i].active),
        r matches Some(i) ==> i < MAX_SUPERBLOCKS,
{
    let ghost p = |i: int| !vfs@.superblocks[i].active;
    let mut i: usize = 0;
    while i < MAX_SUPERBLOCKS
        invariant
            i <= MAX_SUPERBLOCKS,
            p == (|i: int| !vfs@.superblocks[i].active),
            forall|j: int| 0 <= j < i ==> !#[trigger] p(j),
        decreases MAX_SUPERBLOCKS - i,
    {
        if !vfs.superblocks[i].active {
            proof {
                assert(p(i as int));
                search::lemma_first_is(MAX_SUPERBLOCKS as nat, p, i);
            }
            return Some(i);
        }
        i = i + 1;
    }
    proof {
        search::lemma_first_none(MAX_SUPERBLOCKS as nat, p);
    }
    None
}

/// Takes an inode that is not in use, and gives it the next number.
pub fn alloc_inode_slot(vfs: &mut Vfs) -> (r: Option<usize>)
    requires
        old(vfs).wf(),
        old(vfs).next_ino < u64::MAX,
    ensures
        final(vfs).wf(),
        r == old(vfs)@.free_inode(),
        match r {
            Some(i) => i < MAX_INODES && final(vfs)@ == (Tables {
                inodes: old(vfs)@.inodes.update(
                    i as int,
                    Inode {
                        active: true,
                        ino: old(vfs).next_ino,
                        ..old(vfs)@.inodes[i as int]
                    },
                ),
                next_ino: (old(vfs).next_ino + 1) as u64,
                ..old(vfs)@
            }),
            None => final(vfs)@ == old(vfs)@,
        },
{
    let ghost t = vfs@;
    let ghost p = |i: int| !t.inodes[i].active;
    let mut i: usize = 0;
    while i < MAX_INODES
        invariant
            i <= MAX_INODES,
            *vfs == *old(vfs),
            t == vfs@,
            vfs.wf(),
            vfs.next_ino < u64::MAX,
            p == (|i: int| !t.inodes[i].active),
            forall|j: int| 0 <= j < i ==> !#[trigger] p(j),
        decreases MAX_INODES - i,
    {
        if !vfs.inodes[i].active {
            proof {
                assert(p(i as int));
                search::lemma_first_is(MAX_INODES as nat, p, i);
            }
            vfs.inodes[i].active = true;
            vfs.inodes[i].ino = vfs.next_ino;
            vfs.next_ino = vfs.next_ino + 1;
            return Some(i);
        }
        i = i + 1;
    }
    proof {
        search::lemma_first_none(MAX_INODES as nat, p);
    }
    None
}

/// Finds a dentry that is not in use.
pub fn alloc_dentry(vfs: &Vfs) -> (r: Option<usize>)
    ensures
        r == vfs@.free_dentry(),
        r matches Some(i) ==> i < MAX_DENTRIES,
{
    let ghost p = |i: int| !vfs@.dentries[i].active;
    let mut i: usize = 0;
    while i < MAX_DENTRIES
        invariant
            i <= MAX_DENTRIES,
            p == (|i: int| !vfs@.dentries[i].active),
            forall|j: int| 0 <= j < i ==> !#[trigger] p(j),
        decreases MAX_DENTRIES - i,
    {
        if !vfs.dentries[i].active {
            proof {
                assert(p(i as int));
                search::lemma_first_is(MAX_DENTRIES as nat, p, i);
            }
            return Some(i);
        }
        i = i + 1;
    }
    proof {
        search::lemma_first_none(MAX_DENTRIES as nat, p);
    }
    None
}

/// A superblock that is in use.
pub fn get_superblock(vfs: &Vfs, idx: usize) -> (r: Option<&Superblock>)
    ensures
        r == (if idx < MAX_SUPERBLOCKS && vfs@.superblocks[idx as int].active {
            Some(&vfs@.superblocks[idx as int])
        } else {
            None
        }),
{
    if idx < MAX_SUPERBLOCKS && vfs.superblocks[idx].active {
        Some(&vfs.superblocks[idx])
    } else {
        None
    }
}

/// A superblock that is in use, to be changed.
pub fn get_superblock_mut(vfs: &mut Vfs, idx: usize) -> (r: Option<&mut Superblock>)
    ensures
        match r {
            Some(x) => {
                &&& idx < MAX_SUPERBLOCKS && old(vfs)@.superblocks[idx as int].active
                &&& *x == old(vfs)@.superblocks[idx as int]
                &&& final(vfs)@ == (Tables {
                    superblocks: old(vfs)@.superblocks.update(idx as int, *final(x)),
                    ..old(vfs)@
                })
            },
            None => {
                &&& idx >= MAX_SUPERBLOCKS || !old(vfs)@.superblocks[idx as int].active
                &&& final(vfs)@ == old(vfs)@
            },
        },
{
    if idx < MAX_SUPERBLOCKS && vfs.superblocks[idx].active {
        Some(&mut vfs.superblocks[idx])
    } else {
        None
    }
}

/// An inode that is in use.
pub fn get_inode(vfs: &Vfs, idx: usize) -> (r: Option<&Inode>)
    ensures
        r == (if idx < MAX_INODES && vfs@.inodes[idx as int].active {
            Some(&vfs@.inodes[idx as int])
        } else {
            None
        }),
{
    if idx < MAX_INODES && vfs.inodes[idx].active {
        Some(&vfs.inodes[idx])
    } else {
        None
    }
}

/// An inode that is in use, to be changed.
pub fn get_inode_mut(vfs: &mut Vfs, idx: usize) -> (r: Option<&mut Inode>)
    ensures
        match r {
            Some(x) => {
                &&& idx < MAX_INODES && old(vfs)@.inodes[idx as int].active
                &&& *x == old(vfs)@.inodes[idx as int]
                &&& final(vfs)@ == (Tables {
                    inodes: old(vfs)@.inodes.update(idx as int, *final(x)),
                    ..old(vfs)@
                })
            },
            None => {
                &&& idx >= MAX_INODES || !old(vfs)@.inodes[idx as int].active
                &&& final(vfs)@ == old(vfs)@
            },
        },
{
    if idx < MAX_INODES && vfs.inodes[idx].active {
        Some(&mut vfs.inodes[idx])
    } else {
        None
    }
}

/// A dentry that is in use.
pub fn get_dentry(vfs: &Vfs, idx: usize) -> (r: Option<&Dentry>)
    ensures
        r == (if idx < MAX_DENTRIES && vfs@.dentries[idx as int].active {
            Some(&vfs@.dentries[idx as int])
        } else {
            None
        }),
{
    if idx < MAX_DENTRIES && vfs.dentries[idx].active {
        Some(&vfs.dentries[idx])
    } else {
        None
    }
}

/// A dentry that is in use, to be changed.
pub fn get_dentry_mut(vfs: &mut Vfs, idx: usize) -> (r: Option<&mut Dentry>)
    ensures
        match r {
            Some(x) => {
                &&& idx < MAX_DENTRIES && old(vfs)@.dentries[idx as int].active
                &&& *x == old(vfs)@.dentries[idx as int]
                &&& final(vfs)@ == (Tables {
                    dentries: old(vfs)@.dentries.update(idx as int, *final(x)),
                    ..old(vfs)@
                })
            },
            None => {
                &&& idx >= MAX_DENTRIES || !old(vfs)@.dentries[idx as int].active
                &&& final(vfs)@ == old(vfs)@
            },
        },
{
    if idx < MAX_DENTRIES && vfs.dentries[idx].active {
        Some(&mut vfs.dentries[idx])
    } else {
        None
    }
}

impl SuperOps {
    /// Makes an inode. See `ramfs::ramfs_alloc_inode`.
    pub fn make_inode(&self, vfs: &mut Vfs, sb_idx: usize, itype: InodeType) -> (r: Option<usize>)
        requires
            old(vfs).wf(),
            old(vfs).next_ino < u64::MAX,
        ensures
            final(vfs).wf(),
            r == (if self.alloc_inode is Null {
                None
            } else {
                old(vfs)@.free_inode()
            }),
            match r {
                Some(i) => i < MAX_INODES && final(vfs)@ == old(vfs)@.with_inode(
                    i as int,
                    sb_idx,
                    itype,
                ),
                None => final(vfs)@ == old(vfs)@,
            },
    {
        match self.alloc_inode {
            Backend::Null => None,
            Backend::Ramfs => ramfs::ramfs_alloc_inode(vfs, sb_idx, itype),
        }
    }

    /// Gives an inode back. See `ramfs::ramfs_free_inode`.
    pub fn drop_inode(
        &self,
        vfs: &mut Vfs,
        frames: &mut FrameAllocator,
        sb_idx: usize,
        inode_idx: usize,
    )
        requires
            old(vfs).wf(),
            old(frames).wf(),
            inode_idx < MAX_INODES ==> old(vfs)@.inodes[inode_idx as int].data_page as int / 4096
                < crate::memory::phys::MAX_FRAMES,
        ensures
            final(vfs).wf(),
            final(frames).wf(),
            if self.free_inode is Ramfs && inode_idx < MAX_INODES
                && old(vfs)@.inodes[inode_idx as int].active {
                let n = old(vfs)@.inodes[inode_idx as int];
                &&& final(vfs)@ == (Tables {
                    inodes: old(vfs)@.inodes.update(
                        inode_idx as int,
                        Inode { active: false, data_page: 0, ..n },
                    ),
                    ..old(vfs)@
                })
                &&& final(frames)@ == (if n.data_page != 0 {
                    old(frames)@.release(n.data_page as int / 4096)
                } else {
                    old(frames)@
                })
            } else {
                final(vfs)@ == old(vfs)@ && final(frames)@ == old(frames)@
            },
    {
        match self.free_inode {
            Backend::Null => {},
            Backend::Ramfs => ramfs::ramfs_free_inode(vfs, frames, sb_idx, inode_idx),
        }
    }
}

impl InodeOps {
    /// Finds an entry of a directory. See `ramfs::ramfs_lookup`.
    pub fn find_entry(&self, vfs: &Vfs, dir_inode: usize, name: &[u8]) -> (r: Option<usize>)
        requires
            vfs.wf(),
        ensures
            r == match (self.lookup, vfs@.dentry_of(dir_inode)) {
                (Backend::Ramfs, Some(d)) => vfs@.child(d as int, name@),
                _ => None,
            },
    {
        match self.lookup {
            Backend::Null => None,
            Backend::Ramfs => ramfs::ramfs_lookup(vfs, dir_inode, name),
        }
    }

    /// Makes an entry in a directory. See `ramfs::ramfs_create`.
    pub fn make_entry(
        &self,
        vfs: &mut Vfs,
        frames: &mut FrameAllocator,
        bytes: &mut [u8],
        dir_inode: usize,
        name: &[u8],
        itype: InodeType,
    ) -> (r: Option<usize>)
        requires
            old(vfs).wf(),
            old(vfs).next_ino < u64::MAX,
            old(frames).wf(),
            paging::mem(old(frames), old(bytes)@).sane(),
            old(vfs)@.pages_in_ram(old(bytes)@.len() as int),
        ensures
            final(vfs).wf(),
            final(frames).wf(),
            paging::mem(final(frames), final(bytes)@).sane(),
            final(bytes)@.len() == old(bytes)@.len(),
            final(vfs)@.pages_in_ram(final(bytes)@.len() as int),
            entry_made(
                self.create,
                old(vfs)@,
                paging::mem(old(frames), old(bytes)@),
                dir_inode,
                name@,
                itype,
                final(vfs)@,
                paging::mem(final(frames), final(bytes)@),
                r,
            ),
            r matches Some(d) ==> d < MAX_DENTRIES,
    {
        match self.create {
            Backend::Null => None,
            Backend::Ramfs => ramfs::ramfs_create(vfs, frames, bytes, dir_inode, name, itype),
        }
    }
}

/// What making an entry does, by who carries it out.
pub open spec fn entry_made(
    by: Backend,
    t: Tables,
    m: Mem,
    dir: usize,
    name: Seq<u8>,
    itype: InodeType,
    t2: Tables,
    m2: Mem,
    r: Option<usize>,
) -> bool {
    match by {
        Backend::Null => r is None && t2 == t && m2 == m,
        Backend::Ramfs => ramfs::entry_created(t, m, dir, name, itype, t2, m2, r),
    }
}

impl Tables {
    /// The tables once a path is opened, and the descriptor. Nothing changes if
    /// there is no such file or no descriptor is free.
    pub open spec fn opened_at(self, path: Seq<u8>, mode: u32) -> (Tables, Option<usize>) {
        match (self.resolved(path), self.free_file()) {
            (Some(d), Some(f)) => (
                Tables {
                    files: self.files.update(
                        f as int,
                        File {
                            inode_idx: self.dentries[d as int].inode_idx,
                            offset: 0,
                            mode,
                            active: true,
                        },
                    ),
                    ..self
                },
                Some(f),
            ),
            _ => (self, None),
        }
    }

    /// The tables once a file is closed.
    pub open spec fn closed_at(self, fd: int) -> Tables {
        if 0 <= fd < MAX_OPEN_FILES {
            Tables {
                files: self.files.update(fd, File { active: false, ..self.files[fd] }),
                ..self
            }
        } else {
            self
        }
    }

    /// The tables once the position of a file is set. Nothing changes if it is
    /// not open.
    pub open spec fn sought(self, fd: int, offset: usize) -> Tables {
        if 0 <= fd < MAX_OPEN_FILES && self.files[fd].active {
            Tables {
                files: self.files.update(fd, File { offset, ..self.files[fd] }),
                ..self
            }
        } else {
            self
        }
    }
}

/// Opens the file that a path leads to, and returns its descriptor. `None` if
/// there is no such file or no descriptor is free.
pub fn open(vfs: &mut Vfs, path: &[u8], mode: u32) -> (r: Option<usize>)
    requires
        old(vfs).wf(),
    ensures
        final(vfs).wf(),
        (final(vfs)@, r) == old(vfs)@.opened_at(path@, mode),
        r matches Some(f) ==> f < MAX_OPEN_FILES,
{
    let dentry_idx: usize = match path_lookup(vfs, path) {
        Some(d) => d,
        None => {
            return None;
        },
    };
    let inode_idx: usize = match get_dentry(vfs, dentry_idx) {
        Some(d) => d.inode_idx,
        None => {
            return None;
        },
    };
    if get_inode(vfs, inode_idx).is_none() {
        return None;
    }
    let ghost t = vfs@;
    let ghost p = |i: int| !t.files[i].active;
    let mut i: usize = 0;
    while i < MAX_OPEN_FILES
        invariant
            i <= MAX_OPEN_FILES,
            *vfs == *old(vfs),
            t == vfs@,
            vfs.wf(),
            t.resolved(path@) == Some(dentry_idx),
            inode_idx == t.dentries[dentry_idx as int].inode_idx,
            p == (|i: int| !t.files[i].active),
            forall|j: int| 0 <= j < i ==> !#[trigger] p(j),
        decreases MAX_OPEN_FILES - i,
    {
        if !vfs.files[i].active {
            proof {
                assert(p(i as int));
                search::lemma_first_is(MAX_OPEN_FILES as nat, p, i);
            }
            vfs.files[i] = File { inode_idx, offset: 0, mode, active: true };
            return Some(i);
        }
        i = i + 1;
    }
    proof {
        search::lemma_first_none(MAX_OPEN_FILES as nat, p);
    }
    None
}

/// Reads from an open file, and moves it on by what was read. Returns the number
/// of bytes, -1 if the file is not open.
pub fn read(vfs: &mut Vfs, bytes: &[u8], fd: usize, buf: &mut [u8]) -> (r: isize)
    requires
        old(vfs).wf(),
        old(vfs)@.pages_in_ram(bytes@.len() as int),
    ensures
        final(vfs).wf(),
        final(vfs)@.pages_in_ram(bytes@.len() as int),
        final(buf)@.len() == old(buf)@.len(),
        -1 <= r <= old(buf)@.len(),
        match old(vfs)@.opened(fd as int) {
            None => r == -1 && final(vfs)@ == old(vfs)@ && final(buf)@ == old(buf)@,
            Some(i) => {
                let part = old(vfs)@.readable(
                    paging::bare(bytes@),
                    fd as int,
                    old(buf)@.len() as int,
                );
                &&& r == part.len()
                &&& final(buf)@ == ram::patched(old(buf)@, 0, part)
                &&& final(vfs)@ == old(vfs)@.advanced(fd as int, part.len() as int)
            },
        },
{
    if fd >= MAX_OPEN_FILES || !vfs.files[fd].active {
        return -1;
    }
    let inode_idx: usize = vfs.files[fd].inode_idx;
    let offset: usize = vfs.files[fd].offset;
    if inode_idx >= MAX_INODES || !vfs.inodes[inode_idx].active {
        return -1;
    }
    let n: isize = match vfs.inodes[inode_idx].file_ops.read {
        Backend::Null => {
            assert(buf@ =~= ram::patched(buf@, 0, Seq::<u8>::empty()));
            0
        },
        Backend::Ramfs => ramfs::ramfs_read(vfs, bytes, inode_idx, offset, buf),
    };
    if n > 0 {
        vfs.files[fd].offset = offset + n as usize;
    }
    assert(vfs@.files =~= old(vfs)@.advanced(fd as int, n as int).files);
    n
}

impl Tables {
    /// What a read of `n` bytes from an open file gives.
    pub open spec fn readable(self, m: Mem, fd: int, n: int) -> Seq<u8> {
        let i = self.files[fd].inode_idx as int;
        match self.inodes[i].file_ops.read {
            Backend::Null => Seq::empty(),
            Backend::Ramfs => ramfs::read_part(
                self.content(m, i),
                self.files[fd].offset as int,
                n,
            ),
        }
    }

    /// The tables, the memory and the result after a write: -1 if the file is
    /// not open.
    pub open spec fn written_to(self, m: Mem, fd: int, data: Seq<u8>) -> (Tables, Mem, isize) {
        if self.opened(fd) is None {
            (self, m, -1isize)
        } else {
            self.wrote(m, fd, data)
        }
    }

    /// The tables, the memory and the result after a write to an open file.
    pub open spec fn wrote(self, m: Mem, fd: int, data: Seq<u8>) -> (Tables, Mem, isize) {
        let i = self.files[fd].inode_idx as int;
        match self.inodes[i].file_ops.write {
            Backend::Null => (self, m, 0),
            Backend::Ramfs => {
                let (t, w, n) = ramfs::written(self, m, i, self.files[fd].offset as int, data);
                if n > 0 {
                    (t.advanced(fd, n as int), w, n)
                } else {
                    (t, w, n)
                }
            },
        }
    }
}

/// Writes to an open file, and moves it on by what was written. Returns the
/// number of bytes, -1 if the file is not open or there is no memory for it.
pub fn write(
    vfs: &mut Vfs,
    frames: &mut FrameAllocator,
    bytes: &mut [u8],
    fd: usize,
    data: &[u8],
) -> (r: isize)
    requires
        old(vfs).wf(),
        old(frames).wf(),
        paging::mem(old(frames), old(bytes)@).sane(),
        old(vfs)@.pages_in_ram(old(bytes)@.len() as int),
    ensures
        final(vfs).wf(),
        final(frames).wf(),
        paging::mem(final(frames), final(bytes)@).sane(),
        final(bytes)@.len() == old(bytes)@.len(),
        final(vfs)@.pages_in_ram(final(bytes)@.len() as int),
        -1 <= r <= data@.len(),
        (final(vfs)@, paging::mem(final(frames), final(bytes)@), r) == old(vfs)@.written_to(
            paging::mem(old(frames), old(bytes)@),
            fd as int,
            data@,
        ),
{
    if fd >= MAX_OPEN_FILES || !vfs.files[fd].active {
        return -1;
    }
    let inode_idx: usize = vfs.files[fd].inode_idx;
    let offset: usize = vfs.files[fd].offset;
    if inode_idx >= MAX_INODES || !vfs.inodes[inode_idx].active {
        return -1;
    }
    let n: isize = match vfs.inodes[inode_idx].file_ops.write {
        Backend::Null => 0,
        Backend::Ramfs => ramfs::ramfs_write(vfs, frames, bytes, inode_idx, offset, data),
    };
    let ghost t = vfs@;
    if n > 0 {
        vfs.files[fd].offset = offset + n as usize;
        assert(vfs@.files =~= t.advanced(fd as int, n as int).files);
    }
    n
}

/// Closes a file.
pub fn close(vfs: &mut Vfs, fd: usize)
    requires
        old(vfs).wf(),
    ensures
        final(vfs).wf(),
        final(vfs)@ == old(vfs)@.closed_at(fd as int),
{
    if fd < MAX_OPEN_FILES {
        vfs.files[fd].active = false;
    }
}

/// Sets where the next read or write of a file starts. Returns whether the file
/// is open.
pub fn seek(vfs: &mut Vfs, fd: usize, offset: usize) -> (r: bool)
    requires
        old(vfs).wf(),
    ensures
        final(vfs).wf(),
        r == (fd < MAX_OPEN_FILES && old(vfs)@.files[fd as int].active),
        final(vfs)@ == old(vfs)@.sought(fd as int, offset),
{
    if fd >= MAX_OPEN_FILES || !vfs.files[fd].active {
        return false;
    }
    vfs.files[fd].offset = offset;
    true
}

/// What `create` does to tables `t` and memory `m`: they become `t2` and `m2`,
/// and `r` is returned.
pub open spec fn created(
    t: Tables,
    m: Mem,
    parent_path: Seq<u8>,
    name: Seq<u8>,
    itype: InodeType,
    t2: Tables,
    m2: Mem,
    r: Option<usize>,
) -> bool {
    match t.resolved(parent_path) {
        Some(d) => {
            let i = t.dentries[d as int].inode_idx;
            if t.inodes[i as int].itype == InodeType::Directory {
                entry_made(t.inodes[i as int].inode_ops.create, t, m, i, name, itype, t2, m2, r)
            } else {
                r is None && t2 == t && m2 == m
            }
        },
        None => r is None && t2 == t && m2 == m,
    }
}

/// Makes a file or a directory in the directory that a path leads to, and
/// returns its dentry. `None` if there is no such directory or a table is full.
pub fn create(
    vfs: &mut Vfs,
    frames: &mut FrameAllocator,
    bytes: &mut [u8],
    parent_path: &[u8],
    name: &[u8],
    itype: InodeType,
) -> (r: Option<usize>)
    requires
        old(vfs).wf(),
        old(vfs).next_ino < u64::MAX,
        old(frames).wf(),
        paging::mem(old(frames), old(bytes)@).sane(),
        old(vfs)@.pages_in_ram(old(bytes)@.len() as int),
    ensures
        final(vfs).wf(),
        final(frames).wf(),
        paging::mem(final(frames), final(bytes)@).sane(),
        final(bytes)@.len() == old(bytes)@.len(),
        final(vfs)@.pages_in_ram(final(bytes)@.len() as int),
        r matches Some(d) ==> d < MAX_DENTRIES,
        created(
            old(vfs)@,
            paging::mem(old(frames), old(bytes)@),
            parent_path@,
            name@,
            itype,
            final(vfs)@,
            paging::mem(final(frames), final(bytes)@),
            r,
        ),
{
    let dentry_idx: usize = match path_lookup(vfs, parent_path) {
        Some(d) => d,
        None => {
            return None;
        },
    };
    let inode_idx: usize = match get_dentry(vfs, dentry_idx) {
        Some(d) => d.inode_idx,
        None => {
            return None;
        },
    };
    let inode: Inode = match get_inode(vfs, inode_idx) {
        Some(i) => *i,
        None => {
            return None;
        },
    };
    if inode.itype != InodeType::Directory {
        return None;
    }
    inode.inode_ops.make_entry(vfs, frames, bytes, inode_idx, name, itype)
}

/// Starts the file system afresh, with the RAM file system as its root.
pub fn init(vfs: &mut Vfs)
    ensures
        final(vfs).wf(),
        ramfs::is_fresh(final(vfs)@),
{
    ramfs::init(vfs);
}

} // verus!
