//! Files as `nt_create_file` opens and makes them: what a disposition asks for,
//! and what that does to the file system.

use vstd::prelude::*;
use crate::kernel::{Kernel, World};
use crate::memory::paging::Mem;
use crate::memory::ram;
use crate::search;
use crate::vfs;
use crate::vfs::{Inode, InodeType, Tables, MAX_INODES, MAX_NAME_LEN, SLASH};
use super::error::{
    STATUS_FILE_IS_A_DIRECTORY, STATUS_INSUFFICIENT_RESOURCES, STATUS_INVALID_PARAMETER,
    STATUS_OBJECT_NAME_COLLISION, STATUS_OBJECT_NAME_INVALID, STATUS_OBJECT_NAME_NOT_FOUND,
    STATUS_OBJECT_PATH_NOT_FOUND, STATUS_SUCCESS,
};
use super::object::{ObjectBody, OBJECT_PATH_SIZE};
use super::types::{ACCESS_MASK, DWORD};

verus! {

/// Takes the place of a file that exists; makes one that does not.
pub const FILE_SUPERSEDE: DWORD = 0;

/// Opens a file that exists.
pub const FILE_OPEN: DWORD = 1;

/// Makes a file that does not exist.
pub const FILE_CREATE: DWORD = 2;

/// Opens a file that exists; makes one that does not.
pub const FILE_OPEN_IF: DWORD = 3;

/// Opens a file that exists and empties it.
pub const FILE_OVERWRITE: DWORD = 4;

/// Opens a file that exists and empties it; makes one that does not.
pub const FILE_OVERWRITE_IF: DWORD = 5;

/// What is done about a file.
#[derive(Debug, Clone, Copy, PartialEq, Eq, Structural)]
pub enum FileAction {
    /// It stays as it is.
    Keep,
    /// It is made.
    Make,
    /// Its data goes.
    Empty,
    /// A new file takes its place.
    Replace,
    /// Nothing is done: the request fails with a status.
    Refuse(u32),
}

/// What a disposition asks for, given what is found under the name of the file.
pub open spec fn action_of(disposition: DWORD, found: Option<InodeType>) -> FileAction {
    if disposition > FILE_OVERWRITE_IF {
        FileAction::Refuse(STATUS_INVALID_PARAMETER)
    } else {
        match found {
            None => if disposition == FILE_OPEN || disposition == FILE_OVERWRITE {
                FileAction::Refuse(STATUS_OBJECT_NAME_NOT_FOUND)
            } else {
                FileAction::Make
            },
            Some(itype) => if disposition == FILE_CREATE {
                FileAction::Refuse(STATUS_OBJECT_NAME_COLLISION)
            } else if disposition == FILE_OPEN || disposition == FILE_OPEN_IF {
                FileAction::Keep
            } else if itype != InodeType::File {
                FileAction::Refuse(STATUS_FILE_IS_A_DIRECTORY)
            } else if disposition == FILE_SUPERSEDE {
                FileAction::Replace
            } else {
                FileAction::Empty
            },
        }
    }
}

/// What a disposition asks for. See `action_of`.
pub fn file_action(disposition: DWORD, found: Option<InodeType>) -> (r: FileAction)
    ensures
        r == action_of(disposition, found),
{
    if disposition > FILE_OVERWRITE_IF {
        return FileAction::Refuse(STATUS_INVALID_PARAMETER);
    }
    match found {
        None => {
            if disposition == FILE_OPEN || disposition == FILE_OVERWRITE {
                FileAction::Refuse(STATUS_OBJECT_NAME_NOT_FOUND)
            } else {
                FileAction::Make
            }
        },
        Some(itype) => {
            if disposition == FILE_CREATE {
                FileAction::Refuse(STATUS_OBJECT_NAME_COLLISION)
            } else if disposition == FILE_OPEN || disposition == FILE_OPEN_IF {
                FileAction::Keep
            } else if itype != InodeType::File {
                FileAction::Refuse(STATUS_FILE_IS_A_DIRECTORY)
            } else if disposition == FILE_SUPERSEDE {
                FileAction::Replace
            } else {
                FileAction::Empty
            }
        },
    }
}

/// The inode that a path leads to.
pub open spec fn inode_at(t: Tables, path: Seq<u8>) -> Option<int> {
    match t.resolved(path) {
        Some(d) => Some(t.dentries[d as int].inode_idx as int),
        None => None,
    }
}

/// What is found under a path.
pub open spec fn found_at(t: Tables, path: Seq<u8>) -> Option<InodeType> {
    match inode_at(t, path) {
        Some(i) => Some(t.inodes[i].itype),
        None => None,
    }
}

/// How many bytes a path takes up to and including its last slash.
pub open spec fn dir_len(path: Seq<u8>) -> nat
    decreases path.len(),
{
    if path.len() == 0 {
        0
    } else if path.last() == SLASH {
        path.len()
    } else {
        dir_len(path.drop_last())
    }
}

/// The part of a path that names the directory, with the slash behind it.
pub open spec fn dir_of(path: Seq<u8>) -> Seq<u8> {
    path.subrange(0, dir_len(path) as int)
}

/// The part of a path that names the entry of the directory.
pub open spec fn entry_of(path: Seq<u8>) -> Seq<u8> {
    path.subrange(dir_len(path) as int, path.len() as int)
}

/// The last slash of a path is where `dir_len` says.
pub proof fn lemma_dir_len(path: Seq<u8>)
    ensures
        dir_len(path) <= path.len(),
        dir_len(path) > 0 ==> path[dir_len(path) - 1] == SLASH,
        forall|i: int| dir_len(path) <= i < path.len() ==> path[i] != SLASH,
    decreases path.len(),
{
    if path.len() > 0 && path.last() != SLASH {
        lemma_dir_len(path.drop_last());
        assert forall|i: int| dir_len(path) <= i < path.len() implies path[i] != SLASH by {
            if i < path.len() - 1 {
                assert(path.drop_last()[i] == path[i]);
            }
        }
    }
}

/// The tables and the memory once the file of inode `i` is empty.
pub open spec fn emptied(t: Tables, m: Mem, i: int) -> (Tables, Mem) {
    let n = t.inodes[i];
    (
        Tables { inodes: t.inodes.update(i, Inode { size: 0, data_size: 0, ..n }), ..t },
        Mem {
            bytes: if n.data_page != 0 {
                ram::filled(m.bytes, n.data_page as int, 4096, 0)
            } else {
                m.bytes
            },
            frames: m.frames,
        },
    )
}

/// The tables and the memory once a new file has taken the place of that of inode
/// `i`: it is empty and has a number of its own.
pub open spec fn replaced(t: Tables, m: Mem, i: int) -> (Tables, Mem) {
    let (t1, m1) = emptied(t, m, i);
    (
        Tables {
            inodes: t1.inodes.update(i, Inode { ino: t.next_ino, ..t1.inodes[i] }),
            next_ino: (t.next_ino + 1) as u64,
            ..t1
        },
        m1,
    )
}

/// Why a file cannot be made, `STATUS_SUCCESS` if it can: its name is empty or too
/// long, there is no such directory, or the tables are full.
pub open spec fn making_fails(t: Tables, path: Seq<u8>) -> u32 {
    let name = entry_of(path);
    if name.len() == 0 || name.len() >= MAX_NAME_LEN {
        STATUS_OBJECT_NAME_INVALID
    } else if found_at(t, dir_of(path)) != Some(InodeType::Directory) {
        STATUS_OBJECT_PATH_NOT_FOUND
    } else if t.next_ino == u64::MAX || t.free_inode() is None || t.free_dentry() is None
        || t.inodes[inode_at(t, dir_of(path))->0].inode_ops.create is Null {
        STATUS_INSUFFICIENT_RESOURCES
    } else {
        STATUS_SUCCESS
    }
}

/// What an action leaves of the file system, and its status. Where it fails,
/// nothing changes.
pub open spec fn acted(w: World, path: Seq<u8>, action: FileAction, w2: World, status: u32) -> bool {
    match action {
        FileAction::Refuse(s) => status == s && w2 == w,
        FileAction::Keep => status == STATUS_SUCCESS && w2 == w,
        FileAction::Empty => {
            let (t, m) = emptied(w.vfs, w.mem, inode_at(w.vfs, path)->0);
            status == STATUS_SUCCESS && w2 == (World { vfs: t, mem: m, ..w })
        },
        FileAction::Replace => if w.vfs.next_ino == u64::MAX {
            status == STATUS_INSUFFICIENT_RESOURCES && w2 == w
        } else {
            let (t, m) = replaced(w.vfs, w.mem, inode_at(w.vfs, path)->0);
            status == STATUS_SUCCESS && w2 == (World { vfs: t, mem: m, ..w })
        },
        FileAction::Make => {
            &&& status == making_fails(w.vfs, path)
            &&& if status == STATUS_SUCCESS {
                &&& w2 == (World { vfs: w2.vfs, mem: w2.mem, ..w })
                &&& vfs::created(
                    w.vfs,
                    w.mem,
                    dir_of(path),
                    entry_of(path),
                    InodeType::File,
                    w2.vfs,
                    w2.mem,
                    w.vfs.free_dentry(),
                )
            } else {
                w2 == w
            }
        },
    }
}

/// Finds the inode that a path leads to.
pub fn find_inode(k: &Kernel, path: &[u8]) -> (r: Option<usize>)
    requires
        k.vfs.wf(),
    ensures
        match r {
            Some(i) => i < MAX_INODES && inode_at(k.vfs@, path@) == Some(i as int),
            None => inode_at(k.vfs@, path@) is None,
        },
{
    let d: usize = match vfs::path_lookup(&k.vfs, path) {
        Some(d) => d,
        None => {
            return None;
        },
    };
    let i: usize = match vfs::get_dentry(&k.vfs, d) {
        Some(e) => e.inode_idx,
        None => {
            return None;
        },
    };
    if vfs::get_inode(&k.vfs, i).is_none() {
        return None;
    }
    Some(i)
}

/// Empties the file of inode `i`.
fn empty_file(k: &mut Kernel, bytes: &mut [u8], i: usize)
    requires
        old(k).wf(old(bytes)@),
        i < MAX_INODES,
    ensures
        final(k).wf(final(bytes)@),
        final(bytes)@.len() == old(bytes)@.len(),
        ({
            let w = old(k).world(old(bytes)@);
            let (t, m) = emptied(w.vfs, w.mem, i as int);
            final(k).world(final(bytes)@) == (World { vfs: t, mem: m, ..w })
        }),
        final(k).vfs.next_ino == old(k).vfs.next_ino,
{
    let mut n: Inode = k.vfs.inodes[i];
    assert(k.vfs@.inodes[i as int] == n);
    if n.data_page != 0 {
        ram::fill(bytes, n.data_page, 4096, 0);
    }
    n.size = 0;
    n.data_size = 0;
    k.vfs.inodes[i] = n;
    proof {
        let w = old(k).world(old(bytes)@);
        let (t, m) = emptied(w.vfs, w.mem, i as int);
        assert(k.vfs@ =~= t);
        assert(k.world(bytes@) =~= (World { vfs: t, mem: m, ..w }));
        assert forall|j: int| 0 <= j < MAX_INODES implies (#[trigger] t.inodes[j]).data_size <= 4096
            && (t.inodes[j].data_page != 0 ==> t.inodes[j].data_page + 4096 <= bytes@.len()) by {
            assert(old(k).vfs@.inodes[j].data_size <= 4096);
        }
    }
}

/// Makes the file of a path. See `making_fails`.
fn make_file(k: &mut Kernel, bytes: &mut [u8], path: &[u8]) -> (status: u32)
    requires
        old(k).wf(old(bytes)@),
    ensures
        final(k).wf(final(bytes)@),
        final(bytes)@.len() == old(bytes)@.len(),
        acted(
            old(k).world(old(bytes)@),
            path@,
            FileAction::Make,
            final(k).world(final(bytes)@),
            status,
        ),
{
    proof {
        lemma_dir_len(path@);
    }
    let mut n: usize = path.len();
    assert(path@.subrange(0, n as int) =~= path@);
    while n > 0 && path[n - 1] != SLASH
        invariant
            n <= path.len(),
            dir_len(path@) == dir_len(path@.subrange(0, n as int)),
        decreases n,
    {
        n = n - 1;
        assert(path@.subrange(0, n + 1).drop_last() =~= path@.subrange(0, n as int));
    }
    assert(dir_len(path@) == n) by {
        if n > 0 {
            assert(path@.subrange(0, n as int).last() == SLASH);
        }
    }
    let dir: &[u8] = vstd::slice::slice_subrange(path, 0, n);
    let name: &[u8] = vstd::slice::slice_subrange(path, n, path.len());
    if name.len() == 0 || name.len() >= MAX_NAME_LEN {
        return STATUS_OBJECT_NAME_INVALID;
    }
    let parent: usize = match find_inode(k, dir) {
        Some(i) => i,
        None => {
            return STATUS_OBJECT_PATH_NOT_FOUND;
        },
    };
    if k.vfs.inodes[parent].itype != InodeType::Directory {
        return STATUS_OBJECT_PATH_NOT_FOUND;
    }
    let full: bool = k.vfs.next_ino == u64::MAX || !has_free_inode(k) || vfs::alloc_dentry(
        &k.vfs,
    ).is_none();
    if full {
        return STATUS_INSUFFICIENT_RESOURCES;
    }
    match k.vfs.inodes[parent].inode_ops.create {
        vfs::Backend::Null => {
            return STATUS_INSUFFICIENT_RESOURCES;
        },
        vfs::Backend::Ramfs => {},
    }
    let _made: Option<usize> = vfs::create(
        &mut k.vfs,
        &mut k.frames,
        bytes,
        dir,
        name,
        InodeType::File,
    );
    STATUS_SUCCESS
}

/// Whether an inode is free.
fn has_free_inode(k: &Kernel) -> (r: bool)
    ensures
        r == (k.vfs@.free_inode() is Some),
{
    let ghost t = k.vfs@;
    let ghost p = |i: int| !t.inodes[i].active;
    let mut i: usize = 0;
    while i < MAX_INODES
        invariant
            i <= MAX_INODES,
            t == k.vfs@,
            p == (|i: int| !t.inodes[i].active),
            forall|j: int| 0 <= j < i ==> !#[trigger] p(j),
        decreases MAX_INODES - i,
    {
        if !k.vfs.inodes[i].active {
            proof {
                assert(p(i as int));
                search::lemma_first_is(MAX_INODES as nat, p, i);
            }
            return true;
        }
        i = i + 1;
    }
    proof {
        search::lemma_first_none(MAX_INODES as nat, p);
    }
    false
}

/// Does about the file of a path what was decided. Returns the status. See
/// `acted`.
pub fn act(k: &mut Kernel, bytes: &mut [u8], path: &[u8], action: FileAction) -> (status: u32)
    requires
        old(k).wf(old(bytes)@),
        action == FileAction::Empty || action == FileAction::Replace ==> inode_at(
            old(k).vfs@,
            path@,
        ) is Some,
    ensures
        final(k).wf(final(bytes)@),
        final(bytes)@.len() == old(bytes)@.len(),
        acted(
            old(k).world(old(bytes)@),
            path@,
            action,
            final(k).world(final(bytes)@),
            status,
        ),
{
    match action {
        FileAction::Refuse(s) => s,
        FileAction::Keep => STATUS_SUCCESS,
        FileAction::Make => make_file(k, bytes, path),
        FileAction::Empty => {
            match find_inode(k, path) {
                Some(i) => {
                    empty_file(k, bytes, i);
                },
                None => {},
            }
            STATUS_SUCCESS
        },
        FileAction::Replace => {
            if k.vfs.next_ino == u64::MAX {
                return STATUS_INSUFFICIENT_RESOURCES;
            }
            match find_inode(k, path) {
                Some(i) => {
                    empty_file(k, bytes, i);
                    let ghost w1 = k.world(bytes@);
                    let ino: u64 = k.vfs.next_ino;
                    k.vfs.inodes[i].ino = ino;
                    k.vfs.next_ino = ino + 1;
                    proof {
                        let w = old(k).world(old(bytes)@);
                        let (t, m) = replaced(w.vfs, w.mem, i as int);
                        assert(k.vfs@ =~= t);
                        assert forall|j: int| 0 <= j < MAX_INODES implies (
                        #[trigger] t.inodes[j]).data_size <= 4096 && (t.inodes[j].data_page != 0
                            ==> t.inodes[j].data_page + 4096 <= bytes@.len()) by {
                            assert(w1.vfs.inodes[j].data_size <= 4096);
                        }
                        assert(k.world(bytes@) =~= (World { vfs: t, mem: m, ..w }));
                    }
                },
                None => {},
            }
            STATUS_SUCCESS
        },
    }
}

/// The body of a file object: the path, cut to what fits, and how large the file
/// is.
pub open spec fn is_file_body(b: ObjectBody, path: Seq<u8>, access: ACCESS_MASK, size: u64) -> bool {
    let len = if path.len() < OBJECT_PATH_SIZE {
        path.len() as int
    } else {
        OBJECT_PATH_SIZE as int
    };
    match b {
        ObjectBody::File { path: kept, path_len, position, access: a, size: s } => {
            &&& kept@ == Seq::new(
                OBJECT_PATH_SIZE as nat,
                |i: int|
                    if i < len {
                        path[i]
                    } else {
                        0
                    },
            )
            &&& path_len == len
            &&& position == 0
            &&& a == access
            &&& s == size
        },
        _ => false,
    }
}

/// Makes the body of a file object. See `is_file_body`.
pub fn file_body(path: &[u8], access: ACCESS_MASK, size: u64) -> (r: ObjectBody)
    ensures
        is_file_body(r, path@, access, size),
{
    let len: usize = if path.len() < OBJECT_PATH_SIZE {
        path.len()
    } else {
        OBJECT_PATH_SIZE
    };
    let mut kept: [u8; OBJECT_PATH_SIZE] = [0u8; OBJECT_PATH_SIZE];
    let mut i: usize = 0;
    while i < len
        invariant
            i <= len,
            len <= path.len(),
            len <= OBJECT_PATH_SIZE,
            forall|j: int| 0 <= j < i ==> kept@[j] == path@[j],
            forall|j: int| i <= j < OBJECT_PATH_SIZE ==> kept@[j] == 0,
        decreases len - i,
    {
        kept[i] = path[i];
        i = i + 1;
    }
    assert(kept@ =~= Seq::new(
        OBJECT_PATH_SIZE as nat,
        |i: int|
            if i < len {
                path@[i]
            } else {
                0
            },
    ));
    ObjectBody::File { path: kept, path_len: len, position: 0, access, size }
}

/// How large the file of a path is, 0 if there is none.
pub open spec fn size_at(t: Tables, path: Seq<u8>) -> u64 {
    match inode_at(t, path) {
        Some(i) => t.inodes[i].size as u64,
        None => 0,
    }
}

/// A file that was opened or made is there afterwards, under its path, whatever
/// the disposition was; a new one, one that was emptied and one that took the
/// place of another are empty.
pub proof fn law_file_is_there_afterwards(
    w: World,
    path: Seq<u8>,
    disposition: DWORD,
    w2: World,
    status: u32,
)
    requires
        vfs::laws::tree(w.vfs),
        acted(w, path, action_of(disposition, found_at(w.vfs, path)), w2, status),
        status == STATUS_SUCCESS,
    ensures
        found_at(w2.vfs, path) is Some,
        disposition != FILE_OPEN && disposition != FILE_OPEN_IF ==> found_at(w2.vfs, path) == Some(
            InodeType::File,
        ) && size_at(w2.vfs, path) == 0,
{
    let action = action_of(disposition, found_at(w.vfs, path));
    match action {
        FileAction::Make => {
            lemma_made_is_found(w, path, w2);
        },
        FileAction::Empty | FileAction::Replace => {
            let t = w.vfs;
            let t2 = w2.vfs;
            assert(t2.dentries == t.dentries);
            lemma_same_names(t, t2, path);
        },
        _ => {},
    }
}

/// Paths lead to the same names where the tables have the same names.
proof fn lemma_same_names(t: Tables, t2: Tables, path: Seq<u8>)
    requires
        t2.dentries == t.dentries,
    ensures
        t2.found(path) == t.found(path),
{
    lemma_same_walk(t, t2, 0, vfs::components(path));
}

proof fn lemma_same_walk(t: Tables, t2: Tables, d: usize, names: Seq<Seq<u8>>)
    requires
        t2.dentries == t.dentries,
    ensures
        t2.walk(d, names) == t.walk(d, names),
    decreases names.len(),
{
    if names.len() > 0 {
        search::lemma_first_same(
            vfs::MAX_DENTRIES as nat,
            |i: int| t.is_child(i, d as int, names[0]),
            |i: int| t2.is_child(i, d as int, names[0]),
        );
        match t.child(d as int, names[0]) {
            Some(c) => {
                lemma_same_walk(t, t2, c, names.subrange(1, names.len() as int));
            },
            None => {},
        }
    }
}

/// A file that was made is found under its path.
proof fn lemma_made_is_found(w: World, path: Seq<u8>, w2: World)
    requires
        vfs::laws::tree(w.vfs),
        found_at(w.vfs, path) is None,
        acted(w, path, FileAction::Make, w2, STATUS_SUCCESS),
    ensures
        found_at(w2.vfs, path) == Some(InodeType::File),
        size_at(w2.vfs, path) == 0,
{
    let t = w.vfs;
    let t2 = w2.vfs;
    let dir = dir_of(path);
    let name = entry_of(path);
    lemma_dir_len(path);
    assert(dir.len() > 0);
    let bare = path.subrange(0, dir_len(path) - 1);
    assert(dir =~= bare.push(SLASH));
    assert(path =~= vfs::laws::joined(bare, name));
    assert(vfs::laws::plain(name));
    vfs::laws::law_trailing_slash_changes_nothing(bare);
    vfs::laws::law_path_leads_into_directories(t, bare, name);
    vfs::laws::law_path_leads_into_directories(t2, bare, name);
    vfs::laws::law_path_leads_into_directories(t2, dir, name);
    let d = t.resolved(dir)->0;
    assert(t.walk(0, vfs::components(bare)) == Some(d));
    assert(t.child(d as int, name) is None) by {
        if t.child(d as int, name) is Some {
            let c = t.child(d as int, name)->0;
            search::lemma_first(
                vfs::MAX_DENTRIES as nat,
                |i: int| t.is_child(i, d as int, name),
            );
            assert(t.dentries[c as int].active);
            assert(t.found(path) == Some(c));
        }
    }
    let new = t.free_dentry()->0;
    vfs::laws::law_created_entry_is_found(
        t,
        w.mem,
        dir,
        name,
        InodeType::File,
        t2,
        w2.mem,
        new,
    );
    assert(t2.found(path) == t2.found(vfs::laws::joined(dir, name)));
    let i = t.free_inode()->0 as int;
    search::lemma_first(vfs::MAX_INODES as nat, |k: int| !t.inodes[k].active);
    assert(t2.inodes[i].size == 0);
}

} // verus!
