//! What the operations of the file system mean together: names lead to what was
//! created under them, reads give back what was written, and files do not share
//! their data.

use vstd::prelude::*;
use crate::memory::paging::space;
use crate::memory::paging::Mem;
use crate::memory::ram;
use crate::memory::PAGE_SIZE;
use crate::search;
use super::ramfs;
use super::{
    Backend, Dentry, File, InodeType, Tables, MAX_DENTRIES, MAX_INODES, MAX_NAME_LEN,
    MAX_OPEN_FILES, SLASH,
};

verus! {

/// A name that a path can hold: not empty, without a slash.
pub open spec fn plain(name: Seq<u8>) -> bool {
    name.len() > 0 && forall|i: int| 0 <= i < name.len() ==> name[i] != SLASH
}

/// A path followed by a slash and a name.
pub open spec fn joined(path: Seq<u8>, name: Seq<u8>) -> Seq<u8> {
    path + seq![SLASH] + name
}

proof fn lemma_components_plain(name: Seq<u8>)
    requires
        plain(name),
    ensures
        super::components(name) == seq![name],
{
    super::lemma_head_len(name, name.len() as int);
    assert(name.subrange(0, name.len() as int) =~= name);
    assert(name.subrange(name.len() as int, name.len() as int) =~= Seq::empty());
    assert(super::components(Seq::<u8>::empty()) =~= Seq::empty());
    assert(super::components(name) =~= seq![name]);
}

/// A name behind a path adds one component.
proof fn lemma_components_joined(path: Seq<u8>, name: Seq<u8>)
    requires
        plain(name),
    ensures
        super::components(joined(path, name)) == super::components(path) + seq![name],
    decreases path.len(),
{
    let whole = joined(path, name);
    if path.len() == 0 {
        assert(whole.subrange(1, whole.len() as int) =~= name);
        lemma_components_plain(name);
        assert(super::components(whole) =~= super::components(path) + seq![name]);
    } else if path[0] == SLASH {
        let rest = path.subrange(1, path.len() as int);
        lemma_components_joined(rest, name);
        assert(whole.subrange(1, whole.len() as int) =~= joined(rest, name));
    } else {
        let n = super::head_len(path) as int;
        lemma_head_is_plain(path);
        assert forall|i: int| 0 <= i < n implies whole[i] != SLASH by {
            assert(whole[i] == path[i]);
        }
        assert(n == path.len() ==> whole[n] == SLASH);
        assert(n < path.len() ==> whole[n] == path[n]);
        super::lemma_head_len(whole, n);
        let rest = path.subrange(n, path.len() as int);
        lemma_components_joined(rest, name);
        assert(whole.subrange(0, n) =~= path.subrange(0, n));
        assert(whole.subrange(n, whole.len() as int) =~= joined(rest, name));
        assert(super::components(whole) =~= super::components(path) + seq![name]);
    }
}

proof fn lemma_head_is_plain(path: Seq<u8>)
    ensures
        super::head_len(path) <= path.len(),
        forall|i: int| 0 <= i < super::head_len(path) ==> path[i] != SLASH,
        super::head_len(path) < path.len() ==> path[super::head_len(path) as int] == SLASH,
    decreases path.len(),
{
    if path.len() > 0 && path[0] != SLASH {
        let rest = path.subrange(1, path.len() as int);
        lemma_head_is_plain(rest);
        let n = super::head_len(path) as int;
        assert forall|i: int| 0 <= i < n implies path[i] != SLASH by {
            if i > 0 {
                assert(rest[i - 1] == path[i]);
            }
        }
        if n < path.len() {
            assert(rest[n - 1] == path[n]);
        }
    }
}

/// A walk along two lists of names is a walk along the first and from there
/// along the second.
proof fn lemma_walk_on(t: Tables, d: usize, names: Seq<Seq<u8>>, name: Seq<u8>)
    ensures
        t.walk(d, names + seq![name]) == match t.walk(d, names) {
            Some(e) => t.child(e as int, name),
            None => None,
        },
    decreases names.len(),
{
    let all = names + seq![name];
    if names.len() == 0 {
        assert(all.subrange(1, all.len() as int) =~= Seq::empty());
        assert(all[0] == name);
        match t.child(d as int, name) {
            Some(c) => {
                assert(t.walk(c, Seq::empty()) == Some(c));
            },
            None => {},
        }
    } else {
        let rest = names.subrange(1, names.len() as int);
        assert(all[0] == names[0]);
        assert(all.subrange(1, all.len() as int) =~= rest + seq![name]);
        match t.child(d as int, names[0]) {
            Some(c) => {
                lemma_walk_on(t, c, rest, name);
            },
            None => {},
        }
    }
}

/// A path followed by a slash and a name leads to the entry of that name in the
/// directory that the path leads to; without a path that is the root.
pub proof fn law_path_leads_into_directories(t: Tables, path: Seq<u8>, name: Seq<u8>)
    requires
        plain(name),
    ensures
        t.found(joined(path, name)) == match t.walk(0, super::components(path)) {
            Some(d) => t.child(d as int, name),
            None => None,
        },
{
    lemma_components_joined(path, name);
    lemma_walk_on(t, 0, super::components(path), name);
}

/// A slash behind a path changes nothing about where it leads.
pub proof fn law_trailing_slash_changes_nothing(path: Seq<u8>)
    ensures
        super::components(path.push(SLASH)) == super::components(path),
    decreases path.len(),
{
    let whole = path.push(SLASH);
    if path.len() == 0 {
        assert(whole.subrange(1, whole.len() as int) =~= path);
    } else if path[0] == SLASH {
        let rest = path.subrange(1, path.len() as int);
        law_trailing_slash_changes_nothing(rest);
        assert(whole.subrange(1, whole.len() as int) =~= rest.push(SLASH));
    } else {
        let n = super::head_len(path) as int;
        lemma_head_is_plain(path);
        assert forall|i: int| 0 <= i < n implies whole[i] != SLASH by {
            assert(whole[i] == path[i]);
        }
        super::lemma_head_len(whole, n);
        let rest = path.subrange(n, path.len() as int);
        law_trailing_slash_changes_nothing(rest);
        assert(whole.subrange(0, n) =~= path.subrange(0, n));
        assert(whole.subrange(n, whole.len() as int) =~= rest.push(SLASH));
    }
}

/// No two names stand for the same inode, and every name is in a directory that
/// is in use, or is the root.
pub open spec fn tree(t: Tables) -> bool {
    &&& t.wf()
    &&& forall|i: int, j: int|
        0 <= i < MAX_DENTRIES && 0 <= j < MAX_DENTRIES && (#[trigger] t.dentries[i]).active && (
        #[trigger] t.dentries[j]).active && t.dentries[i].inode_idx == t.dentries[j].inode_idx
            ==> i == j
    &&& forall|i: int|
        0 <= i < MAX_DENTRIES && (#[trigger] t.dentries[i]).active ==> t.dentries[i].inode_idx
            < MAX_INODES && t.inodes[t.dentries[i].inode_idx as int].active && (
        t.dentries[i].parent_idx == -1 || (0 <= t.dentries[i].parent_idx < MAX_DENTRIES
            && t.dentries[t.dentries[i].parent_idx as int].active))
}

/// A new file system is a tree.
pub proof fn law_fresh_tables_are_a_tree(t: Tables)
    requires
        ramfs::is_fresh(t),
    ensures
        tree(t),
{
    assert forall|i: int| 0 <= i < MAX_DENTRIES && (#[trigger] t.dentries[i]).active implies i
        < ramfs::BASE_ENTRIES && t.dentries[i].inode_idx == i by {
        if i >= ramfs::BASE_ENTRIES {
            assert(t.dentries[i] == Dentry::spec_empty());
        }
    }
    assert forall|i: int| 0 <= i < MAX_DENTRIES implies (#[trigger] t.dentries[i]).name_len
        <= MAX_NAME_LEN by {
        if i >= ramfs::BASE_ENTRIES {
            assert(t.dentries[i] == Dentry::spec_empty());
        }
    }
}

/// A new file system has its root at "/" and each of its directories under its
/// name; no other name is in the root.
pub proof fn law_fresh_root_has_its_directories(t: Tables, name: Seq<u8>)
    requires
        ramfs::is_fresh(t),
        plain(name),
    ensures
        t.resolved(seq![SLASH]) == Some(0usize),
        forall|i: int|
            1 <= i < ramfs::BASE_ENTRIES ==> t.resolved(joined(Seq::empty(), #[trigger] ramfs::base_name(i)))
                == Some(i as usize),
        (forall|i: int| 1 <= i < ramfs::BASE_ENTRIES ==> name != #[trigger] ramfs::base_name(i))
            ==> t.found(joined(Seq::empty(), name)) is None,
{
    let root = seq![SLASH];
    assert(root.subrange(1, root.len() as int) =~= Seq::empty());
    assert(super::components(root) =~= super::components(Seq::empty()));
    assert(super::components(root) =~= Seq::empty());
    assert(t.found(root) == Some(0usize));
    assert(ramfs::is_entry(
        Dentry::spec_empty(),
        t.dentries[0],
        ramfs::base_name(0),
        0,
        -1i32,
        0,
    ));
    assert forall|i: int| 1 <= i < ramfs::BASE_ENTRIES implies t.resolved(
        joined(Seq::empty(), #[trigger] ramfs::base_name(i)),
    ) == Some(i as usize) by {
        let n = ramfs::base_name(i);
        assert(plain(n));
        law_path_leads_into_directories(t, Seq::empty(), n);
        lemma_base_child(t, n);
        assert(t.dentries[i].active);
        assert(t.is_child(i, 0, n));
        let p = |k: int| t.is_child(k, 0, n);
        search::lemma_first(MAX_DENTRIES as nat, p);
        assert(p(i));
        let c = t.child(0, n)->0 as int;
        assert(p(c));
        lemma_base_names(c, i);
    }
    if forall|i: int| 1 <= i < ramfs::BASE_ENTRIES ==> name != #[trigger] ramfs::base_name(i) {
        law_path_leads_into_directories(t, Seq::empty(), name);
        lemma_base_child(t, name);
        let p = |k: int| t.is_child(k, 0, name);
        assert forall|k: int| 0 <= k < MAX_DENTRIES implies !#[trigger] p(k) by {
            if t.is_child(k, 0, name) {
                assert(name == ramfs::base_name(k));
            }
        }
        search::lemma_first_none(MAX_DENTRIES as nat, p);
    }
}

/// The entries of the root of a new file system are its base directories.
proof fn lemma_base_child(t: Tables, name: Seq<u8>)
    requires
        ramfs::is_fresh(t),
    ensures
        forall|k: int|
            0 <= k < MAX_DENTRIES ==> (#[trigger] t.is_child(k, 0, name) <==> 1 <= k
                < ramfs::BASE_ENTRIES && name == ramfs::base_name(k)),
{
    assert forall|k: int| 0 <= k < MAX_DENTRIES implies (#[trigger] t.is_child(k, 0, name) <==> 1
        <= k < ramfs::BASE_ENTRIES && name == ramfs::base_name(k)) by {
        if k >= ramfs::BASE_ENTRIES {
            assert(t.dentries[k] == Dentry::spec_empty());
        } else {
            assert(t.dentries[k].active);
            assert(super::cut_name(ramfs::base_name(k)) == ramfs::base_name(k));
        }
    }
}

/// The base names differ.
proof fn lemma_base_names(i: int, j: int)
    requires
        1 <= i < ramfs::BASE_ENTRIES,
        1 <= j < ramfs::BASE_ENTRIES,
        ramfs::base_name(i) == ramfs::base_name(j),
    ensures
        i == j,
{
    let a = ramfs::base_name(i);
    let b = ramfs::base_name(j);
    assert(a.len() == b.len() && a[0] == b[0]);
}

/// An entry that was created is found under its name, in its directory; every
/// path that led somewhere still leads there; the tables stay a tree. The name
/// must be new in the directory and short enough to be kept whole.
pub proof fn law_created_entry_is_found(
    t: Tables,
    m: Mem,
    path: Seq<u8>,
    name: Seq<u8>,
    itype: InodeType,
    t2: Tables,
    m2: Mem,
    new: usize,
)
    requires
        tree(t),
        plain(name),
        name.len() < MAX_NAME_LEN,
        t.resolved(path) is Some,
        t.child(t.resolved(path)->0 as int, name) is None,
        ramfs::entry_created(
            t,
            m,
            t.dentries[t.resolved(path)->0 as int].inode_idx,
            name,
            itype,
            t2,
            m2,
            Some(new),
        ),
    ensures
        tree(t2),
        t2.resolved(joined(path, name)) == Some(new),
        t2.inodes[t2.dentries[new as int].inode_idx as int].itype == itype,
        forall|p: Seq<u8>| (#[trigger] t.found(p)) is Some ==> t2.found(p) == t.found(p),
{
    let d = t.resolved(path)->0;
    let dir = t.dentries[d as int].inode_idx;
    lemma_walk_bound(t, 0, super::components(path));
    let i = t.free_inode()->0;
    search::lemma_first(MAX_INODES as nat, |k: int| !t.inodes[k].active);
    search::lemma_first(MAX_DENTRIES as nat, |k: int| !t.dentries[k].active);
    let q = |k: int| t.dentries[k].active && t.dentries[k].inode_idx == dir;
    search::lemma_first(MAX_DENTRIES as nat, q);
    assert(q(d as int));
    let dd = t.dentry_of(dir)->0;
    assert(q(dd as int));
    assert(dd == d);
    assert(t2.dentries[new as int].parent_idx == d);
    assert(t2.dentries[new as int].label() == name);
    assert forall|k: int| 0 <= k < MAX_DENTRIES && k != new implies t2.dentries[k]
        == t.dentries[k] by {}
    lemma_tree_kept(t, t2, i as int, new as int);
    // every path that led somewhere leads there still
    assert forall|e: int, n: Seq<u8>| (#[trigger] t.child(e, n)) is Some implies t2.child(e, n)
        == t.child(e, n) by {
        let p = |k: int| t.is_child(k, e, n);
        let p2 = |k: int| t2.is_child(k, e, n);
        search::lemma_first(MAX_DENTRIES as nat, p);
        let c = t.child(e, n)->0;
        assert(p(c as int));
        assert(p2(c as int));
        assert forall|k: int| 0 <= k < c implies !#[trigger] p2(k) by {
            assert(!p(k));
            if k == new && p2(k) {
                assert(e == d && n == name);
            }
        }
        search::lemma_first_is(MAX_DENTRIES as nat, p2, c);
    }
    assert forall|p: Seq<u8>| (#[trigger] t.found(p)) is Some implies t2.found(p) == t.found(p) by {
        lemma_walk_kept(t, t2, 0, super::components(p));
    }
    // the new entry is found
    law_path_leads_into_directories(t2, path, name);
    assert(t2.found(path) == Some(d));
    let p = |k: int| t.is_child(k, d as int, name);
    let p2 = |k: int| t2.is_child(k, d as int, name);
    search::lemma_first(MAX_DENTRIES as nat, p);
    assert(p2(new as int));
    assert forall|k: int| 0 <= k < new implies !#[trigger] p2(k) by {
        assert(!p(k));
    }
    search::lemma_first_is(MAX_DENTRIES as nat, p2, new);
}

/// A walk stays in the table.
pub proof fn lemma_walk_bound(t: Tables, d: usize, names: Seq<Seq<u8>>)
    requires
        d < MAX_DENTRIES,
    ensures
        t.walk(d, names) matches Some(e) ==> e < MAX_DENTRIES,
    decreases names.len(),
{
    if names.len() > 0 {
        search::lemma_first(MAX_DENTRIES as nat, |k: int| t.is_child(k, d as int, names[0]));
        match t.child(d as int, names[0]) {
            Some(c) => lemma_walk_bound(t, c, names.subrange(1, names.len() as int)),
            None => {},
        }
    }
}

/// A walk that finds its way in one table finds it in another that keeps every
/// entry.
proof fn lemma_walk_kept(t: Tables, t2: Tables, d: usize, names: Seq<Seq<u8>>)
    requires
        forall|e: int, n: Seq<u8>|
            (#[trigger] t.child(e, n)) is Some ==> t2.child(e, n) == t.child(e, n),
    ensures
        t.walk(d, names) is Some ==> t2.walk(d, names) == t.walk(d, names),
    decreases names.len(),
{
    if names.len() > 0 {
        match t.child(d as int, names[0]) {
            Some(c) => lemma_walk_kept(t, t2, c, names.subrange(1, names.len() as int)),
            None => {},
        }
    }
}

/// A new name for a new inode keeps the tables a tree.
proof fn lemma_tree_kept(t: Tables, t2: Tables, i: int, new: int)
    requires
        tree(t),
        0 <= i < MAX_INODES,
        !t.inodes[i].active,
        0 <= new < MAX_DENTRIES,
        !t.dentries[new].active,
        t2.superblocks == t.superblocks,
        t2.files == t.files,
        t2.inodes.len() == MAX_INODES,
        forall|k: int| 0 <= k < MAX_INODES && k != i ==> t2.inodes[k] == t.inodes[k],
        t2.inodes[i].active,
        t2.dentries == t.dentries.update(new, t2.dentries[new]),
        t2.dentries[new].active,
        t2.dentries[new].name_len <= MAX_NAME_LEN,
        t2.dentries[new].inode_idx == i,
        0 <= t2.dentries[new].parent_idx < MAX_DENTRIES,
        t.dentries[t2.dentries[new].parent_idx as int].active,
    ensures
        tree(t2),
{
    assert forall|k: int| 0 <= k < MAX_DENTRIES implies (#[trigger] t2.dentries[k]).name_len
        <= MAX_NAME_LEN by {
        assert(t.dentries[k].name_len <= MAX_NAME_LEN);
    }
    assert forall|k: int, j: int|
        0 <= k < MAX_DENTRIES && 0 <= j < MAX_DENTRIES && (#[trigger] t2.dentries[k]).active && (
        #[trigger] t2.dentries[j]).active && t2.dentries[k].inode_idx
            == t2.dentries[j].inode_idx implies k == j by {
        if k != new {
            assert(t.dentries[k].active);
        }
        if j != new {
            assert(t.dentries[j].active);
        }
    }
    assert forall|k: int|
        0 <= k < MAX_DENTRIES && (#[trigger] t2.dentries[k]).active implies t2.dentries[k].inode_idx
        < MAX_INODES && t2.inodes[t2.dentries[k].inode_idx as int].active && (
    t2.dentries[k].parent_idx == -1 || (0 <= t2.dentries[k].parent_idx < MAX_DENTRIES
        && t2.dentries[t2.dentries[k].parent_idx as int].active)) by {
        if k != new {
            assert(t.dentries[k].active);
        }
    }
}

/// The pages of the files are taken frames, and no two files share one.
pub open spec fn pages_apart(t: Tables, m: Mem) -> bool {
    &&& m.sane()
    &&& t.inodes.len() == MAX_INODES
    &&& forall|i: int|
        0 <= i < MAX_INODES ==> (#[trigger] t.inodes[i]).data_size <= PAGE_SIZE && (
        t.inodes[i].data_page != 0 ==> m.is_taken_frame(t.inodes[i].data_page as int))
    &&& forall|i: int, j: int|
        0 <= i < MAX_INODES && 0 <= j < MAX_INODES && i != j && (
        #[trigger] t.inodes[i]).data_page != 0 && (#[trigger] t.inodes[j]).data_page != 0
            ==> t.inodes[i].data_page != t.inodes[j].data_page
}

/// Giving an inode that has no page a new one keeps the pages apart and the
/// content of all files.
proof fn lemma_page_added(t: Tables, m: Mem, i: int)
    requires
        pages_apart(t, m),
        0 <= i < MAX_INODES,
        t.inodes[i].data_page == 0,
        m.frames.lowest_free() is Some,
    ensures
        ({
            let t1 = t.with_page(i, m.fresh_addr());
            &&& pages_apart(t1, m.fresh())
            &&& forall|j: int|
                0 <= j < MAX_INODES && j != i ==> #[trigger] t1.content(m.fresh(), j) == t.content(
                    m,
                    j,
                )
        }),
{
    space::lemma_fresh(m);
    let t1 = t.with_page(i, m.fresh_addr());
    let w = m.fresh();
    assert forall|k: int| 0 <= k < MAX_INODES implies (#[trigger] t1.inodes[k]).data_size
        <= PAGE_SIZE && (t1.inodes[k].data_page != 0 ==> w.is_taken_frame(
        t1.inodes[k].data_page as int,
    )) by {
        if k != i {
            assert(t1.inodes[k] == t.inodes[k]);
        } else {
            assert(t.inodes[i].data_size <= PAGE_SIZE);
        }
    }
    assert forall|j: int, k: int|
        0 <= j < MAX_INODES && 0 <= k < MAX_INODES && j != k && (
        #[trigger] t1.inodes[j]).data_page != 0 && (#[trigger] t1.inodes[k]).data_page
            != 0 implies t1.inodes[j].data_page != t1.inodes[k].data_page by {
        if j != i {
            assert(t1.inodes[j] == t.inodes[j]);
            assert(m.is_taken_frame(t.inodes[j].data_page as int));
        }
        if k != i {
            assert(t1.inodes[k] == t.inodes[k]);
            assert(m.is_taken_frame(t.inodes[k].data_page as int));
        }
    }
    assert forall|j: int| 0 <= j < MAX_INODES && j != i implies #[trigger] t1.content(w, j)
        == t.content(m, j) by {
        assert(t1.inodes[j] == t.inodes[j]);
        let page = t.inodes[j].data_page as int;
        if page != 0 {
            assert(m.is_taken_frame(page));
            assert(t1.content(w, j) =~= t.content(m, j));
        }
    }
}

/// Writing to a file leaves the data of every other file as it was, and keeps
/// the pages of the files apart.
pub proof fn law_write_leaves_other_files_alone(
    t: Tables,
    m: Mem,
    i: int,
    offset: int,
    data: Seq<u8>,
    j: int,
)
    requires
        pages_apart(t, m),
        0 <= i < MAX_INODES,
        0 <= j < MAX_INODES,
        i != j,
        0 <= offset,
    ensures
        ({
            let (t2, m2, _) = ramfs::written(t, m, i, offset, data);
            pages_apart(t2, m2) && t2.content(m2, j) == t.content(m, j)
        }),
{
    match ramfs::page_ready(t, m, i) {
        None => {},
        Some((t1, m1)) => {
            if t.inodes[i].data_page == 0 {
                lemma_page_added(t, m, i);
            }
            assert(pages_apart(t1, m1));
            assert(t1.content(m1, j) == t.content(m, j));
            if offset < PAGE_SIZE {
                let (t2, m2, _) = ramfs::written(t, m, i, offset, data);
                let page = t1.inodes[i].data_page as int;
                assert(t1.inodes[i].data_size <= PAGE_SIZE);
                assert forall|k: int| 0 <= k < MAX_INODES implies (
                #[trigger] t2.inodes[k]).data_size <= PAGE_SIZE && (t2.inodes[k].data_page != 0
                    ==> m2.is_taken_frame(t2.inodes[k].data_page as int)) by {
                    assert(t2.inodes[k].data_page == t1.inodes[k].data_page);
                    assert(t1.inodes[k].data_size <= PAGE_SIZE);
                }
                assert forall|k: int, l: int|
                    0 <= k < MAX_INODES && 0 <= l < MAX_INODES && k != l && (
                    #[trigger] t2.inodes[k]).data_page != 0 && (#[trigger] t2.inodes[l]).data_page
                        != 0 implies t2.inodes[k].data_page != t2.inodes[l].data_page by {
                    assert(t2.inodes[k].data_page == t1.inodes[k].data_page);
                    assert(t2.inodes[l].data_page == t1.inodes[l].data_page);
                }
                assert(t2.inodes[j] == t1.inodes[j]);
                let other = t1.inodes[j].data_page as int;
                if other != 0 {
                    assert(m1.is_taken_frame(other));
                    if page != 0 {
                        assert(m1.is_taken_frame(page));
                        assert(page != other);
                    }
                    lemma_patch_elsewhere(t1, m1, t2, m2, j, page, offset, data);
                }
            }
        },
    }
}

proof fn lemma_patch_elsewhere(
    t1: Tables,
    m1: Mem,
    t2: Tables,
    m2: Mem,
    j: int,
    page: int,
    offset: int,
    data: Seq<u8>,
)
    requires
        t2.inodes[j] == t1.inodes[j],
        t1.inodes[j].data_page != 0,
        t1.inodes[j].data_size <= PAGE_SIZE,
        t1.inodes[j].data_page % 4096 == 0,
        t1.inodes[j].data_page + PAGE_SIZE <= m1.bytes.len(),
        page % 4096 == 0,
        page != t1.inodes[j].data_page,
        0 <= offset < PAGE_SIZE,
        m2.bytes == ram::patched(
            m1.bytes,
            page + offset,
            data.subrange(0, ramfs::fitting(offset, data.len() as int)),
        ),
    ensures
        t2.content(m2, j) == t1.content(m1, j),
{
    let other = t1.inodes[j].data_page as int;
    let n = ramfs::fitting(offset, data.len() as int);
    assert(other + 4096 <= page || page + 4096 <= other);
    assert(t2.content(m2, j) =~= t1.content(m1, j));
}

/// A read gives back what was written: after a write, a `seek` back and a read
/// of as many bytes give the part of the data that fitted into the page. As long
/// as the file has a page or a frame is free, that is all that fits. The rest of
/// the file is as it was. Frame 0, which the firmware owns, must be taken.
pub proof fn law_read_gives_back_what_was_written(t: Tables, m: Mem, fd: int, data: Seq<u8>)
    requires
        pages_apart(t, m),
        m.frames.used[0],
        t.files.len() == MAX_OPEN_FILES,
        t.opened(fd) is Some,
        t.inodes[t.files[fd].inode_idx as int].file_ops.read == Backend::Ramfs,
        t.inodes[t.files[fd].inode_idx as int].file_ops.write == Backend::Ramfs,
    ensures
        ({
            let i = t.files[fd].inode_idx as int;
            let o = t.files[fd].offset;
            let (t2, m2, n) = t.wrote(m, fd, data);
            let fits = ramfs::fitting(o as int, data.len() as int);
            &&& n == (if t.inodes[i].data_page != 0 || m.frames.lowest_free() is Some {
                fits
            } else {
                -1int
            })
            &&& n >= 0 ==> t2.sought(fd, o).readable(m2, fd, n as int) == data.subrange(0, fits)
            &&& n >= 0 ==> forall|k: int|
                0 <= k < t.content(m, i).len() && !(o <= k < o + n) ==> k < t2.content(m2, i).len()
                    && #[trigger] t2.content(m2, i)[k] == t.content(m, i)[k]
        }),
{
    let i = t.files[fd].inode_idx as int;
    let o = t.files[fd].offset as int;
    let (t2, m2, n) = t.wrote(m, fd, data);
    let fits = ramfs::fitting(o, data.len() as int);
    let t3 = t2.sought(fd, o as usize);
    match ramfs::page_ready(t, m, i) {
        None => {},
        Some((t1, m1)) => {
            if t.inodes[i].data_page == 0 {
                lemma_page_added(t, m, i);
                space::lemma_fresh(m);
                assert(m.fresh_addr() != 0);
            }
            assert(pages_apart(t1, m1));
            assert(t1.inodes[i].data_page != 0);
            assert(m1.is_taken_frame(t1.inodes[i].data_page as int));
            assert(t1.inodes[i].data_size <= PAGE_SIZE);
            assert(t2.inodes[i].data_page == t1.inodes[i].data_page);
            if o < PAGE_SIZE {
                let page = t1.inodes[i].data_page as int;
                let c = t2.content(m2, i);
                assert(c.len() >= o + fits);
                if fits > 0 {
                    assert(t3.readable(m2, fd, n as int) =~= data.subrange(0, fits));
                } else {
                    assert(t3.readable(m2, fd, 0) =~= Seq::<u8>::empty());
                    assert(data.subrange(0, 0) =~= Seq::<u8>::empty());
                }
                assert forall|k: int|
                    0 <= k < t.content(m, i).len() && !(o <= k < o + n) implies k < t2.content(
                    m2,
                    i,
                ).len() && #[trigger] t2.content(m2, i)[k] == t.content(m, i)[k] by {
                    assert(t2.content(m2, i)[k] == m2.bytes[page + k]);
                    assert(t.content(m, i)[k] == m.bytes[page + k]);
                }
            } else {
                assert(t3.readable(m2, fd, 0) =~= Seq::<u8>::empty());
                assert(data.subrange(0, 0) =~= Seq::<u8>::empty());
            }
        },
    }
}

/// Making an entry keeps the pages of the files apart and the data of every
/// inode that was in use; a new file is empty.
pub proof fn law_create_leaves_files_alone(
    t: Tables,
    m: Mem,
    dir: usize,
    name: Seq<u8>,
    itype: InodeType,
    t2: Tables,
    m2: Mem,
    r: Option<usize>,
    j: int,
)
    requires
        pages_apart(t, m),
        ramfs::entry_created(t, m, dir, name, itype, t2, m2, r),
        0 <= j < MAX_INODES,
        t.inodes[j].active,
    ensures
        pages_apart(t2, m2),
        t2.content(m2, j) == t.content(m, j),
        t2.inodes[j] == t.inodes[j],
        r matches Some(d) ==> t2.content(m2, t2.dentries[d as int].inode_idx as int).len() == 0,
{
    if dir < MAX_INODES && t.inodes[dir as int].active && t.free_inode() is Some {
        let sb = t.inodes[dir as int].sb_idx;
        let i = t.free_inode()->0 as int;
        search::lemma_first(MAX_INODES as nat, |k: int| !t.inodes[k].active);
        let t1 = t.with_inode(i, sb, itype);
        assert forall|k: int| 0 <= k < MAX_INODES implies (#[trigger] t1.inodes[k]).data_size
            <= PAGE_SIZE && (t1.inodes[k].data_page != 0 ==> m.is_taken_frame(
            t1.inodes[k].data_page as int,
        )) by {
            if k != i {
                assert(t1.inodes[k] == t.inodes[k]);
            }
        }
        assert forall|k: int, l: int|
            0 <= k < MAX_INODES && 0 <= l < MAX_INODES && k != l && (
            #[trigger] t1.inodes[k]).data_page != 0 && (#[trigger] t1.inodes[l]).data_page
                != 0 implies t1.inodes[k].data_page != t1.inodes[l].data_page by {
            assert(t1.inodes[k] == t.inodes[k]);
            assert(t1.inodes[l] == t.inodes[l]);
        }
        assert(pages_apart(t1, m));
        assert(t1.content(m, j) == t.content(m, j));
        if itype == InodeType::File && m.frames.lowest_free() is Some {
            lemma_page_added(t1, m, i);
            assert(t1.with_page(i, m.fresh_addr()).content(m.fresh(), j) == t1.content(m, j));
        }
        let (t3, m3) = ramfs::inode_ready(t, m, i, sb, itype);
        assert(t2.inodes == t3.inodes);
    }
}

} // verus!
