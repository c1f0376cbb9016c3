//! The object manager: kernel objects with counted references, and the tables
//! of handles by which processes name them.
//!
//! A handle is four times its place in the table; place 0 is not used.

use vstd::prelude::*;
use vstd::string::*;
use crate::search;
use super::error::{
    STATUS_INSUFFICIENT_RESOURCES, STATUS_INVALID_HANDLE, STATUS_OBJECT_NAME_NOT_FOUND,
    STATUS_OBJECT_TYPE_MISMATCH, STATUS_SUCCESS,
};
use super::types::{ACCESS_MASK, HANDLE, NTSTATUS};

verus! {

/// Places in the table of handles of a process.
pub const HANDLE_TABLE_SIZE: usize = 256;

/// How many objects there can be.
pub const MAX_OBJECTS: usize = 1024;

/// Bytes kept for the name of an object.
pub const OBJECT_NAME_SIZE: usize = 128;

/// Bytes kept for the path of a file or a key.
pub const OBJECT_PATH_SIZE: usize = 256;

/// The number in a table entry that is free.
pub const NO_OBJECT: u32 = u32::MAX;

/// The handle is protected from being closed.
pub const STATUS_HANDLE_NOT_CLOSABLE: u32 = 0xC0000235;

/// The kind of an object.
#[derive(Debug, Clone, Copy, PartialEq, Eq, Structural)]
pub enum ObjectType {
    Directory,
    SymbolicLink,
    File,
    Process,
    Thread,
    Section,
    /// A mutex.
    Mutant,
    Event,
    Semaphore,
    Timer,
    Key,
    IoCompletion,
    Token,
    WindowStation,
    Desktop,
}

/// What an object of some kind holds.
#[derive(Clone, Copy)]
pub enum ObjectBody {
    Nothing,
    File {
        path: [u8; OBJECT_PATH_SIZE],
        path_len: usize,
        /// Where the next read or write starts.
        position: u64,
        access: ACCESS_MASK,
        size: u64,
    },
    Process { pid: u64, exit_code: u32, terminated: bool },
    Thread { tid: u64, owner_pid: u64, exit_code: u32, terminated: bool },
    Mutant {
        /// The thread that holds it, 0 if none does.
        owner_tid: u64,
        recursion_count: u32,
        /// Set while it is free.
        signaled: bool,
    },
    Event { manual_reset: bool, signaled: bool },
    Semaphore { current_count: u32, maximum_count: u32 },
    Key { path: [u8; OBJECT_PATH_SIZE], path_len: usize },
    Section { base_address: u64, size: u64 },
}

/// An object.
#[derive(Clone, Copy)]
pub struct ObjectHeader {
    pub object_type: ObjectType,
    /// How many handles and pointers of the kernel lead to it.
    pub ref_count: u32,
    /// How many handles of processes lead to it. Each is a reference as well.
    pub handle_count: u32,
    pub name: [u8; OBJECT_NAME_SIZE],
    pub name_len: usize,
    /// Set for an object that stays without references.
    pub permanent: bool,
    pub body: ObjectBody,
}

impl ObjectHeader {
    /// The object has a name.
    pub open spec fn has_name(self, name: Seq<u8>) -> bool {
        &&& self.name_len == name.len()
        &&& name.len() <= OBJECT_NAME_SIZE
        &&& forall|i: int| 0 <= i < name.len() ==> self.name@[i] == name[i]
    }
}

/// An entry of a table of handles.
#[derive(Debug, Clone, Copy, PartialEq, Eq, Structural)]
pub struct HandleEntry {
    /// The object, or `NO_OBJECT`.
    pub object_index: u32,
    pub access_mask: ACCESS_MASK,
    /// Set if child processes inherit it.
    pub inherit: bool,
    /// Set if it may not be closed.
    pub protect: bool,
}

impl HandleEntry {
    /// A free entry.
    pub open spec fn spec_empty() -> HandleEntry {
        HandleEntry { object_index: NO_OBJECT, access_mask: 0, inherit: false, protect: false }
    }

    /// A free entry.
    pub fn empty() -> (r: HandleEntry)
        ensures
            r == HandleEntry::spec_empty(),
    {
        HandleEntry { object_index: NO_OBJECT, access_mask: 0, inherit: false, protect: false }
    }

    /// Whether the entry is free.
    pub fn is_free(&self) -> (r: bool)
        ensures
            r == (self.object_index == NO_OBJECT),
    {
        self.object_index == NO_OBJECT
    }
}

/// The handles of a process.
#[derive(Clone, Copy)]
pub struct HandleTable {
    pub entries: [HandleEntry; HANDLE_TABLE_SIZE],
}

/// The place of a handle in its table.
pub open spec fn place_of(h: HANDLE) -> int {
    h.0 as int / 4
}

/// The handle leads to an entry that is in use.
pub open spec fn in_use(t: Seq<HandleEntry>, h: HANDLE) -> bool {
    0 < place_of(h) < HANDLE_TABLE_SIZE && t[place_of(h)].object_index != NO_OBJECT
}

/// The first free place of a table.
pub open spec fn free_place(t: Seq<HandleEntry>) -> Option<usize> {
    search::first(
        HANDLE_TABLE_SIZE as nat,
        |i: int| i >= 1 && t[i].object_index == NO_OBJECT,
    )
}

/// A table with a new entry in its first free place, and the handle for it; the
/// table as it is and the invalid handle if it is full.
pub open spec fn allotted(t: Seq<HandleEntry>, object: u32, access: ACCESS_MASK) -> (
    Seq<HandleEntry>,
    HANDLE,
) {
    match free_place(t) {
        Some(i) => (
            t.update(
                i as int,
                HandleEntry {
                    object_index: object,
                    access_mask: access,
                    inherit: false,
                    protect: false,
                },
            ),
            HANDLE((i * 4) as usize),
        ),
        None => (t, HANDLE(usize::MAX)),
    }
}

impl HandleTable {
    /// A table without handles.
    pub fn new() -> (r: HandleTable)
        ensures
            forall|i: int|
                0 <= i < HANDLE_TABLE_SIZE ==> #[trigger] r.entries@[i]
                    == HandleEntry::spec_empty(),
    {
        HandleTable { entries: [HandleEntry::empty(); HANDLE_TABLE_SIZE] }
    }

    /// Makes a handle to an object. The invalid handle if the table is full. The
    /// counts of the object are left to the caller.
    pub fn allocate(&mut self, object_index: u32, access: ACCESS_MASK) -> (r: HANDLE)
        ensures
            (final(self).entries@, r) == allotted(old(self).entries@, object_index, access),
    {
        let ghost t = self.entries@;
        let ghost p = |i: int| i >= 1 && t[i].object_index == NO_OBJECT;
        let mut i: usize = 1;
        while i < HANDLE_TABLE_SIZE
            invariant
                1 <= i <= HANDLE_TABLE_SIZE,
                *self == *old(self),
                t == self.entries@,
                p == (|i: int| i >= 1 && t[i].object_index == NO_OBJECT),
                forall|j: int| 0 <= j < i ==> !#[trigger] p(j),
            decreases HANDLE_TABLE_SIZE - i,
        {
            if self.entries[i].is_free() {
                proof {
                    assert(p(i as int));
                    search::lemma_first_is(HANDLE_TABLE_SIZE as nat, p, i);
                }
                self.entries[i] = HandleEntry {
                    object_index,
                    access_mask: access,
                    inherit: false,
                    protect: false,
                };
                return HANDLE(i * 4);
            }
            i = i + 1;
        }
        proof {
            search::lemma_first_none(HANDLE_TABLE_SIZE as nat, p);
        }
        HANDLE(usize::MAX)
    }

    /// The entry of a handle.
    pub fn get(&self, handle: HANDLE) -> (r: Option<&HandleEntry>)
        ensures
            r == (if in_use(self.entries@, handle) {
                Some(&self.entries@[place_of(handle)])
            } else {
                None
            }),
    {
        let index: usize = handle.0 / 4;
        if index == 0 || index >= HANDLE_TABLE_SIZE {
            return None;
        }
        if self.entries[index].is_free() {
            return None;
        }
        Some(&self.entries[index])
    }

    /// Takes a handle out of the table, unless it is protected.
    pub fn close(&mut self, handle: HANDLE) -> (r: NTSTATUS)
        ensures
            (final(self).entries@, r.0) == handle_closed(old(self).entries@, handle),
    {
        let index: usize = handle.0 / 4;
        if index == 0 || index >= HANDLE_TABLE_SIZE {
            return NTSTATUS(STATUS_INVALID_HANDLE);
        }
        if self.entries[index].is_free() {
            return NTSTATUS(STATUS_INVALID_HANDLE);
        }
        if self.entries[index].protect {
            return NTSTATUS(STATUS_HANDLE_NOT_CLOSABLE);
        }
        self.entries[index] = HandleEntry::empty();
        NTSTATUS(STATUS_SUCCESS)
    }

    /// Whether there is a place for another handle.
    pub fn has_room(&self) -> (r: bool)
        ensures
            r == (free_place(self.entries@) is Some),
    {
        let ghost t = self.entries@;
        let ghost p = |i: int| i >= 1 && t[i].object_index == NO_OBJECT;
        let mut i: usize = 1;
        while i < HANDLE_TABLE_SIZE
            invariant
                1 <= i <= HANDLE_TABLE_SIZE,
                t == self.entries@,
                p == (|i: int| i >= 1 && t[i].object_index == NO_OBJECT),
                forall|j: int| 0 <= j < i ==> !#[trigger] p(j),
            decreases HANDLE_TABLE_SIZE - i,
        {
            if self.entries[i].is_free() {
                proof {
                    assert(p(i as int));
                    search::lemma_first_is(HANDLE_TABLE_SIZE as nat, p, i);
                }
                return true;
            }
            i = i + 1;
        }
        proof {
            search::lemma_first_none(HANDLE_TABLE_SIZE as nat, p);
        }
        false
    }

    /// Makes another handle to the object of a handle, with rights of its own.
    /// The object has one reference more. See `duplicated`.
    pub fn duplicate(
        &mut self,
        pool: &mut ObjectPool,
        source: HANDLE,
        new_access: ACCESS_MASK,
    ) -> (r: HANDLE)
        ensures
            (final(pool).objects@, final(self).entries@, r) == duplicated(
                old(pool).objects@,
                old(self).entries@,
                source,
                new_access,
            ),
    {
        let obj_index: u32 = match self.get(source) {
            Some(e) => e.object_index,
            None => {
                return HANDLE(usize::MAX);
            },
        };
        if !self.has_room() {
            return HANDLE(usize::MAX);
        }
        match try_hold_object(pool, obj_index) {
            Some(status) => {
                if status.is_error() {
                    return HANDLE(usize::MAX);
                }
            },
            None => {
                return HANDLE(usize::MAX);
            },
        }
        self.allocate(obj_index, new_access)
    }
}

/// The pool and the table once a handle was duplicated, and the new handle: it
/// leads to the same object, which has one reference and one handle more. The
/// invalid handle, and all as it was, if the handle leads to no object, the table
/// is full, or the object has as many references as can be counted.
pub open spec fn duplicated(
    pool: Seq<Option<ObjectHeader>>,
    table: Seq<HandleEntry>,
    source: HANDLE,
    access: ACCESS_MASK,
) -> (Seq<Option<ObjectHeader>>, Seq<HandleEntry>, HANDLE) {
    let i = table[place_of(source)].object_index;
    if in_use(table, source) && is_object(pool, i) && pool[i as int]->0.ref_count < u32::MAX
        && free_place(table) is Some {
        (held(pool, i).0, allotted(table, i, access).0, allotted(table, i, access).1)
    } else {
        (pool, table, HANDLE(usize::MAX))
    }
}

/// A table after a handle was closed, and the status.
pub open spec fn handle_closed(t: Seq<HandleEntry>, h: HANDLE) -> (Seq<HandleEntry>, u32) {
    if !in_use(t, h) {
        (t, STATUS_INVALID_HANDLE)
    } else if t[place_of(h)].protect {
        (t, STATUS_HANDLE_NOT_CLOSABLE)
    } else {
        (t.update(place_of(h), HandleEntry::spec_empty()), STATUS_SUCCESS)
    }
}

/// The objects of the system.
pub struct ObjectPool {
    pub objects: Box<[Option<ObjectHeader>; MAX_OBJECTS]>,
}

impl ObjectPool {
    /// A pool without objects.
    pub fn new() -> (r: ObjectPool)
        ensures
            r.objects@ == Seq::new(MAX_OBJECTS as nat, |i: int| None::<ObjectHeader>),
    {
        let objects: Box<[Option<ObjectHeader>; MAX_OBJECTS]> = Box::new([None; MAX_OBJECTS]);
        assert(objects@ =~= Seq::new(MAX_OBJECTS as nat, |i: int| None::<ObjectHeader>));
        ObjectPool { objects }
    }
}

/// The first free place of a pool.
pub open spec fn free_object(pool: Seq<Option<ObjectHeader>>) -> Option<usize> {
    search::first(pool.len(), |i: int| pool[i] is None)
}

/// A new object, with one reference.
pub open spec fn is_new_object(
    h: ObjectHeader,
    obj_type: ObjectType,
    name: Seq<u8>,
    body: ObjectBody,
) -> bool {
    let len = if name.len() < OBJECT_NAME_SIZE - 1 {
        name.len() as int
    } else {
        OBJECT_NAME_SIZE - 1
    };
    &&& h == (ObjectHeader {
        object_type: obj_type,
        ref_count: 1,
        handle_count: 0,
        name: h.name,
        name_len: len as usize,
        permanent: false,
        body,
    })
    &&& h.name@ == Seq::new(
        OBJECT_NAME_SIZE as nat,
        |i: int|
            if i < len {
                name[i]
            } else {
                0
            },
    )
}

/// Makes the object that `is_new_object` describes.
fn new_object(obj_type: ObjectType, name: &str, body: ObjectBody) -> (r: ObjectHeader)
    ensures
        is_new_object(r, obj_type, name.spec_bytes(), body),
{
    let mut header = ObjectHeader {
        object_type: obj_type,
        ref_count: 1,
        handle_count: 0,
        name: [0u8; OBJECT_NAME_SIZE],
        name_len: 0,
        permanent: false,
        body,
    };
    let bytes: &[u8] = name.as_bytes();
    let len: usize = if bytes.len() < OBJECT_NAME_SIZE - 1 {
        bytes.len()
    } else {
        OBJECT_NAME_SIZE - 1
    };
    let mut i: usize = 0;
    let ghost before = header;
    while i < len
        invariant
            i <= len,
            len <= bytes.len(),
            len < OBJECT_NAME_SIZE,
            header == (ObjectHeader { name: header.name, ..before }),
            forall|j: int| 0 <= j < i ==> header.name@[j] == bytes@[j],
            forall|j: int| i <= j < OBJECT_NAME_SIZE ==> header.name@[j] == 0,
        decreases len - i,
    {
        header.name[i] = bytes[i];
        i = i + 1;
    }
    header.name_len = len;
    assert(header.name@ =~= Seq::new(
        OBJECT_NAME_SIZE as nat,
        |i: int|
            if i < len {
                bytes@[i]
            } else {
                0
            },
    ));
    header
}

/// Makes an object, and returns its place in the pool. `None` if the pool is
/// full.
pub fn create_object(
    pool: &mut ObjectPool,
    obj_type: ObjectType,
    name: &str,
    body: ObjectBody,
) -> (r: Option<u32>)
    ensures
        match free_object(old(pool).objects@) {
            Some(i) => {
                let h = final(pool).objects@[i as int];
                &&& r == Some(i as u32)
                &&& i < old(pool).objects@.len()
                &&& h is Some
                &&& is_new_object(h->0, obj_type, name.spec_bytes(), body)
                &&& final(pool).objects@ == old(pool).objects@.update(i as int, h)
            },
            None => r is None && final(pool).objects@ == old(pool).objects@,
        },
{
    let ghost v = pool.objects@;
    let ghost p = |i: int| v[i] is None;
    let mut i: usize = 0;
    while i < MAX_OBJECTS
        invariant
            i <= pool.objects@.len(),
            *pool == *old(pool),
            v == pool.objects@,
            v.len() <= MAX_OBJECTS,
            p == (|i: int| v[i] is None),
            forall|j: int| 0 <= j < i ==> !#[trigger] p(j),
        decreases pool.objects@.len() - i,
    {
        if pool.objects[i].is_none() {
            proof {
                assert(p(i as int));
                search::lemma_first_is(v.len(), p, i);
            }
            let header: ObjectHeader = new_object(obj_type, name, body);
            pool.objects[i] = Some(header);
            return Some(i as u32);
        }
        i = i + 1;
    }
    proof {
        search::lemma_first_none(v.len(), p);
    }
    None
}

/// Whether there is a place for another object.
pub fn has_room(pool: &ObjectPool) -> (r: bool)
    ensures
        r == (free_object(pool.objects@) is Some),
{
    let ghost v = pool.objects@;
    let ghost p = |i: int| v[i] is None;
    let mut i: usize = 0;
    while i < MAX_OBJECTS
        invariant
            i <= MAX_OBJECTS,
            v == pool.objects@,
            p == (|i: int| v[i] is None),
            forall|j: int| 0 <= j < i ==> !#[trigger] p(j),
        decreases MAX_OBJECTS - i,
    {
        if pool.objects[i].is_none() {
            proof {
                assert(p(i as int));
                search::lemma_first_is(v.len(), p, i);
            }
            return true;
        }
        i = i + 1;
    }
    proof {
        search::lemma_first_none(v.len(), p);
    }
    false
}

/// The pool holds an object at a place.
pub open spec fn is_object(pool: Seq<Option<ObjectHeader>>, index: u32) -> bool {
    index < pool.len() && pool[index as int] is Some
}

/// The pool with one more reference to an object, and the status.
pub open spec fn referenced(pool: Seq<Option<ObjectHeader>>, index: u32) -> (
    Seq<Option<ObjectHeader>>,
    u32,
) {
    if is_object(pool, index) {
        let h = pool[index as int]->0;
        (
            pool.update(
                index as int,
                Some(ObjectHeader { ref_count: (h.ref_count + 1) as u32, ..h }),
            ),
            STATUS_SUCCESS,
        )
    } else {
        (pool, STATUS_INVALID_HANDLE)
    }
}

/// The pool with one reference to an object fewer, and the status. An object
/// without references goes, unless it is permanent.
pub open spec fn dereferenced(pool: Seq<Option<ObjectHeader>>, index: u32) -> (
    Seq<Option<ObjectHeader>>,
    u32,
) {
    if !is_object(pool, index) || pool[index as int]->0.ref_count == 0 {
        (pool, STATUS_INVALID_HANDLE)
    } else {
        let h = pool[index as int]->0;
        if h.ref_count == 1 && !h.permanent {
            (pool.update(index as int, None), STATUS_SUCCESS)
        } else {
            (
                pool.update(
                    index as int,
                    Some(ObjectHeader { ref_count: (h.ref_count - 1) as u32, ..h }),
                ),
                STATUS_SUCCESS,
            )
        }
    }
}

/// Adds a reference to an object.
pub fn reference_object(pool: &mut ObjectPool, index: u32) -> (r: NTSTATUS)
    requires
        is_object(old(pool).objects@, index) ==> old(pool).objects@[index as int]->0.ref_count
            < u32::MAX,
    ensures
        (final(pool).objects@, r.0) == referenced(old(pool).objects@, index),
{
    let i: usize = index as usize;
    if i < MAX_OBJECTS {
        match pool.objects[i] {
            Some(h) => {
                let mut h = h;
                h.ref_count = h.ref_count + 1;
                pool.objects[i] = Some(h);
                return NTSTATUS(STATUS_SUCCESS);
            },
            None => {},
        }
    }
    NTSTATUS(STATUS_INVALID_HANDLE)
}

/// Adds a reference to an object, unless it has as many as can be counted.
/// `None`, and the pool as it was, if it has.
pub fn try_reference_object(pool: &mut ObjectPool, index: u32) -> (r: Option<NTSTATUS>)
    ensures
        if is_object(old(pool).objects@, index) && old(pool).objects@[index as int]->0.ref_count
            == u32::MAX {
            r is None && final(pool).objects@ == old(pool).objects@
        } else {
            r matches Some(s) && (final(pool).objects@, s.0) == referenced(
                old(pool).objects@,
                index,
            )
        },
{
    let i: usize = index as usize;
    if i < MAX_OBJECTS {
        match &pool.objects[i] {
            Some(h) => {
                if h.ref_count == u32::MAX {
                    return None;
                }
            },
            None => {},
        }
    }
    Some(reference_object(pool, index))
}

/// Takes a reference to an object away. See `dereferenced`.
pub fn dereference_object(pool: &mut ObjectPool, index: u32) -> (r: NTSTATUS)
    ensures
        (final(pool).objects@, r.0) == dereferenced(old(pool).objects@, index),
{
    let i: usize = index as usize;
    if i >= MAX_OBJECTS {
        return NTSTATUS(STATUS_INVALID_HANDLE);
    }
    match pool.objects[i] {
        Some(h) => {
            if h.ref_count == 0 {
                return NTSTATUS(STATUS_INVALID_HANDLE);
            }
            let mut h = h;
            h.ref_count = h.ref_count - 1;
            if h.ref_count == 0 && !h.permanent {
                pool.objects[i] = None;
            } else {
                pool.objects[i] = Some(h);
            }
            NTSTATUS(STATUS_SUCCESS)
        },
        None => NTSTATUS(STATUS_INVALID_HANDLE),
    }
}

/// A count of handles with one more, as far as it goes.
pub open spec fn one_more(n: u32) -> u32 {
    if n < u32::MAX {
        (n + 1) as u32
    } else {
        n
    }
}

/// A count of handles with one fewer, as far as it goes.
pub open spec fn one_fewer(n: u32) -> u32 {
    if n > 0 {
        (n - 1) as u32
    } else {
        n
    }
}

/// The pool once a handle to an object is counted.
pub open spec fn handle_counted(pool: Seq<Option<ObjectHeader>>, index: u32) -> Seq<
    Option<ObjectHeader>,
> {
    if is_object(pool, index) {
        let h = pool[index as int]->0;
        pool.update(
            index as int,
            Some(ObjectHeader { handle_count: one_more(h.handle_count), ..h }),
        )
    } else {
        pool
    }
}

/// The pool once a handle to an object is no longer counted.
pub open spec fn handle_discounted(pool: Seq<Option<ObjectHeader>>, index: u32) -> Seq<
    Option<ObjectHeader>,
> {
    if is_object(pool, index) {
        let h = pool[index as int]->0;
        pool.update(
            index as int,
            Some(ObjectHeader { handle_count: one_fewer(h.handle_count), ..h }),
        )
    } else {
        pool
    }
}

/// The pool once another handle leads to an object, and the status: the object has
/// one reference and one handle more.
pub open spec fn held(pool: Seq<Option<ObjectHeader>>, index: u32) -> (
    Seq<Option<ObjectHeader>>,
    u32,
) {
    (handle_counted(referenced(pool, index).0, index), referenced(pool, index).1)
}

/// The pool once a handle no longer leads to an object, and the status: the object
/// has one handle and one reference fewer, and goes with the last reference.
pub open spec fn released(pool: Seq<Option<ObjectHeader>>, index: u32) -> (
    Seq<Option<ObjectHeader>>,
    u32,
) {
    if !is_object(pool, index) || pool[index as int]->0.ref_count == 0 {
        (pool, STATUS_INVALID_HANDLE)
    } else {
        dereferenced(handle_discounted(pool, index), index)
    }
}

/// Counts a handle to an object.
pub fn count_handle(pool: &mut ObjectPool, index: u32)
    ensures
        final(pool).objects@ == handle_counted(old(pool).objects@, index),
{
    let i: usize = index as usize;
    if i < MAX_OBJECTS {
        match pool.objects[i] {
            Some(h) => {
                let mut h = h;
                if h.handle_count < u32::MAX {
                    h.handle_count = h.handle_count + 1;
                }
                pool.objects[i] = Some(h);
            },
            None => {},
        }
    }
}

/// Adds the reference of a handle to an object, unless it has as many as can be
/// counted. See `held`. `None`, and the pool as it was, if it has.
pub fn try_hold_object(pool: &mut ObjectPool, index: u32) -> (r: Option<NTSTATUS>)
    ensures
        if is_object(old(pool).objects@, index) && old(pool).objects@[index as int]->0.ref_count
            == u32::MAX {
            r is None && final(pool).objects@ == old(pool).objects@
        } else {
            r matches Some(s) && (final(pool).objects@, s.0) == held(old(pool).objects@, index)
        },
{
    let status: Option<NTSTATUS> = try_reference_object(pool, index);
    if status.is_some() {
        count_handle(pool, index);
    }
    status
}

/// Takes the reference of a handle to an object away. See `released`.
pub fn release_object(pool: &mut ObjectPool, index: u32) -> (r: NTSTATUS)
    ensures
        (final(pool).objects@, r.0) == released(old(pool).objects@, index),
{
    let i: usize = index as usize;
    if i >= MAX_OBJECTS {
        return NTSTATUS(STATUS_INVALID_HANDLE);
    }
    match pool.objects[i] {
        Some(h) => {
            if h.ref_count == 0 {
                return NTSTATUS(STATUS_INVALID_HANDLE);
            }
            let mut h = h;
            if h.handle_count > 0 {
                h.handle_count = h.handle_count - 1;
            }
            pool.objects[i] = Some(h);
        },
        None => {
            return NTSTATUS(STATUS_INVALID_HANDLE);
        },
    }
    dereference_object(pool, index)
}

/// The first object with a name.
pub open spec fn object_named(pool: Seq<Option<ObjectHeader>>, name: Seq<u8>) -> Option<usize> {
    search::first(pool.len(), |i: int| pool[i] matches Some(h) && h.has_name(name))
}

/// Whether an object has a name.
fn is_named(h: &ObjectHeader, name: &[u8]) -> (r: bool)
    ensures
        r == h.has_name(name@),
{
    if h.name_len != name.len() || name.len() > OBJECT_NAME_SIZE {
        return false;
    }
    let mut i: usize = 0;
    while i < name.len()
        invariant
            i <= name.len(),
            name.len() <= OBJECT_NAME_SIZE,
            forall|j: int| 0 <= j < i ==> h.name@[j] == name@[j],
        decreases name.len() - i,
    {
        if h.name[i] != name[i] {
            return false;
        }
        i = i + 1;
    }
    true
}

/// Finds an object by its name.
pub fn lookup_object(pool: &ObjectPool, name: &str) -> (r: Option<u32>)
    ensures
        match object_named(pool.objects@, name.spec_bytes()) {
            Some(i) => r == Some(i as u32) && i < pool.objects@.len()
                && pool.objects@[i as int] is Some && pool.objects@[i as int]->0.has_name(
                name.spec_bytes(),
            ),
            None => r is None,
        },
{
    let bytes: &[u8] = name.as_bytes();
    let ghost v = pool.objects@;
    let ghost p = |i: int| v[i] matches Some(h) && h.has_name(bytes@);
    let mut i: usize = 0;
    while i < MAX_OBJECTS
        invariant
            i <= pool.objects@.len(),
            v == pool.objects@,
            v.len() <= MAX_OBJECTS,
            bytes@ == name.spec_bytes(),
            p == (|i: int| v[i] matches Some(h) && h.has_name(bytes@)),
            forall|j: int| 0 <= j < i ==> !#[trigger] p(j),
        decreases pool.objects@.len() - i,
    {
        match &pool.objects[i] {
            Some(h) => {
                if is_named(h, bytes) {
                    proof {
                        assert(p(i as int));
                        search::lemma_first_is(v.len(), p, i);
                    }
                    return Some(i as u32);
                }
            },
            None => {},
        }
        i = i + 1;
    }
    proof {
        search::lemma_first_none(v.len(), p);
    }
    None
}

/// The kind of an object.
pub fn get_object_type(pool: &ObjectPool, index: u32) -> (r: Option<ObjectType>)
    ensures
        r == (if is_object(pool.objects@, index) {
            Some(pool.objects@[index as int]->0.object_type)
        } else {
            None
        }),
{
    let i: usize = index as usize;
    if i < MAX_OBJECTS {
        match &pool.objects[i] {
            Some(h) => Some(h.object_type),
            None => None,
        }
    } else {
        None
    }
}

/// How many objects there are.
pub fn object_count(pool: &ObjectPool) -> (r: usize)
    ensures
        r == search::count(pool.objects@.len(), |i: int| pool.objects@[i] is Some),
        r <= MAX_OBJECTS,
{
    let mut count: usize = 0;
    let mut i: usize = 0;
    while i < MAX_OBJECTS
        invariant
            i <= pool.objects@.len(),
            count <= i,
            count == search::count(i as nat, |i: int| pool.objects@[i] is Some),
        decreases pool.objects@.len() - i,
    {
        if pool.objects[i].is_some() {
            count = count + 1;
        }
        i = i + 1;
    }
    count
}

/// What opening an object by its name leaves behind, and its result: the object
/// has one reference and one handle more. Where that fails, nothing changes.
pub open spec fn opened(
    pool: Seq<Option<ObjectHeader>>,
    table: Seq<HandleEntry>,
    name: Seq<u8>,
    expected: ObjectType,
    access: ACCESS_MASK,
) -> (Seq<Option<ObjectHeader>>, Seq<HandleEntry>, Result<HANDLE, NTSTATUS>) {
    match object_named(pool, name) {
        None => (pool, table, Err(NTSTATUS(STATUS_OBJECT_NAME_NOT_FOUND))),
        Some(i) => if pool[i as int]->0.object_type != expected {
            (pool, table, Err(NTSTATUS(STATUS_OBJECT_TYPE_MISMATCH)))
        } else if free_place(table) is None {
            (pool, table, Err(NTSTATUS(STATUS_INSUFFICIENT_RESOURCES)))
        } else {
            (
                held(pool, i as u32).0,
                allotted(table, i as u32, access).0,
                Ok(allotted(table, i as u32, access).1),
            )
        },
    }
}

/// As `opened`, also where the object has as many references as can be counted:
/// then it is not opened, and nothing changes.
pub open spec fn opened_if_counted(
    pool: Seq<Option<ObjectHeader>>,
    table: Seq<HandleEntry>,
    name: Seq<u8>,
    expected: ObjectType,
    access: ACCESS_MASK,
) -> (Seq<Option<ObjectHeader>>, Seq<HandleEntry>, Result<HANDLE, NTSTATUS>) {
    let open = opened(pool, table, name, expected, access);
    if open.2 is Ok && pool[object_named(pool, name)->0 as int]->0.ref_count == u32::MAX {
        (pool, table, Err(NTSTATUS(STATUS_INSUFFICIENT_RESOURCES)))
    } else {
        open
    }
}

/// Opens an object by its name and makes a handle to it. The object must be of
/// the expected kind. See `opened`.
pub fn open_object(
    pool: &mut ObjectPool,
    handle_table: &mut HandleTable,
    name: &str,
    expected_type: ObjectType,
    access: ACCESS_MASK,
) -> (r: Result<HANDLE, NTSTATUS>)
    requires
        object_named(old(pool).objects@, name.spec_bytes()) matches Some(i) ==> old(
            pool,
        ).objects@[i as int]->0.ref_count < u32::MAX,
    ensures
        (final(pool).objects@, final(handle_table).entries@, r) == opened(
            old(pool).objects@,
            old(handle_table).entries@,
            name.spec_bytes(),
            expected_type,
            access,
        ),
{
    try_open_object(pool, handle_table, name, expected_type, access)
}

/// Opens an object by its name and makes a handle to it, unless the object has as
/// many references as can be counted. See `opened_if_counted`.
pub fn try_open_object(
    pool: &mut ObjectPool,
    handle_table: &mut HandleTable,
    name: &str,
    expected_type: ObjectType,
    access: ACCESS_MASK,
) -> (r: Result<HANDLE, NTSTATUS>)
    ensures
        (final(pool).objects@, final(handle_table).entries@, r) == opened_if_counted(
            old(pool).objects@,
            old(handle_table).entries@,
            name.spec_bytes(),
            expected_type,
            access,
        ),
{
    let index: u32 = match lookup_object(pool, name) {
        Some(i) => i,
        None => {
            return Err(NTSTATUS(STATUS_OBJECT_NAME_NOT_FOUND));
        },
    };
    match get_object_type(pool, index) {
        Some(t) => {
            if t != expected_type {
                return Err(NTSTATUS(STATUS_OBJECT_TYPE_MISMATCH));
            }
        },
        None => {
            return Err(NTSTATUS(STATUS_INVALID_HANDLE));
        },
    }
    if !handle_table.has_room() {
        return Err(NTSTATUS(STATUS_INSUFFICIENT_RESOURCES));
    }
    match try_hold_object(pool, index) {
        Some(status) => {
            if status.is_error() {
                return Err(status);
            }
        },
        None => {
            return Err(NTSTATUS(STATUS_INSUFFICIENT_RESOURCES));
        },
    }
    Ok(handle_table.allocate(index, access))
}

/// A free place of a pool is in the pool.
pub proof fn lemma_free_object(pool: Seq<Option<ObjectHeader>>)
    requires
        pool.len() <= MAX_OBJECTS,
    ensures
        free_object(pool) matches Some(i) ==> i < pool.len() && pool[i as int] is None,
{
    search::lemma_first(pool.len(), |i: int| pool[i] is None);
}

/// A free place is in the table, behind the first one.
pub proof fn lemma_free_place(t: Seq<HandleEntry>)
    ensures
        free_place(t) matches Some(i) ==> 1 <= i < HANDLE_TABLE_SIZE && t[i as int].object_index
            == NO_OBJECT,
{
    search::lemma_first(
        HANDLE_TABLE_SIZE as nat,
        |i: int| i >= 1 && t[i].object_index == NO_OBJECT,
    );
}

/// What closing a handle leaves behind, and the status.
pub open spec fn closed(
    pool: Seq<Option<ObjectHeader>>,
    table: Seq<HandleEntry>,
    h: HANDLE,
) -> (Seq<Option<ObjectHeader>>, Seq<HandleEntry>, u32) {
    let (t, status) = handle_closed(table, h);
    if status != STATUS_SUCCESS {
        (pool, t, status)
    } else {
        let (p, s) = released(pool, table[place_of(h)].object_index);
        (p, t, s)
    }
}

/// Closes a handle, and takes its reference to the object away.
pub fn close_handle(
    pool: &mut ObjectPool,
    handle_table: &mut HandleTable,
    handle: HANDLE,
) -> (r: NTSTATUS)
    ensures
        (final(pool).objects@, final(handle_table).entries@, r.0) == closed(
            old(pool).objects@,
            old(handle_table).entries@,
            handle,
        ),
{
    let object_index: u32 = match handle_table.get(handle) {
        Some(e) => e.object_index,
        None => {
            return NTSTATUS(STATUS_INVALID_HANDLE);
        },
    };
    let status: NTSTATUS = handle_table.close(handle);
    if status.is_error() {
        return status;
    }
    release_object(pool, object_index)
}

/// Every handle is a multiple of four and neither null nor the invalid one.
pub proof fn law_handles_are_multiples_of_four(
    t: Seq<HandleEntry>,
    object: u32,
    access: ACCESS_MASK,
)
    requires
        free_place(t) is Some,
    ensures
        ({
            let h = allotted(t, object, access).1;
            h.0 % 4 == 0 && h.0 != 0 && h.0 != usize::MAX && place_of(h) == free_place(t)->0
        }),
{
    lemma_free_place(t);
}

/// Closing a handle undoes opening it: the pool and the table are as before.
pub proof fn law_close_undoes_open(
    pool: Seq<Option<ObjectHeader>>,
    table: Seq<HandleEntry>,
    name: Seq<u8>,
    expected: ObjectType,
    access: ACCESS_MASK,
    handle: HANDLE,
)
    requires
        table.len() == HANDLE_TABLE_SIZE,
        forall|i: int|
            0 <= i < table.len() && (#[trigger] table[i]).object_index == NO_OBJECT ==> table[i]
                == HandleEntry::spec_empty(),
        pool.len() <= MAX_OBJECTS,
        forall|i: int|
            0 <= i < pool.len() && (#[trigger] pool[i]) is Some ==> 0 < pool[i]->0.ref_count
                < u32::MAX && pool[i]->0.handle_count < u32::MAX,
        opened(pool, table, name, expected, access).2 == Ok::<HANDLE, NTSTATUS>(handle),
    ensures
        ({
            let (p, t, _) = opened(pool, table, name, expected, access);
            closed(p, t, handle) == (pool, table, STATUS_SUCCESS)
        }),
{
    let (p, t, _) = opened(pool, table, name, expected, access);
    let i = object_named(pool, name)->0;
    search::lemma_first(
        pool.len(),
        |i: int| pool[i] matches Some(h) && h.has_name(name),
    );
    law_handles_are_multiples_of_four(table, i as u32, access);
    lemma_free_place(table);
    let k = free_place(table)->0 as int;
    assert(t[k].object_index == i);
    assert(table[k] == HandleEntry::spec_empty());
    assert(closed(p, t, handle).1 =~= table);
    assert(closed(p, t, handle).0 =~= pool);
}

/// An object goes with its last reference: closing the only handle to it
/// removes it, unless it is permanent.
pub proof fn law_object_goes_with_its_last_reference(
    pool: Seq<Option<ObjectHeader>>,
    table: Seq<HandleEntry>,
    h: HANDLE,
)
    requires
        table.len() == HANDLE_TABLE_SIZE,
        in_use(table, h),
        !table[place_of(h)].protect,
        is_object(pool, table[place_of(h)].object_index),
        pool[table[place_of(h)].object_index as int]->0.ref_count == 1,
        !pool[table[place_of(h)].object_index as int]->0.permanent,
    ensures
        ({
            let (p, t, s) = closed(pool, table, h);
            &&& s == STATUS_SUCCESS
            &&& !is_object(p, table[place_of(h)].object_index)
            &&& closed(p, t, h).2 == STATUS_INVALID_HANDLE
        }),
{
}

} // verus!
