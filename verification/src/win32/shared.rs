//! The object manager on a pool that several processors share.
//!
//! Each function takes the lock once and works on whatever the pool holds then.
//! No caller knows what that is, so a contract here says what holds whatever the
//! pool is, or that the outcome is that of some pool. What a function does to a
//! given pool is stated in `object`.

use vstd::prelude::*;
use vstd::string::*;
use crate::lock;
use crate::search;
use super::error::{STATUS_INVALID_HANDLE, STATUS_OBJECT_NAME_NOT_FOUND, STATUS_SUCCESS};
use super::object;
use super::object::{
    HandleTable, ObjectBody, ObjectHeader, ObjectPool, ObjectType, MAX_OBJECTS, OBJECT_NAME_SIZE,
};
use super::types::{ACCESS_MASK, HANDLE, NTSTATUS};

verus! {

/// Makes an object, and returns its place. `None` if the pool is full.
pub fn create_object(
    pool: &spin::Mutex<ObjectPool>,
    obj_type: ObjectType,
    name: &str,
    body: ObjectBody,
) -> (r: Option<u32>)
    ensures
        r matches Some(i) ==> i < MAX_OBJECTS,
{
    let mut guard = lock::lock(pool);
    object::create_object(lock::guarded(&mut guard), obj_type, name, body)
}

/// Adds a reference to an object. `None` if it has as many as can be counted. A
/// place behind the pool is never an object.
pub fn reference_object(pool: &spin::Mutex<ObjectPool>, index: u32) -> (r: Option<NTSTATUS>)
    ensures
        r matches Some(s) ==> s.0 == STATUS_SUCCESS || s.0 == STATUS_INVALID_HANDLE,
        index >= MAX_OBJECTS ==> r == Some(NTSTATUS(STATUS_INVALID_HANDLE)),
{
    let mut guard = lock::lock(pool);
    object::try_reference_object(lock::guarded(&mut guard), index)
}

/// Takes a reference to an object away. The object goes with the last one,
/// unless it is permanent. A place behind the pool is never an object.
pub fn dereference_object(pool: &spin::Mutex<ObjectPool>, index: u32) -> (r: NTSTATUS)
    ensures
        r.0 == STATUS_SUCCESS || r.0 == STATUS_INVALID_HANDLE,
        index >= MAX_OBJECTS ==> r.0 == STATUS_INVALID_HANDLE,
{
    let mut guard = lock::lock(pool);
    object::dereference_object(lock::guarded(&mut guard), index)
}

/// Finds an object by its name. A name that no object has room for is never
/// found.
pub fn lookup_object(pool: &spin::Mutex<ObjectPool>, name: &str) -> (r: Option<u32>)
    ensures
        r matches Some(i) ==> i < MAX_OBJECTS,
        name.spec_bytes().len() > OBJECT_NAME_SIZE ==> r is None,
{
    let mut guard = lock::lock(pool);
    object::lookup_object(lock::guarded(&mut guard), name)
}

/// The kind of an object. A place behind the pool is never an object.
pub fn get_object_type(pool: &spin::Mutex<ObjectPool>, index: u32) -> (r: Option<ObjectType>)
    ensures
        index >= MAX_OBJECTS ==> r is None,
{
    let mut guard = lock::lock(pool);
    object::get_object_type(lock::guarded(&mut guard), index)
}

/// How many objects there are.
pub fn object_count(pool: &spin::Mutex<ObjectPool>) -> (r: usize)
    ensures
        r <= MAX_OBJECTS,
{
    let mut guard = lock::lock(pool);
    object::object_count(lock::guarded(&mut guard))
}

/// Opens an object by its name and makes a handle to it. The object must be of
/// the expected kind. Where that fails, for want of such an object, of room in the
/// table or of a reference that can be counted, nothing changes. See
/// `object::opened_if_counted`.
pub fn open_object(
    pool: &spin::Mutex<ObjectPool>,
    handle_table: &mut HandleTable,
    name: &str,
    expected_type: ObjectType,
    access: ACCESS_MASK,
) -> (r: Result<HANDLE, NTSTATUS>)
    ensures
        exists|p: Seq<Option<ObjectHeader>>|
            p.len() == MAX_OBJECTS && (final(handle_table).entries@, r) == (
                (#[trigger] object::opened_if_counted(
                    p,
                    old(handle_table).entries@,
                    name.spec_bytes(),
                    expected_type,
                    access,
                )).1,
                object::opened_if_counted(
                    p,
                    old(handle_table).entries@,
                    name.spec_bytes(),
                    expected_type,
                    access,
                ).2,
            ),
        object::free_place(old(handle_table).entries@) is None ==> r is Err,
        name.spec_bytes().len() > OBJECT_NAME_SIZE ==> r == Err::<HANDLE, NTSTATUS>(
            NTSTATUS(STATUS_OBJECT_NAME_NOT_FOUND),
        ),
{
    let mut guard = lock::lock(pool);
    let objects: &mut ObjectPool = lock::guarded(&mut guard);
    let ghost p = objects.objects@;
    let ghost t = handle_table.entries@;
    let r = object::try_open_object(objects, handle_table, name, expected_type, access);
    proof {
        let n = name.spec_bytes();
        let open = object::opened_if_counted(p, t, n, expected_type, access);
        assert((handle_table.entries@, r) == (open.1, open.2));
        search::lemma_first(p.len(), |i: int| p[i] matches Some(h) && h.has_name(n));
    }
    r
}

/// Makes another handle to the object of a handle. The invalid handle, and the
/// table as it was, if there is no such handle or no such object, the table is
/// full, or the object has as many references as can be counted. See
/// `object::duplicated`.
pub fn duplicate_handle(
    pool: &spin::Mutex<ObjectPool>,
    handle_table: &mut HandleTable,
    source: HANDLE,
    access: ACCESS_MASK,
) -> (r: HANDLE)
    ensures
        exists|p: Seq<Option<ObjectHeader>>|
            p.len() == MAX_OBJECTS && (final(handle_table).entries@, r) == (
                (#[trigger] object::duplicated(p, old(handle_table).entries@, source, access)).1,
                object::duplicated(p, old(handle_table).entries@, source, access).2,
            ),
{
    let mut guard = lock::lock(pool);
    let objects: &mut ObjectPool = lock::guarded(&mut guard);
    let ghost p = objects.objects@;
    let ghost t = handle_table.entries@;
    let r = handle_table.duplicate(objects, source, access);
    proof {
        let made = object::duplicated(p, t, source, access);
        assert((handle_table.entries@, r) == (made.1, made.2));
    }
    r
}

/// Closes a handle, and takes its reference to the object away. See
/// `object::closed`.
pub fn close_handle(
    pool: &spin::Mutex<ObjectPool>,
    handle_table: &mut HandleTable,
    handle: HANDLE,
) -> (r: NTSTATUS)
    ensures
        exists|p: Seq<Option<ObjectHeader>>|
            p.len() == MAX_OBJECTS && (final(handle_table).entries@, r.0) == (
                (#[trigger] object::closed(p, old(handle_table).entries@, handle)).1,
                object::closed(p, old(handle_table).entries@, handle).2,
            ),
{
    let mut guard = lock::lock(pool);
    let objects: &mut ObjectPool = lock::guarded(&mut guard);
    let ghost p = objects.objects@;
    let ghost t = handle_table.entries@;
    let r: NTSTATUS = object::close_handle(objects, handle_table, handle);
    proof {
        let shut = object::closed(p, t, handle);
        assert((handle_table.entries@, r.0) == (shut.1, shut.2));
    }
    r
}

} // verus!
