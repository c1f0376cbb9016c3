//! What the counts of an object mean: how long it lives, and how many handles
//! lead to it.

use vstd::prelude::*;
use crate::search;
use super::error::{STATUS_INSUFFICIENT_RESOURCES, STATUS_INVALID_HANDLE, STATUS_SUCCESS};
use super::ntapi;
use super::object;
use super::object::{
    HandleEntry, ObjectBody, ObjectHeader, ObjectType, HANDLE_TABLE_SIZE, MAX_OBJECTS, NO_OBJECT,
};
use super::types::{ACCESS_MASK, HANDLE, NTSTATUS};

verus! {

/// The pool once an object was referenced `k` times.
pub open spec fn referenced_times(pool: Seq<Option<ObjectHeader>>, index: u32, k: nat) -> Seq<
    Option<ObjectHeader>,
>
    decreases k,
{
    if k == 0 {
        pool
    } else {
        object::referenced(referenced_times(pool, index, (k - 1) as nat), index).0
    }
}

/// The pool once an object was dereferenced `k` times.
pub open spec fn dereferenced_times(pool: Seq<Option<ObjectHeader>>, index: u32, k: nat) -> Seq<
    Option<ObjectHeader>,
>
    decreases k,
{
    if k == 0 {
        pool
    } else {
        object::dereferenced(dereferenced_times(pool, index, (k - 1) as nat), index).0
    }
}

/// The pool with another number of references to an object.
spec fn with_references(pool: Seq<Option<ObjectHeader>>, index: u32, n: int) -> Seq<
    Option<ObjectHeader>,
> {
    let h = pool[index as int]->0;
    pool.update(index as int, Some(ObjectHeader { ref_count: n as u32, ..h }))
}

proof fn lemma_referenced_times(pool: Seq<Option<ObjectHeader>>, index: u32, k: nat)
    requires
        object::is_object(pool, index),
        pool[index as int]->0.ref_count + k <= u32::MAX,
    ensures
        referenced_times(pool, index, k) == with_references(
            pool,
            index,
            pool[index as int]->0.ref_count + k,
        ),
    decreases k,
{
    if k > 0 {
        lemma_referenced_times(pool, index, (k - 1) as nat);
    }
    assert(referenced_times(pool, index, k) =~= with_references(
        pool,
        index,
        pool[index as int]->0.ref_count + k,
    ));
}

proof fn lemma_dereferenced_times(pool: Seq<Option<ObjectHeader>>, index: u32, k: nat)
    requires
        object::is_object(pool, index),
        k < pool[index as int]->0.ref_count,
    ensures
        dereferenced_times(pool, index, k) == with_references(
            pool,
            index,
            pool[index as int]->0.ref_count - k,
        ),
    decreases k,
{
    if k > 0 {
        lemma_dereferenced_times(pool, index, (k - 1) as nat);
    }
    assert(dereferenced_times(pool, index, k) =~= with_references(
        pool,
        index,
        pool[index as int]->0.ref_count - k,
    ));
}

/// A new object that was referenced `k` times survives `k` dereferences, each of
/// which succeeds, and goes with the next one, which leaves the pool as it was
/// before the object was made. After that, referencing or dereferencing it fails.
pub proof fn law_object_lives_as_long_as_its_references(
    pool: Seq<Option<ObjectHeader>>,
    made: Seq<Option<ObjectHeader>>,
    index: u32,
    obj_type: ObjectType,
    name: Seq<u8>,
    body: ObjectBody,
    k: nat,
)
    requires
        pool.len() <= MAX_OBJECTS,
        object::free_object(pool) == Some(index as usize),
        index < pool.len(),
        made.len() == pool.len(),
        made[index as int] is Some,
        made == pool.update(index as int, made[index as int]),
        object::is_new_object(made[index as int]->0, obj_type, name, body),
        k < u32::MAX,
    ensures
        ({
            let p = referenced_times(made, index, k);
            let end = dereferenced_times(p, index, k + 1);
            &&& forall|j: nat|
                j < k ==> (#[trigger] object::referenced(referenced_times(made, index, j), index)).1
                    == STATUS_SUCCESS
            &&& forall|j: nat|
                j <= k ==> object::is_object(#[trigger] dereferenced_times(p, index, j), index)
                    && object::dereferenced(dereferenced_times(p, index, j), index).1
                    == STATUS_SUCCESS
            &&& end == pool
            &&& !object::is_object(end, index)
            &&& object::dereferenced(end, index).1 == STATUS_INVALID_HANDLE
            &&& object::referenced(end, index).1 == STATUS_INVALID_HANDLE
        }),
{
    object::lemma_free_object(pool);
    lemma_referenced_times(made, index, k);
    let p = referenced_times(made, index, k);
    assert forall|j: nat| j < k implies (#[trigger] object::referenced(
        referenced_times(made, index, j),
        index,
    )).1 == STATUS_SUCCESS by {
        lemma_referenced_times(made, index, j);
    }
    assert forall|j: nat| j <= k implies object::is_object(
        #[trigger] dereferenced_times(p, index, j),
        index,
    ) && object::dereferenced(dereferenced_times(p, index, j), index).1 == STATUS_SUCCESS by {
        lemma_dereferenced_times(p, index, j);
    }
    lemma_dereferenced_times(p, index, k);
    let end = dereferenced_times(p, index, k + 1);
    assert(end == object::dereferenced(dereferenced_times(p, index, k), index).0);
    assert(end =~= pool);
}

/// Closing one of the two handles to an object that was duplicated keeps the
/// object, as many references as it had before; closing the other one takes one
/// more away, and the object goes if it was the last.
pub proof fn law_duplicate_keeps_the_object(
    pool: Seq<Option<ObjectHeader>>,
    table: Seq<HandleEntry>,
    source: HANDLE,
    access: ACCESS_MASK,
)
    requires
        table.len() == HANDLE_TABLE_SIZE,
        object::in_use(table, source),
        !table[object::place_of(source)].protect,
        object::is_object(pool, table[object::place_of(source)].object_index),
        0 < pool[table[object::place_of(source)].object_index as int]->0.ref_count < u32::MAX,
        object::free_place(table) is Some,
    ensures
        ({
            let i = table[object::place_of(source)].object_index;
            let refs = pool[i as int]->0.ref_count;
            let (p, t, copy) = object::duplicated(pool, table, source, access);
            let (p1, t1, s1) = object::closed(p, t, source);
            let (p2, t2, s2) = object::closed(p1, t1, copy);
            &&& p[i as int]->0.ref_count == refs + 1
            &&& object::in_use(t, copy) && t[object::place_of(copy)].object_index == i
            &&& s1 == STATUS_SUCCESS
            &&& object::is_object(p1, i) && p1[i as int]->0.ref_count == refs
            &&& s2 == STATUS_SUCCESS
            &&& if refs == 1 && !pool[i as int]->0.permanent {
                !object::is_object(p2, i)
            } else {
                object::is_object(p2, i) && p2[i as int]->0.ref_count == refs - 1
            }
        }),
{
    let i = table[object::place_of(source)].object_index;
    object::lemma_free_place(table);
    object::law_handles_are_multiples_of_four(table, i, access);
}

/// Closing a handle undoes duplicating it: the pool and the table are as before.
pub proof fn law_close_undoes_duplicate(
    pool: Seq<Option<ObjectHeader>>,
    table: Seq<HandleEntry>,
    source: HANDLE,
    access: ACCESS_MASK,
)
    requires
        table.len() == HANDLE_TABLE_SIZE,
        forall|i: int|
            0 <= i < table.len() && (#[trigger] table[i]).object_index == NO_OBJECT ==> table[i]
                == HandleEntry::spec_empty(),
        object::in_use(table, source),
        object::is_object(pool, table[object::place_of(source)].object_index),
        0 < pool[table[object::place_of(source)].object_index as int]->0.ref_count < u32::MAX,
        pool[table[object::place_of(source)].object_index as int]->0.handle_count < u32::MAX,
        object::free_place(table) is Some,
    ensures
        ({
            let (p, t, copy) = object::duplicated(pool, table, source, access);
            object::closed(p, t, copy) == (pool, table, STATUS_SUCCESS)
        }),
{
    let i = table[object::place_of(source)].object_index;
    let (p, t, copy) = object::duplicated(pool, table, source, access);
    object::lemma_free_place(table);
    object::law_handles_are_multiples_of_four(table, i, access);
    let c = object::closed(p, t, copy);
    assert(c.0 =~= pool);
    assert(c.1 =~= table);
}

/// Where the table has no place for a handle, opening an object fails and leaves
/// the pool and the table as they were.
pub proof fn law_full_table_leaves_the_objects_alone(
    pool: Seq<Option<ObjectHeader>>,
    table: Seq<HandleEntry>,
    name: Seq<u8>,
    expected: ObjectType,
    access: ACCESS_MASK,
)
    requires
        object::free_place(table) is None,
    ensures
        ({
            let (p, t, r) = object::opened(pool, table, name, expected, access);
            &&& p == pool
            &&& t == table
            &&& r is Err
            &&& object::object_named(pool, name) matches Some(i) ==> (
            pool[i as int]->0.object_type == expected ==> r == Err::<HANDLE, NTSTATUS>(
                NTSTATUS(STATUS_INSUFFICIENT_RESOURCES),
            ))
        }),
{
}

/// A place of a table leads to an object.
pub open spec fn leads_to(table: Seq<HandleEntry>, k: int, index: u32) -> bool {
    k >= 1 && table[k].object_index == index
}

/// How many handles of a table lead to an object.
pub open spec fn handles_to(table: Seq<HandleEntry>, index: u32) -> nat {
    search::count(HANDLE_TABLE_SIZE as nat, |k: int| leads_to(table, k, index))
}

/// The counts of the objects fit the table of the only process that there is:
/// each counts the handles that lead to it, has a reference for each of them, and
/// every handle leads to an object.
pub open spec fn counts_fit(pool: Seq<Option<ObjectHeader>>, table: Seq<HandleEntry>) -> bool {
    &&& pool.len() <= MAX_OBJECTS
    &&& table.len() == HANDLE_TABLE_SIZE
    &&& forall|i: u32| #[trigger]
        object::is_object(pool, i) ==> pool[i as int]->0.handle_count == handles_to(table, i)
            && pool[i as int]->0.handle_count <= pool[i as int]->0.ref_count
    &&& forall|k: int|
        1 <= k < HANDLE_TABLE_SIZE && (#[trigger] table[k]).object_index != NO_OBJECT
            ==> object::is_object(pool, table[k].object_index)
}

/// A handle more to an object is one more that leads to it, and none more that
/// leads to another one.
proof fn lemma_handle_more(table: Seq<HandleEntry>, object: u32, access: ACCESS_MASK, index: u32)
    requires
        table.len() == HANDLE_TABLE_SIZE,
        object::free_place(table) is Some,
        object != NO_OBJECT,
        index != NO_OBJECT,
    ensures
        handles_to(object::allotted(table, object, access).0, index) == handles_to(table, index)
            + if index == object {
            1nat
        } else {
            0
        },
{
    object::lemma_free_place(table);
    let k = object::free_place(table)->0 as int;
    let t = object::allotted(table, object, access).0;
    let p = |j: int| leads_to(table, j, index);
    let q = |j: int| leads_to(t, j, index);
    if index == object {
        search::lemma_count_add(HANDLE_TABLE_SIZE as nat, p, q, k);
    } else {
        search::lemma_count_same(HANDLE_TABLE_SIZE as nat, p, q);
    }
}

/// A handle fewer to an object is one fewer that leads to it, and none fewer that
/// leads to another one.
proof fn lemma_handle_fewer(table: Seq<HandleEntry>, h: HANDLE, index: u32)
    requires
        table.len() == HANDLE_TABLE_SIZE,
        object::in_use(table, h),
        index != NO_OBJECT,
    ensures
        handles_to(table, index) == handles_to(
            table.update(object::place_of(h), HandleEntry::spec_empty()),
            index,
        ) + if index == table[object::place_of(h)].object_index {
            1nat
        } else {
            0
        },
{
    let k = object::place_of(h);
    let t = table.update(k, HandleEntry::spec_empty());
    let p = |j: int| leads_to(t, j, index);
    let q = |j: int| leads_to(table, j, index);
    if index == table[k].object_index {
        search::lemma_count_add(HANDLE_TABLE_SIZE as nat, p, q, k);
    } else {
        search::lemma_count_same(HANDLE_TABLE_SIZE as nat, p, q);
    }
}

/// Handles are counted: making an object, opening and duplicating a handle keep
/// the counts right.
pub proof fn law_new_handles_are_counted(
    pool: Seq<Option<ObjectHeader>>,
    table: Seq<HandleEntry>,
    obj_type: ObjectType,
    body: ObjectBody,
    name: Seq<u8>,
    source: HANDLE,
    access: ACCESS_MASK,
)
    requires
        counts_fit(pool, table),
        object::object_named(pool, name) matches Some(i) ==> pool[i as int]->0.ref_count
            < u32::MAX,
    ensures
        ({
            let (p, t, _) = ntapi::object_made(pool, table, obj_type, body, access);
            counts_fit(p, t)
        }),
        ({
            let (p, t, _) = object::opened(pool, table, name, obj_type, access);
            counts_fit(p, t)
        }),
        ({
            let (p, t, _) = object::duplicated(pool, table, source, access);
            counts_fit(p, t)
        }),
{
    object::lemma_free_object(pool);
    object::lemma_free_place(table);
    if object::free_object(pool) is Some && object::free_place(table) is Some {
        let i = object::free_object(pool)->0 as u32;
        let (p, t, _) = ntapi::object_made(pool, table, obj_type, body, access);
        let none = |k: int| leads_to(table, k, i);
        assert forall|k: int| 0 <= k < HANDLE_TABLE_SIZE implies !#[trigger] none(k) by {
            if k >= 1 {
                assert(!object::is_object(pool, i));
                assert(table[k].object_index != NO_OBJECT ==> object::is_object(
                    pool,
                    table[k].object_index,
                ));
            }
        }
        search::lemma_count_zero(HANDLE_TABLE_SIZE as nat, none);
        assert forall|j: u32| #[trigger] object::is_object(p, j) implies p[j as int]->0.handle_count
            == handles_to(t, j) && p[j as int]->0.handle_count <= p[j as int]->0.ref_count by {
            lemma_handle_more(table, i, access, j);
            if j != i {
                assert(object::is_object(pool, j));
            }
        }
        assert(counts_fit(p, t));
    }
    search::lemma_first(
        pool.len(),
        |i: int| pool[i] matches Some(h) && h.has_name(name),
    );
    if object::free_place(table) is Some {
        if object::object_named(pool, name) is Some {
            lemma_held_counted(pool, table, object::object_named(pool, name)->0 as u32, access);
        }
        let i = table[object::place_of(source)].object_index;
        if object::in_use(table, source) && object::is_object(pool, i)
            && pool[i as int]->0.ref_count < u32::MAX {
            lemma_held_counted(pool, table, i, access);
        }
    }
}

proof fn lemma_held_counted(
    pool: Seq<Option<ObjectHeader>>,
    table: Seq<HandleEntry>,
    i: u32,
    access: ACCESS_MASK,
)
    requires
        counts_fit(pool, table),
        object::is_object(pool, i),
        pool[i as int]->0.ref_count < u32::MAX,
        object::free_place(table) is Some,
    ensures
        counts_fit(object::held(pool, i).0, object::allotted(table, i, access).0),
{
    object::lemma_free_place(table);
    let p = object::held(pool, i).0;
    let t = object::allotted(table, i, access).0;
    assert forall|j: u32| #[trigger] object::is_object(p, j) implies p[j as int]->0.handle_count
        == handles_to(t, j) && p[j as int]->0.handle_count <= p[j as int]->0.ref_count by {
        lemma_handle_more(table, i, access, j);
        assert(object::is_object(pool, j));
    }
    assert forall|k: int|
        1 <= k < HANDLE_TABLE_SIZE && (#[trigger] t[k]).object_index
            != NO_OBJECT implies object::is_object(p, t[k].object_index) by {
        if t[k] == table[k] {
            assert(object::is_object(pool, table[k].object_index));
        }
    }
}

/// Closing a handle keeps the counts right, and no handle is left that leads to an
/// object that went with it.
pub proof fn law_closed_handles_are_no_longer_counted(
    pool: Seq<Option<ObjectHeader>>,
    table: Seq<HandleEntry>,
    h: HANDLE,
)
    requires
        counts_fit(pool, table),
    ensures
        ({
            let (p, t, _) = object::closed(pool, table, h);
            counts_fit(p, t)
        }),
{
    let (p, t, s) = object::closed(pool, table, h);
    if object::in_use(table, h) && !table[object::place_of(h)].protect {
        let i = table[object::place_of(h)].object_index;
        assert(object::is_object(pool, i));
        lemma_handle_fewer(table, h, i);
        assert forall|j: u32| #[trigger] object::is_object(p, j) implies p[j as int]->0.handle_count
            == handles_to(t, j) && p[j as int]->0.handle_count <= p[j as int]->0.ref_count by {
            lemma_handle_fewer(table, h, j);
            assert(object::is_object(pool, j));
        }
        assert forall|k: int|
            1 <= k < HANDLE_TABLE_SIZE && (#[trigger] t[k]).object_index
                != NO_OBJECT implies object::is_object(p, t[k].object_index) by {
            assert(t[k] == table[k]);
            assert(object::is_object(pool, table[k].object_index));
            if t[k].object_index == i {
                search::lemma_count_positive(
                    HANDLE_TABLE_SIZE as nat,
                    |j: int| leads_to(t, j, i),
                    k,
                );
            }
        }
    }
}

} // verus!
