//! Kernel objects: what a handle leads to, and how long an object stays.

use vstd::prelude::*;
use vstd::string::*;
use crate::search;
use crate::win32::object;
use crate::win32::object::{
    HandleEntry, HandleTable, ObjectBody, ObjectHeader, ObjectPool, ObjectType,
};
use crate::win32::types::{HANDLE, NTSTATUS};

verus! {

/// The place `i` changes, and no other.
pub open spec fn only_place<T>(a: Seq<T>, b: Seq<T>, i: int, x: T) -> bool {
    &&& b.len() == a.len()
    &&& b[i] == x
    &&& forall|j: int| 0 <= j < a.len() && j != i ==> #[trigger] b[j] == a[j]
}

/// The place `i` of a table of handles is the lowest free one. Place 0 is not used.
pub open spec fn next_place(t: Seq<HandleEntry>, i: int) -> bool {
    &&& 1 <= i < 256
    &&& t[i].object_index == 0xFFFF_FFFF
    &&& forall|j: int| 1 <= j < i ==> (#[trigger] t[j]).object_index != 0xFFFF_FFFF
}

/// No place of a table of handles is free.
pub open spec fn no_place(t: Seq<HandleEntry>) -> bool {
    forall|j: int| 1 <= j < 256 ==> (#[trigger] t[j]).object_index != 0xFFFF_FFFF
}

pub proof fn lemma_place(t: Seq<HandleEntry>)
    ensures
        object::free_place(t) is None <==> no_place(t),
        object::free_place(t) matches Some(i) ==> next_place(t, i as int),
{
    let p = |i: int| i >= 1 && t[i].object_index == object::NO_OBJECT;
    search::lemma_first(256, p);
    match object::free_place(t) {
        Some(i) => {
            assert(p(i as int));
            assert forall|j: int| 1 <= j < i implies (#[trigger] t[j]).object_index
                != 0xFFFF_FFFF by {
                assert(!p(j));
            }
            assert(t[i as int].object_index == 0xFFFF_FFFF);
        },
        None => {
            assert forall|j: int| 1 <= j < 256 implies (#[trigger] t[j]).object_index
                != 0xFFFF_FFFF by {
                assert(!p(j));
            }
        },
    }
}

/// A new handle is made in the lowest free place.
pub open spec fn handle_made(
    t: Seq<HandleEntry>,
    u: Seq<HandleEntry>,
    index: u32,
    access: u32,
    h: HANDLE,
) -> bool {
    &&& h.0 % 4 == 0
    &&& next_place(t, h.0 as int / 4)
    &&& only_place(
        t,
        u,
        h.0 as int / 4,
        HandleEntry { object_index: index, access_mask: access, inherit: false, protect: false },
    )
}

/// A new handle is four times the lowest free place of the table and leads to the object
/// with the rights that were asked for. If no place is free there is none.
pub proof fn law_new_handle_leads_to_its_object(
    table: &mut HandleTable,
    index: u32,
    access: u32,
    r: HANDLE,
)
    requires
        call_ensures(HandleTable::allocate, (table, index, access), r),
    ensures
        no_place(old(table).entries@) ==> r.0 == usize::MAX && final(table).entries@ == old(table).entries@,
        !no_place(old(table).entries@) ==> handle_made(
            old(table).entries@,
            final(table).entries@,
            index,
            access,
            r,
        ),
{
    let t = old(table).entries@;
    lemma_place(t);
    assert((final(table).entries@, r) == object::allotted(t, index, access));
}

/// A handle leads to an entry of the table that is in use.
pub open spec fn leads(t: Seq<HandleEntry>, h: HANDLE) -> bool {
    &&& 4 <= h.0 < 1024
    &&& t[h.0 as int / 4].object_index != 0xFFFF_FFFF
}

/// A handle gives the entry at a quarter of it, if that is in use.
pub proof fn law_handle_gives_its_entry(
    table: &HandleTable,
    h: HANDLE,
    r: Option<&HandleEntry>,
    room: bool,
    fresh: HandleTable,
)
    requires
        call_ensures(HandleTable::get, (table, h), r),
        call_ensures(HandleTable::has_room, (table,), room),
        call_ensures(HandleTable::new, (), fresh),
    ensures
        r is Some <==> leads(table.entries@, h),
        r matches Some(e) ==> *e == table.entries@[h.0 as int / 4],
        room <==> !no_place(table.entries@),
        forall|i: int|
            0 <= i < 256 ==> (#[trigger] fresh.entries@[i]).object_index == 0xFFFF_FFFF,
{
    lemma_place(table.entries@);
}

/// A handle that is closed in its table leads nowhere afterwards, and no other handle
/// changes. One that leads nowhere is refused as invalid, one that is protected as not
/// closable.
pub proof fn law_closed_handle_leads_nowhere(table: &mut HandleTable, h: HANDLE, r: NTSTATUS)
    requires
        call_ensures(HandleTable::close, (table, h), r),
    ensures
        !leads(old(table).entries@, h) ==> r.0 == 0xC000_0008 && final(table).entries@ == old(table).entries@,
        leads(old(table).entries@, h) && old(table).entries@[h.0 as int / 4].protect ==> r.0
            == 0xC000_0235 && final(table).entries@ == old(table).entries@,
        leads(old(table).entries@, h) && !old(table).entries@[h.0 as int / 4].protect ==> {
            &&& r.0 == 0
            &&& !leads(final(table).entries@, h)
            &&& forall|j: int|
                0 <= j < 256 && j != h.0 as int / 4 ==> #[trigger] final(table).entries@[j] == old(table).entries@[j]
        },
{
    assert((final(table).entries@, r.0) == object::handle_closed(old(table).entries@, h));
}

/// The place of a new object is the lowest free one of the pool.
pub open spec fn next_object(p: Seq<Option<ObjectHeader>>, i: int) -> bool {
    &&& 0 <= i < p.len()
    &&& p[i] is None
    &&& forall|j: int| 0 <= j < i ==> (#[trigger] p[j]) is Some
}

/// Every place of the pool is taken.
pub open spec fn pool_full(p: Seq<Option<ObjectHeader>>) -> bool {
    forall|j: int| 0 <= j < p.len() ==> (#[trigger] p[j]) is Some
}

pub proof fn lemma_object(p: Seq<Option<ObjectHeader>>)
    requires
        p.len() <= usize::MAX,
    ensures
        object::free_object(p) is None <==> pool_full(p),
        object::free_object(p) matches Some(i) ==> next_object(p, i as int),
{
    let f = |i: int| p[i] is None;
    search::lemma_first(p.len(), f);
    match object::free_object(p) {
        Some(i) => {
            assert(f(i as int));
            assert forall|j: int| 0 <= j < i implies (#[trigger] p[j]) is Some by {
                assert(!f(j));
            }
        },
        None => {
            assert forall|j: int| 0 <= j < p.len() implies (#[trigger] p[j]) is Some by {
                assert(!f(j));
            }
        },
    }
}

/// A new object of a kind: it has one reference and no handle, and the first 127 bytes of
/// the name are kept.
pub open spec fn is_fresh(h: ObjectHeader, kind: ObjectType, name: Seq<u8>, body: ObjectBody) -> bool {
    &&& h.object_type == kind
    &&& h.ref_count == 1
    &&& h.handle_count == 0
    &&& !h.permanent
    &&& h.body == body
    &&& name.len() < 127 ==> h.name_len == name.len()
    &&& name.len() >= 127 ==> h.name_len == 127
    &&& forall|i: int| 0 <= i < h.name_len ==> #[trigger] h.name@[i] == name[i]
}

/// A new object is put in the lowest free place of the pool, and no other object changes.
/// It is not made exactly if every place is taken.
pub proof fn law_new_object_is_put_in_the_pool(
    pool: &mut ObjectPool,
    kind: ObjectType,
    name: &str,
    body: ObjectBody,
    r: Option<u32>,
)
    requires
        call_ensures(object::create_object, (pool, kind, name, body), r),
    ensures
        r is None <==> pool_full(old(pool).objects@),
        r is None ==> final(pool).objects@ == old(pool).objects@,
        r matches Some(i) ==> {
            &&& next_object(old(pool).objects@, i as int)
            &&& final(pool).objects@[i as int] matches Some(h) && is_fresh(
                h,
                kind,
                name.spec_bytes(),
                body,
            )
            &&& only_place(
                old(pool).objects@,
                final(pool).objects@,
                i as int,
                final(pool).objects@[i as int],
            )
        },
{
    let p = old(pool).objects@;
    assert(p.len() == 1024);
    lemma_object(p);
    match object::free_object(p) {
        Some(i) => {
            assert(r == Some(i as u32));
            let h = final(pool).objects@[i as int]->0;
            assert forall|k: int| 0 <= k < h.name_len implies #[trigger] h.name@[k]
                == name.spec_bytes()[k] by {}
        },
        None => {},
    }
}

/// There is an object at a place of the pool.
pub open spec fn stands(p: Seq<Option<ObjectHeader>>, i: u32) -> bool {
    i < p.len() && p[i as int] is Some
}

/// A reference is counted: the object has one more, and nothing else changes. Where there
/// is no object the call fails as invalid.
pub proof fn law_reference_is_counted(pool: &mut ObjectPool, index: u32, r: NTSTATUS)
    requires
        stands(old(pool).objects@, index) ==> old(pool).objects@[index as int]->0.ref_count
            < u32::MAX,
        call_ensures(object::reference_object, (pool, index), r),
    ensures
        !stands(old(pool).objects@, index) ==> r.0 == 0xC000_0008 && final(pool).objects@ == old(pool).objects@,
        stands(old(pool).objects@, index) ==> {
            let h = old(pool).objects@[index as int]->0;
            &&& r.0 == 0
            &&& only_place(
                old(pool).objects@,
                final(pool).objects@,
                index as int,
                Some(ObjectHeader { ref_count: (h.ref_count + 1) as u32, ..h }),
            )
        },
{
    assert((final(pool).objects@, r.0) == object::referenced(old(pool).objects@, index));
}

/// As `law_reference_is_counted`; an object with as many references as can be counted gets
/// no more.
pub proof fn law_reference_is_counted_if_it_can_be(
    pool: &mut ObjectPool,
    index: u32,
    r: Option<NTSTATUS>,
)
    requires
        call_ensures(object::try_reference_object, (pool, index), r),
    ensures
        !stands(old(pool).objects@, index) ==> (r matches Some(s) && s.0 == 0xC000_0008) && final(pool).objects@ == old(pool).objects@,
        stands(old(pool).objects@, index) ==> {
            let h = old(pool).objects@[index as int]->0;
            &&& h.ref_count == u32::MAX ==> r is None && final(pool).objects@ == old(pool).objects@
            &&& h.ref_count < u32::MAX ==> (r matches Some(s) && s.0 == 0) && only_place(
                old(pool).objects@,
                final(pool).objects@,
                index as int,
                Some(ObjectHeader { ref_count: (h.ref_count + 1) as u32, ..h }),
            )
        },
{
    let p = old(pool).objects@;
    if !(stands(p, index) && p[index as int]->0.ref_count == u32::MAX) {
        assert(r matches Some(s) && (final(pool).objects@, s.0) == object::referenced(p, index));
    }
}

/// A reference is given back: the object has one fewer, and goes with the last one unless
/// it is permanent. Nothing else changes. Where there is no object, or none of its
/// references is left, the call fails as invalid.
pub proof fn law_object_goes_with_its_references(pool: &mut ObjectPool, index: u32, r: NTSTATUS)
    requires
        call_ensures(object::dereference_object, (pool, index), r),
    ensures
        !stands(old(pool).objects@, index) || old(pool).objects@[index as int]->0.ref_count == 0
            ==> r.0 == 0xC000_0008 && final(pool).objects@ == old(pool).objects@,
        stands(old(pool).objects@, index) && old(pool).objects@[index as int]->0.ref_count > 0 ==> {
            let h = old(pool).objects@[index as int]->0;
            &&& r.0 == 0
            &&& h.ref_count == 1 && !h.permanent ==> only_place(
                old(pool).objects@,
                final(pool).objects@,
                index as int,
                None,
            )
            &&& h.ref_count > 1 || h.permanent ==> only_place(
                old(pool).objects@,
                final(pool).objects@,
                index as int,
                Some(ObjectHeader { ref_count: (h.ref_count - 1) as u32, ..h }),
            )
        },
{
    assert((final(pool).objects@, r.0) == object::dereferenced(old(pool).objects@, index));
}

/// The object with one reference and one handle more.
pub open spec fn with_handle(h: ObjectHeader) -> ObjectHeader {
    ObjectHeader {
        ref_count: (h.ref_count + 1) as u32,
        handle_count: if h.handle_count < u32::MAX {
            (h.handle_count + 1) as u32
        } else {
            h.handle_count
        },
        ..h
    }
}

/// From `p` to `q` a handle to the object at `i` goes: the object has one handle and one
/// reference fewer, and goes with the last reference unless it is permanent.
pub open spec fn handle_gone(
    p: Seq<Option<ObjectHeader>>,
    q: Seq<Option<ObjectHeader>>,
    i: u32,
    status: u32,
) -> bool {
    if !stands(p, i) || p[i as int]->0.ref_count == 0 {
        status == 0xC000_0008 && q == p
    } else {
        let h = p[i as int]->0;
        &&& status == 0
        &&& if h.ref_count == 1 && !h.permanent {
            only_place(p, q, i as int, None)
        } else {
            only_place(
                p,
                q,
                i as int,
                Some(
                    ObjectHeader {
                        ref_count: (h.ref_count - 1) as u32,
                        handle_count: if h.handle_count > 0 {
                            (h.handle_count - 1) as u32
                        } else {
                            0
                        },
                        ..h
                    },
                ),
            )
        }
    }
}

pub proof fn lemma_released(p: Seq<Option<ObjectHeader>>, i: u32)
    ensures
        handle_gone(p, object::released(p, i).0, i, object::released(p, i).1),
{
}

/// A handle that goes takes its reference along. See `handle_gone`.
pub proof fn law_released_handle_takes_its_reference(
    pool: &mut ObjectPool,
    index: u32,
    r: NTSTATUS,
)
    requires
        call_ensures(object::release_object, (pool, index), r),
    ensures
        handle_gone(old(pool).objects@, final(pool).objects@, index, r.0),
{
    assert((final(pool).objects@, r.0) == object::released(old(pool).objects@, index));
    lemma_released(old(pool).objects@, index);
}

/// An object that gets a handle has one reference and one handle more.
pub proof fn law_held_object_has_one_handle_more(
    pool: &mut ObjectPool,
    index: u32,
    r: Option<NTSTATUS>,
)
    requires
        stands(old(pool).objects@, index),
        old(pool).objects@[index as int]->0.ref_count < u32::MAX,
        call_ensures(object::try_hold_object, (pool, index), r),
    ensures
        r matches Some(s) && s.0 == 0,
        only_place(
            old(pool).objects@,
            final(pool).objects@,
            index as int,
            Some(with_handle(old(pool).objects@[index as int]->0)),
        ),
{
    assert(r matches Some(s) && (final(pool).objects@, s.0) == object::held(
        old(pool).objects@,
        index,
    ));
}

/// An object has a name of some bytes.
pub open spec fn is_called(o: Option<ObjectHeader>, name: Seq<u8>) -> bool {
    o matches Some(h) && {
        &&& h.name_len == name.len()
        &&& name.len() <= 128
        &&& forall|i: int| 0 <= i < name.len() ==> #[trigger] h.name@[i] == name[i]
    }
}

/// The object at `i` is the first one with a name.
pub open spec fn first_called(p: Seq<Option<ObjectHeader>>, name: Seq<u8>, i: int) -> bool {
    &&& 0 <= i < p.len()
    &&& is_called(p[i], name)
    &&& forall|j: int| 0 <= j < i ==> !is_called(#[trigger] p[j], name)
}

/// No object has a name.
pub open spec fn none_called(p: Seq<Option<ObjectHeader>>, name: Seq<u8>) -> bool {
    forall|j: int| 0 <= j < p.len() ==> !is_called(#[trigger] p[j], name)
}

proof fn lemma_called(o: Option<ObjectHeader>, name: Seq<u8>)
    ensures
        is_called(o, name) <==> (o matches Some(h) && h.has_name(name)),
{
}

proof fn lemma_named(p: Seq<Option<ObjectHeader>>, name: Seq<u8>)
    requires
        p.len() <= usize::MAX,
    ensures
        object::object_named(p, name) is None <==> none_called(p, name),
        object::object_named(p, name) matches Some(i) ==> first_called(p, name, i as int),
{
    let f = |i: int| p[i] matches Some(h) && h.has_name(name);
    search::lemma_first(p.len(), f);
    match object::object_named(p, name) {
        Some(i) => {
            assert(f(i as int));
            lemma_called(p[i as int], name);
            assert forall|j: int| 0 <= j < i implies !is_called(#[trigger] p[j], name) by {
                assert(!f(j));
                lemma_called(p[j], name);
            }
        },
        None => {
            assert forall|j: int| 0 <= j < p.len() implies !is_called(#[trigger] p[j], name) by {
                assert(!f(j));
                lemma_called(p[j], name);
            }
        },
    }
}

/// How many of the first `n` places hold an object.
pub open spec fn objects_in(p: Seq<Option<ObjectHeader>>, n: nat) -> nat
    decreases n,
{
    if n == 0 {
        0
    } else if p[n - 1] is Some {
        objects_in(p, (n - 1) as nat) + 1
    } else {
        objects_in(p, (n - 1) as nat)
    }
}

proof fn lemma_objects_in(p: Seq<Option<ObjectHeader>>, n: nat)
    ensures
        search::count(n, |i: int| p[i] is Some) == objects_in(p, n),
    decreases n,
{
    if n > 0 {
        lemma_objects_in(p, (n - 1) as nat);
    }
}

/// The first object with a name is found, all of whose bytes agree; there is none exactly
/// if no object has the name. The kind of an object is told, and how many objects there
/// are.
pub proof fn law_objects_are_found_by_name(
    pool: &ObjectPool,
    name: &str,
    index: u32,
    r: Option<u32>,
    kind: Option<ObjectType>,
    n: usize,
    room: bool,
)
    requires
        call_ensures(object::lookup_object, (pool, name), r),
        call_ensures(object::get_object_type, (pool, index), kind),
        call_ensures(object::object_count, (pool,), n),
        call_ensures(object::has_room, (pool,), room),
    ensures
        r is None <==> none_called(pool.objects@, name.spec_bytes()),
        r matches Some(i) ==> first_called(pool.objects@, name.spec_bytes(), i as int),
        kind is Some <==> stands(pool.objects@, index),
        kind matches Some(k) ==> k == pool.objects@[index as int]->0.object_type,
        n == objects_in(pool.objects@, pool.objects@.len()),
        room <==> !pool_full(pool.objects@),
{
    assert(pool.objects@.len() == 1024);
    lemma_named(pool.objects@, name.spec_bytes());
    lemma_object(pool.objects@);
    lemma_objects_in(pool.objects@, pool.objects@.len());
    let p = pool.objects@;
    assert((|i: int| pool.objects@[i] is Some) =~= (|i: int| p[i] is Some));
}

/// An object is opened by its name: a new handle leads to the first object with the name,
/// which has one handle and one reference more. It fails without a change: if no object
/// has the name, if the object is of another kind, if no place for a handle is free or no
/// more references can be counted.
pub proof fn law_opened_handle_leads_to_the_named_object(
    pool: &mut ObjectPool,
    table: &mut HandleTable,
    name: &str,
    kind: ObjectType,
    access: u32,
    i: int,
    r: Result<HANDLE, NTSTATUS>,
)
    requires
        first_called(old(pool).objects@, name.spec_bytes(), i),
        call_ensures(object::try_open_object, (pool, table, name, kind, access), r),
    ensures
        ({
            let p = old(pool).objects@;
            let t = old(table).entries@;
            let h = p[i]->0;
            &&& r is Err ==> final(pool).objects@ == p && final(table).entries@ == t
            &&& h.object_type != kind ==> (r matches Err(e) && e.0 == 0xC000_0024)
            &&& h.object_type == kind && (no_place(t) || h.ref_count == u32::MAX) ==> (r matches Err(
                e,
            ) && e.0 == 0xC000_009A)
            &&& h.object_type == kind && !no_place(t) && h.ref_count < u32::MAX ==> (r matches Ok(
                new,
            ) && handle_made(t, final(table).entries@, i as u32, access, new)) && only_place(
                p,
                final(pool).objects@,
                i,
                Some(with_handle(h)),
            )
        }),
{
    let p = old(pool).objects@;
    let t = old(table).entries@;
    let nm = name.spec_bytes();
    assert(p.len() == 1024);
    lemma_named(p, nm);
    lemma_place(t);
    assert((final(pool).objects@, final(table).entries@, r) == object::opened_if_counted(
        p,
        t,
        nm,
        kind,
        access,
    ));
    let k = object::object_named(p, nm)->0;
    if k < i {
        assert(!is_called(p[k as int], nm));
    }
    if i < k {
        assert(!is_called(p[i], nm));
    }
    assert(k == i);
}

/// An object whose name nobody has is not found, and nothing changes.
pub proof fn law_unknown_name_is_not_found(
    pool: &mut ObjectPool,
    table: &mut HandleTable,
    name: &str,
    kind: ObjectType,
    access: u32,
    r: Result<HANDLE, NTSTATUS>,
)
    requires
        none_called(old(pool).objects@, name.spec_bytes()),
        call_ensures(object::try_open_object, (pool, table, name, kind, access), r),
    ensures
        r matches Err(e) && e.0 == 0xC000_0034,
        final(pool).objects@ == old(pool).objects@,
        final(table).entries@ == old(table).entries@,
{
    assert(old(pool).objects@.len() == 1024);
    lemma_named(old(pool).objects@, name.spec_bytes());
    assert((final(pool).objects@, final(table).entries@, r) == object::opened_if_counted(
        old(pool).objects@,
        old(table).entries@,
        name.spec_bytes(),
        kind,
        access,
    ));
}

/// `open_object` does what `try_open_object` does, for an object whose references can be
/// counted.
pub proof fn law_opening_does_not_depend_on_the_way(
    pool: &mut ObjectPool,
    table: &mut HandleTable,
    pool2: &mut ObjectPool,
    table2: &mut HandleTable,
    name: &str,
    kind: ObjectType,
    access: u32,
    r: Result<HANDLE, NTSTATUS>,
    r2: Result<HANDLE, NTSTATUS>,
)
    requires
        old(pool2).objects@ == old(pool).objects@,
        old(table2).entries@ == old(table).entries@,
        forall|i: int|
            0 <= i < 1024 && (#[trigger] old(pool).objects@[i]) is Some ==> old(pool).objects@[i]->0.ref_count < u32::MAX,
        call_ensures(object::open_object, (pool, table, name, kind, access), r),
        call_ensures(object::try_open_object, (pool2, table2, name, kind, access), r2),
    ensures
        r == r2,
        final(pool2).objects@ == final(pool).objects@,
        final(table2).entries@ == final(table).entries@,
{
    let p = old(pool).objects@;
    assert(p.len() == 1024);
    lemma_named(p, name.spec_bytes());
    assert((final(pool).objects@, final(table).entries@, r) == object::opened(
        p,
        old(table).entries@,
        name.spec_bytes(),
        kind,
        access,
    ));
    assert((final(pool2).objects@, final(table2).entries@, r2) == object::opened_if_counted(
        p,
        old(table).entries@,
        name.spec_bytes(),
        kind,
        access,
    ));
}

/// A handle that is closed leads nowhere afterwards and takes its reference along, see
/// `handle_gone`; no other handle changes. One that leads nowhere or is protected is
/// refused without a change.
pub proof fn law_closing_gives_the_object_up(
    pool: &mut ObjectPool,
    table: &mut HandleTable,
    h: HANDLE,
    r: NTSTATUS,
)
    requires
        call_ensures(object::close_handle, (pool, table, h), r),
    ensures
        ({
            let p = old(pool).objects@;
            let t = old(table).entries@;
            let e = t[h.0 as int / 4];
            &&& !leads(t, h) ==> r.0 == 0xC000_0008 && final(pool).objects@ == p && final(table).entries@ == t
            &&& leads(t, h) && e.protect ==> r.0 == 0xC000_0235 && final(pool).objects@ == p
                && final(table).entries@ == t
            &&& leads(t, h) && !e.protect ==> {
                &&& handle_gone(p, final(pool).objects@, e.object_index, r.0)
                &&& !leads(final(table).entries@, h)
                &&& forall|j: int|
                    0 <= j < 256 && j != h.0 as int / 4 ==> #[trigger] final(table).entries@[j]
                        == t[j]
            }
        }),
{
    let p = old(pool).objects@;
    let t = old(table).entries@;
    assert((final(pool).objects@, final(table).entries@, r.0) == object::closed(p, t, h));
    lemma_released(p, t[h.0 as int / 4].object_index);
}

/// A second handle is made to the object of a handle: it leads to the same object, with
/// rights of its own, and the object has one handle and one reference more. There is none,
/// and nothing changes, if the handle leads to no object, no place for a handle is free or
/// no more references can be counted.
pub proof fn law_second_handle_leads_to_the_same_object(
    table: &mut HandleTable,
    pool: &mut ObjectPool,
    h: HANDLE,
    access: u32,
    r: HANDLE,
)
    requires
        call_ensures(HandleTable::duplicate, (table, pool, h, access), r),
    ensures
        ({
            let p = old(pool).objects@;
            let t = old(table).entries@;
            let i = t[h.0 as int / 4].object_index;
            let can = leads(t, h) && stands(p, i) && !no_place(t) && p[i as int]->0.ref_count
                < u32::MAX;
            &&& !can ==> r.0 == usize::MAX && final(pool).objects@ == p && final(table).entries@
                == t
            &&& can ==> handle_made(t, final(table).entries@, i, access, r) && only_place(
                p,
                final(pool).objects@,
                i as int,
                Some(with_handle(p[i as int]->0)),
            )
        }),
{
    let p = old(pool).objects@;
    let t = old(table).entries@;
    lemma_place(t);
    assert((final(pool).objects@, final(table).entries@, r) == object::duplicated(p, t, h, access));
}

} // verus!
