//! The native interface: the calls that programs make of the kernel.

use vstd::prelude::*;
use vstd::string::*;
use crate::clock;
use crate::kernel::{Kernel, World};
use crate::memory::paging;
use crate::memory::paging::region;
use crate::memory::paging::Mem;
use crate::memory::phys::FrameAllocator;
use crate::scheduler;
use crate::scheduler::{Scheduler, Switch};
use crate::userspace::USER_END;
use crate::vfs::InodeType;
use super::error::{
    STATUS_INSUFFICIENT_RESOURCES, STATUS_INVALID_PARAMETER, STATUS_NOT_IMPLEMENTED,
    STATUS_NO_MEMORY, STATUS_OBJECT_NAME_COLLISION, STATUS_OBJECT_NAME_INVALID,
    STATUS_OBJECT_NAME_NOT_FOUND, STATUS_SUCCESS, STATUS_UNABLE_TO_FREE_VM,
};
use super::files;
pub use super::files::{
    FILE_CREATE, FILE_OPEN, FILE_OPEN_IF, FILE_OVERWRITE, FILE_OVERWRITE_IF, FILE_SUPERSEDE,
};
use super::files::FileAction;
use super::object;
use super::object::{
    HandleEntry, HandleTable, ObjectBody, ObjectHeader, ObjectPool, ObjectType, MAX_OBJECTS,
    OBJECT_NAME_SIZE, OBJECT_PATH_SIZE,
};
use super::sync;
use super::types::{ACCESS_MASK, DWORD, HANDLE, IO_STATUS_BLOCK, NTSTATUS, OBJECT_ATTRIBUTES};

verus! {

/// A new object without a name, to which one handle leads.
pub open spec fn nameless(obj_type: ObjectType, body: ObjectBody) -> ObjectHeader {
    ObjectHeader {
        object_type: obj_type,
        ref_count: 1,
        handle_count: 1,
        name: [0u8; OBJECT_NAME_SIZE],
        name_len: 0,
        permanent: false,
        body,
    }
}

/// The pool and the table once a new object without a name has a handle, and
/// the handle. It fails, with nothing changed, if the pool or the table is full.
pub open spec fn object_made(
    pool: Seq<Option<ObjectHeader>>,
    table: Seq<HandleEntry>,
    obj_type: ObjectType,
    body: ObjectBody,
    access: ACCESS_MASK,
) -> (Seq<Option<ObjectHeader>>, Seq<HandleEntry>, Result<HANDLE, NTSTATUS>) {
    if object::free_object(pool) is None || object::free_place(table) is None {
        (pool, table, Err(NTSTATUS(STATUS_INSUFFICIENT_RESOURCES)))
    } else {
        let i = object::free_object(pool)->0;
        let (t, h) = object::allotted(table, i as u32, access);
        (pool.update(i as int, Some(nameless(obj_type, body))), t, Ok(h))
    }
}

/// Makes an object without a name and a handle to it. See `object_made`.
fn make_object(
    pool: &mut ObjectPool,
    handle_table: &mut HandleTable,
    obj_type: ObjectType,
    body: ObjectBody,
    access: ACCESS_MASK,
) -> (r: Result<HANDLE, NTSTATUS>)
    ensures
        (final(pool).objects@, final(handle_table).entries@, r) == object_made(
            old(pool).objects@,
            old(handle_table).entries@,
            obj_type,
            body,
            access,
        ),
{
    if !handle_table.has_room() {
        return Err(NTSTATUS(STATUS_INSUFFICIENT_RESOURCES));
    }
    let obj_index: u32 = match object::create_object(pool, obj_type, "", body) {
        Some(i) => i,
        None => {
            return Err(NTSTATUS(STATUS_INSUFFICIENT_RESOURCES));
        },
    };
    object::count_handle(pool, obj_index);
    proof {
        lemma_nameless(pool.objects@[obj_index as int]->0, obj_type, body);
        assert(pool.objects@ =~= old(pool).objects@.update(
            obj_index as int,
            Some(nameless(obj_type, body)),
        ));
    }
    Ok(handle_table.allocate(obj_index, access))
}

proof fn lemma_nameless(h: ObjectHeader, obj_type: ObjectType, body: ObjectBody)
    requires
        object::is_new_object(
            (ObjectHeader { handle_count: 0, ..h }),
            obj_type,
            "".spec_bytes(),
            body,
        ),
        h.handle_count == 1,
    ensures
        h == nameless(obj_type, body),
{
    reveal_strlit("");
    assert(""@.len() == 0);
    assert("".spec_bytes().len() == 0);
    let zero = [0u8; OBJECT_NAME_SIZE];
    assert(h.name =~= zero);
}

pub const FILE_SHARE_READ: DWORD = 0x00000001;

pub const FILE_SHARE_WRITE: DWORD = 0x00000002;

pub const FILE_SHARE_DELETE: DWORD = 0x00000004;

pub const FILE_ATTRIBUTE_READONLY: DWORD = 0x00000001;

pub const FILE_ATTRIBUTE_HIDDEN: DWORD = 0x00000002;

pub const FILE_ATTRIBUTE_SYSTEM: DWORD = 0x00000004;

pub const FILE_ATTRIBUTE_DIRECTORY: DWORD = 0x00000010;

pub const FILE_ATTRIBUTE_ARCHIVE: DWORD = 0x00000020;

pub const FILE_ATTRIBUTE_NORMAL: DWORD = 0x00000080;

/// The pool and the table once there is a new file object with a handle.
pub open spec fn file_handle_made(
    pool: Seq<Option<ObjectHeader>>,
    table: Seq<HandleEntry>,
    path: Seq<u8>,
    access: ACCESS_MASK,
    size: u64,
    pool2: Seq<Option<ObjectHeader>>,
    table2: Seq<HandleEntry>,
    handle2: HANDLE,
) -> bool {
    exists|body: ObjectBody| #[trigger]
        files::is_file_body(body, path, access, size) && (pool2, table2, Ok::<HANDLE, NTSTATUS>(
            handle2,
        )) == object_made(pool, table, ObjectType::File, body, access)
}

/// What `nt_create_file` leaves behind, and its status. The request fails, with
/// nothing changed, if there is no name, if the disposition does not allow for
/// what is found under the name, if the pool or the table is full, or if the file
/// cannot be made. Otherwise the file is there as the disposition asks for it, and
/// a new file object has a handle.
pub open spec fn file_created(
    w: World,
    pool: Seq<Option<ObjectHeader>>,
    table: Seq<HandleEntry>,
    handle: HANDLE,
    named: bool,
    path: Seq<u8>,
    access: ACCESS_MASK,
    disposition: DWORD,
    w2: World,
    pool2: Seq<Option<ObjectHeader>>,
    table2: Seq<HandleEntry>,
    handle2: HANDLE,
    status: u32,
) -> bool {
    let action = files::action_of(disposition, files::found_at(w.vfs, path));
    let room = object::free_object(pool) is Some && object::free_place(table) is Some;
    let unchanged = w2 == w && pool2 == pool && table2 == table && handle2 == handle;
    if !named {
        status == STATUS_OBJECT_NAME_INVALID && unchanged
    } else if action is Refuse {
        status == action->Refuse_0 && unchanged
    } else if !room {
        status == STATUS_INSUFFICIENT_RESOURCES && unchanged
    } else {
        &&& files::acted(w, path, action, w2, status)
        &&& if status != STATUS_SUCCESS {
            unchanged
        } else {
            file_handle_made(
                pool,
                table,
                path,
                access,
                if action == FileAction::Keep {
                    files::size_at(w.vfs, path)
                } else {
                    0
                },
                pool2,
                table2,
                handle2,
            )
        }
    }
}

/// Opens or makes a file, as the disposition asks for, and makes a handle to it.
/// `path` is the path that the name in the attributes says; it is not read if the
/// attributes have no name. See `file_created`.
pub fn nt_create_file(
    k: &mut Kernel,
    bytes: &mut [u8],
    pool: &mut ObjectPool,
    handle_table: &mut HandleTable,
    file_handle: &mut HANDLE,
    desired_access: ACCESS_MASK,
    object_attrs: &OBJECT_ATTRIBUTES,
    path: &[u8],
    io_status: &mut IO_STATUS_BLOCK,
    _allocation_size: Option<u64>,
    _file_attributes: DWORD,
    _share_access: DWORD,
    create_disposition: DWORD,
    _create_options: DWORD,
) -> (r: NTSTATUS)
    requires
        old(k).wf(old(bytes)@),
    ensures
        final(k).wf(final(bytes)@),
        final(bytes)@.len() == old(bytes)@.len(),
        final(io_status).status == r,
        final(io_status).information == (if r.0 == STATUS_SUCCESS {
            0
        } else {
            old(io_status).information
        }),
        file_created(
            old(k).world(old(bytes)@),
            old(pool).objects@,
            old(handle_table).entries@,
            *old(file_handle),
            object_attrs.object_name != 0,
            path@,
            desired_access,
            create_disposition,
            final(k).world(final(bytes)@),
            final(pool).objects@,
            final(handle_table).entries@,
            *final(file_handle),
            r.0,
        ),
{
    if object_attrs.object_name == 0 {
        io_status.status = NTSTATUS(STATUS_OBJECT_NAME_INVALID);
        return NTSTATUS(STATUS_OBJECT_NAME_INVALID);
    }
    let (found, size): (Option<InodeType>, u64) = match files::find_inode(k, path) {
        Some(i) => (Some(k.vfs.inodes[i].itype), k.vfs.inodes[i].size as u64),
        None => (None, 0),
    };
    let action: FileAction = files::file_action(create_disposition, found);
    match action {
        FileAction::Refuse(e) => {
            io_status.status = NTSTATUS(e);
            return NTSTATUS(e);
        },
        _ => {},
    }
    if !object::has_room(pool) || !handle_table.has_room() {
        io_status.status = NTSTATUS(STATUS_INSUFFICIENT_RESOURCES);
        return NTSTATUS(STATUS_INSUFFICIENT_RESOURCES);
    }
    let status: u32 = files::act(k, bytes, path, action);
    if status != STATUS_SUCCESS {
        io_status.status = NTSTATUS(status);
        return NTSTATUS(status);
    }
    let kept: u64 = if action == FileAction::Keep {
        size
    } else {
        0
    };
    let body: ObjectBody = files::file_body(path, desired_access, kept);
    match make_object(pool, handle_table, ObjectType::File, body, desired_access) {
        Ok(h) => {
            *file_handle = h;
        },
        Err(_) => {},
    }
    assert(files::is_file_body(body, path@, desired_access, kept));
    io_status.status = NTSTATUS(STATUS_SUCCESS);
    io_status.information = 0;
    NTSTATUS(STATUS_SUCCESS)
}

pub const MEM_COMMIT: DWORD = 0x00001000;

pub const MEM_RESERVE: DWORD = 0x00002000;

pub const MEM_DECOMMIT: DWORD = 0x00004000;

pub const MEM_RELEASE: DWORD = 0x00008000;

pub const MEM_RESET: DWORD = 0x00080000;

pub const PAGE_NOACCESS: DWORD = 0x01;

pub const PAGE_READONLY: DWORD = 0x02;

pub const PAGE_READWRITE: DWORD = 0x04;

pub const PAGE_WRITECOPY: DWORD = 0x08;

pub const PAGE_EXECUTE: DWORD = 0x10;

pub const PAGE_EXECUTE_READ: DWORD = 0x20;

pub const PAGE_EXECUTE_READWRITE: DWORD = 0x40;

pub const PAGE_GUARD: DWORD = 0x100;

/// Where memory is allocated if the caller leaves the address open.
pub const DEFAULT_BASE: u64 = 0x10000;

/// A size rounded up to whole pages.
pub open spec fn whole_pages(size: u64) -> int {
    (size + 0xFFF) / 4096 * 4096
}

/// The pages from the one with `base` on that `size` bytes take.
pub open spec fn pages_from(base: u64, size: int) -> nat {
    ((base % 4096 + size + 0xFFF) / 4096) as nat
}

/// What allocating virtual memory leaves of the memory, the address and the size,
/// and the status. A size that cannot be rounded up and memory that is not that of
/// programs are refused. Memory that is committed is mapped; one that is only
/// reserved takes no frames.
pub open spec fn allocated(m: Mem, cr3: u64, base: u64, size: u64, commit: bool) -> (
    Mem,
    u64,
    u64,
    u32,
) {
    let at = if base == 0 {
        DEFAULT_BASE
    } else {
        base
    };
    if size + 0xFFF > u64::MAX {
        (m, base, size, STATUS_INVALID_PARAMETER)
    } else if !commit {
        (m, at, whole_pages(size) as u64, STATUS_SUCCESS)
    } else if at + whole_pages(size) > USER_END {
        (m, base, size, STATUS_INVALID_PARAMETER)
    } else {
        let (w, ok) = m.region_mapped(
            cr3 as int,
            at - at % 4096,
            pages_from(at, whole_pages(size)),
        );
        if ok {
            (w, at, whole_pages(size) as u64, STATUS_SUCCESS)
        } else {
            (w, base, size, STATUS_NO_MEMORY)
        }
    }
}

/// Allocates virtual memory in the address space of a process, whose PML4 is at
/// `cr3`: the size is rounded up to whole pages, an address is picked where none is
/// asked for, and empty pages are mapped there if the memory is to be committed.
/// The pages can be read and written, whatever protection is asked for. See
/// `allocated`.
pub fn nt_allocate_virtual_memory(
    frames: &mut FrameAllocator,
    bytes: &mut [u8],
    cr3: u64,
    _process_handle: HANDLE,
    base_address: &mut u64,
    region_size: &mut u64,
    allocation_type: DWORD,
    _protect: DWORD,
) -> (r: NTSTATUS)
    requires
        old(frames).wf(),
        paging::mem(old(frames), old(bytes)@).sane(),
    ensures
        final(frames).wf(),
        paging::mem(final(frames), final(bytes)@).sane(),
        final(bytes)@.len() == old(bytes)@.len(),
        (
            paging::mem(final(frames), final(bytes)@),
            *final(base_address),
            *final(region_size),
            r.0,
        ) == allocated(
            paging::mem(old(frames), old(bytes)@),
            cr3,
            *old(base_address),
            *old(region_size),
            allocation_type & MEM_COMMIT != 0,
        ),
{
    if *region_size > u64::MAX - 0xFFF {
        return NTSTATUS(STATUS_INVALID_PARAMETER);
    }
    let size: u64 = (*region_size + 0xFFF) / 4096 * 4096;
    let at: u64 = if *base_address == 0 {
        DEFAULT_BASE
    } else {
        *base_address
    };
    if allocation_type & MEM_COMMIT != 0 {
        if size > USER_END || at > USER_END - size {
            return NTSTATUS(STATUS_INVALID_PARAMETER);
        }
        let n: u64 = (at % 4096 + size + 0xFFF) / 4096;
        if !region::map_region(frames, bytes, cr3, at - at % 4096, n) {
            return NTSTATUS(STATUS_NO_MEMORY);
        }
    }
    *region_size = size;
    *base_address = at;
    NTSTATUS(STATUS_SUCCESS)
}

/// What freeing virtual memory leaves of the memory, and the status.
pub open spec fn freed(m: Mem, cr3: u64, base: u64, size: u64, free: bool) -> (Mem, u32) {
    if !free {
        (m, STATUS_SUCCESS)
    } else if base + size > USER_END {
        (m, STATUS_UNABLE_TO_FREE_VM)
    } else {
        (
            m.region_freed(cr3 as int, base - base % 4096, pages_from(base, size as int)),
            STATUS_SUCCESS,
        )
    }
}

/// Frees virtual memory in the address space of a process, whose PML4 is at `cr3`,
/// if it is to be decommitted or released: the pages that the region touches are
/// gone, and their frames free. The address and the size stay as they are. See
/// `freed`.
pub fn nt_free_virtual_memory(
    frames: &mut FrameAllocator,
    bytes: &mut [u8],
    cr3: u64,
    _process_handle: HANDLE,
    base_address: &mut u64,
    region_size: &mut u64,
    free_type: DWORD,
) -> (r: NTSTATUS)
    requires
        old(frames).wf(),
        paging::mem(old(frames), old(bytes)@).sane(),
    ensures
        final(frames).wf(),
        paging::mem(final(frames), final(bytes)@).sane(),
        final(bytes)@.len() == old(bytes)@.len(),
        (paging::mem(final(frames), final(bytes)@), r.0) == freed(
            paging::mem(old(frames), old(bytes)@),
            cr3,
            *old(base_address),
            *old(region_size),
            free_type & MEM_DECOMMIT != 0 || free_type & MEM_RELEASE != 0,
        ),
        *final(base_address) == *old(base_address),
        *final(region_size) == *old(region_size),
{
    if free_type & MEM_DECOMMIT != 0 || free_type & MEM_RELEASE != 0 {
        let at: u64 = *base_address;
        let size: u64 = *region_size;
        if size > USER_END || at > USER_END - size {
            return NTSTATUS(STATUS_UNABLE_TO_FREE_VM);
        }
        let n: u64 = (at % 4096 + size + 0xFFF) / 4096;
        region::free_region(frames, bytes, cr3, at - at % 4096, n);
    }
    NTSTATUS(STATUS_SUCCESS)
}

/// Closes a handle of any kind.
pub fn nt_close(pool: &mut ObjectPool, handle_table: &mut HandleTable, handle: HANDLE) -> (r:
    NTSTATUS)
    ensures
        (final(pool).objects@, final(handle_table).entries@, r.0) == object::closed(
            old(pool).objects@,
            old(handle_table).entries@,
            handle,
        ),
{
    object::close_handle(pool, handle_table, handle)
}

/// Ends a process: its threads have ended, the objects of the process and of its
/// threads hold the exit code and let waits through, and the handles of the calling
/// process are closed if it ends itself. Its address space is not given back yet.
/// The switch is to be carried out. See `sync::process_ended`.
pub fn nt_terminate_process(
    pool: &mut ObjectPool,
    handle_table: &mut HandleTable,
    tasks: &mut Scheduler,
    process_handle: HANDLE,
    exit_status: NTSTATUS,
) -> (r: (NTSTATUS, Option<Switch>))
    requires
        old(tasks).wf(),
    ensures
        final(tasks).wf(),
        (final(pool).objects@, final(handle_table).entries@, final(tasks)@, r.0.0, r.1)
            == sync::process_ended(
            old(pool).objects@,
            old(handle_table).entries@,
            old(tasks)@,
            process_handle,
            exit_status.0,
        ),
{
    sync::end_process(pool, handle_table, tasks, process_handle, exit_status.0)
}

/// Makes an event and a handle to it.
pub fn nt_create_event(
    pool: &mut ObjectPool,
    handle_table: &mut HandleTable,
    desired_access: ACCESS_MASK,
    _object_attrs: Option<&OBJECT_ATTRIBUTES>,
    manual_reset: bool,
    initial_state: bool,
) -> (r: Result<HANDLE, NTSTATUS>)
    ensures
        (final(pool).objects@, final(handle_table).entries@, r) == object_made(
            old(pool).objects@,
            old(handle_table).entries@,
            ObjectType::Event,
            ObjectBody::Event { manual_reset, signaled: initial_state },
            desired_access,
        ),
{
    make_object(
        pool,
        handle_table,
        ObjectType::Event,
        ObjectBody::Event { manual_reset, signaled: initial_state },
        desired_access,
    )
}

/// Makes a mutex and a handle to it. The current thread holds it if it is to have
/// an owner at once.
pub fn nt_create_mutant(
    pool: &mut ObjectPool,
    handle_table: &mut HandleTable,
    tasks: &Scheduler,
    desired_access: ACCESS_MASK,
    _object_attrs: Option<&OBJECT_ATTRIBUTES>,
    initial_owner: bool,
) -> (r: Result<HANDLE, NTSTATUS>)
    requires
        tasks.wf(),
    ensures
        (final(pool).objects@, final(handle_table).entries@, r) == object_made(
            old(pool).objects@,
            old(handle_table).entries@,
            ObjectType::Mutant,
            ObjectBody::Mutant {
                owner_tid: if initial_owner {
                    sync::running_tid(tasks@)
                } else {
                    0
                },
                recursion_count: if initial_owner {
                    1
                } else {
                    0
                },
                signaled: !initial_owner,
            },
            desired_access,
        ),
{
    let (owner_tid, recursion_count): (u64, u32) = if initial_owner {
        (scheduler::current_tid(tasks), 1)
    } else {
        (0, 0)
    };
    make_object(
        pool,
        handle_table,
        ObjectType::Mutant,
        ObjectBody::Mutant { owner_tid, recursion_count, signaled: !initial_owner },
        desired_access,
    )
}

/// Waits for an object: looks at it once. If the wait is not over, the status is
/// `STATUS_PENDING` and the thread sleeps until the next tick; the switch is to be
/// carried out, and the object to be asked for again with the time that is left
/// (see `sync::time_left`). Without a timeout the wait is endless. See
/// `sync::waited`.
pub fn nt_wait_for_single_object(
    pool: &mut ObjectPool,
    handle_table: &HandleTable,
    tasks: &mut Scheduler,
    handle: HANDLE,
    _alertable: bool,
    timeout: Option<i64>,
) -> (r: (NTSTATUS, Option<Switch>))
    requires
        old(tasks).wf(),
    ensures
        final(tasks).wf(),
        (final(pool).objects@, final(tasks)@, r.0.0, r.1) == sync::waited(
            old(pool).objects@,
            handle_table.entries@,
            old(tasks)@,
            handle,
            timeout,
        ),
{
    sync::wait_once(pool, handle_table, tasks, handle, timeout)
}

/// The ticks that a delay takes: a negative one is relative, a positive one is the
/// time since the start to wait for, in steps of 100 nanoseconds.
pub open spec fn delay_ticks(now: u64, delay: i64) -> int {
    if delay < 0 {
        clock::ticks_of_steps((-delay) as u64)
    } else if clock::ticks_of_steps(delay as u64) > now {
        clock::ticks_of_steps(delay as u64) - now
    } else {
        0
    }
}

/// Puts the current thread to sleep. The switch is to be carried out. See
/// `delay_ticks`.
pub fn nt_delay_execution(tasks: &mut Scheduler, _alertable: bool, delay: i64) -> (r: (
    NTSTATUS,
    Option<Switch>,
))
    requires
        old(tasks).wf(),
    ensures
        final(tasks).wf(),
        r.0.0 == STATUS_SUCCESS,
        (final(tasks)@, r.1) == clock::paused(
            old(tasks)@,
            delay_ticks(old(tasks).tick_count, delay) as u64,
        ),
{
    let ticks: u64 = if delay < 0 {
        let steps: u64 = (-(delay + 1)) as u64 + 1;
        clock::steps_to_ticks(steps)
    } else {
        let wake: u64 = clock::steps_to_ticks(delay as u64);
        if wake > tasks.tick_count {
            wake - tasks.tick_count
        } else {
            0
        }
    };
    (NTSTATUS(STATUS_SUCCESS), clock::pause(tasks, ticks))
}

/// What can be asked of a process.
#[derive(Debug, Clone, Copy, PartialEq, Eq, Structural)]
pub enum ProcessInfoClass {
    ProcessBasicInformation,
    ProcessQuotaLimits,
    ProcessIoCounters,
    ProcessVmCounters,
    ProcessTimes,
    ProcessImageFileName,
    ProcessImageInformation,
}

impl ProcessInfoClass {
    /// The number of the class in calls.
    pub fn number(self) -> (r: u32)
        ensures
            r == match self {
                ProcessInfoClass::ProcessBasicInformation => 0u32,
                ProcessInfoClass::ProcessQuotaLimits => 1,
                ProcessInfoClass::ProcessIoCounters => 2,
                ProcessInfoClass::ProcessVmCounters => 3,
                ProcessInfoClass::ProcessTimes => 4,
                ProcessInfoClass::ProcessImageFileName => 27,
                ProcessInfoClass::ProcessImageInformation => 44,
            },
    {
        match self {
            ProcessInfoClass::ProcessBasicInformation => 0,
            ProcessInfoClass::ProcessQuotaLimits => 1,
            ProcessInfoClass::ProcessIoCounters => 2,
            ProcessInfoClass::ProcessVmCounters => 3,
            ProcessInfoClass::ProcessTimes => 4,
            ProcessInfoClass::ProcessImageFileName => 27,
            ProcessInfoClass::ProcessImageInformation => 44,
        }
    }
}

/// The basic facts about a process.
#[derive(Debug, Clone, Copy, PartialEq, Eq, Structural)]
pub struct ProcessBasicInformation {
    pub exit_status: NTSTATUS,
    pub peb_base_address: u64,
    pub affinity_mask: u64,
    pub base_priority: i32,
    pub unique_process_id: u64,
    pub inherited_from_process_id: u64,
}

/// Asks for facts about a process. No class is answered yet.
pub fn nt_query_information_process(
    _process_handle: HANDLE,
    _info_class: ProcessInfoClass,
    _buffer: u64,
    _buffer_size: DWORD,
    _return_length: u64,
) -> (r: NTSTATUS)
    ensures
        r.0 == STATUS_NOT_IMPLEMENTED,
{
    NTSTATUS(STATUS_NOT_IMPLEMENTED)
}

pub const REG_NONE: DWORD = 0;

pub const REG_SZ: DWORD = 1;

pub const REG_EXPAND_SZ: DWORD = 2;

pub const REG_BINARY: DWORD = 3;

pub const REG_DWORD: DWORD = 4;

pub const REG_DWORD_BIG_ENDIAN: DWORD = 5;

pub const REG_LINK: DWORD = 6;

pub const REG_MULTI_SZ: DWORD = 7;

pub const REG_QWORD: DWORD = 11;

/// Opens a key of the registry: makes a key object and a handle to it.
pub fn nt_open_key(
    pool: &mut ObjectPool,
    handle_table: &mut HandleTable,
    desired_access: ACCESS_MASK,
    _object_attrs: &OBJECT_ATTRIBUTES,
) -> (r: Result<HANDLE, NTSTATUS>)
    ensures
        (final(pool).objects@, final(handle_table).entries@, r) == object_made(
            old(pool).objects@,
            old(handle_table).entries@,
            ObjectType::Key,
            ObjectBody::Key { path: [0u8; OBJECT_PATH_SIZE], path_len: 0 },
            desired_access,
        ),
{
    make_object(
        pool,
        handle_table,
        ObjectType::Key,
        ObjectBody::Key { path: [0u8; OBJECT_PATH_SIZE], path_len: 0 },
        desired_access,
    )
}

/// Makes a section and a handle to it.
pub fn nt_create_section(
    pool: &mut ObjectPool,
    handle_table: &mut HandleTable,
    desired_access: ACCESS_MASK,
    _object_attrs: Option<&OBJECT_ATTRIBUTES>,
    maximum_size: u64,
    _section_page_protection: DWORD,
    _allocation_attributes: DWORD,
    _file_handle: HANDLE,
) -> (r: Result<HANDLE, NTSTATUS>)
    ensures
        (final(pool).objects@, final(handle_table).entries@, r) == object_made(
            old(pool).objects@,
            old(handle_table).entries@,
            ObjectType::Section,
            ObjectBody::Section { base_address: 0, size: maximum_size },
            desired_access,
        ),
{
    make_object(
        pool,
        handle_table,
        ObjectType::Section,
        ObjectBody::Section { base_address: 0, size: maximum_size },
        desired_access,
    )
}

pub const SEC_COMMIT: DWORD = 0x08000000;

pub const SEC_RESERVE: DWORD = 0x04000000;

pub const SEC_IMAGE: DWORD = 0x01000000;

/// `FILE_OPEN` and `FILE_OVERWRITE` fail where the file does not exist, and
/// `FILE_CREATE` where it does. A file that exists is opened as it is by
/// `FILE_OPEN` and `FILE_OPEN_IF`, as long as there is room for the handle. A
/// request that fails changes nothing.
pub proof fn law_disposition_decides(
    w: World,
    pool: Seq<Option<ObjectHeader>>,
    table: Seq<HandleEntry>,
    handle: HANDLE,
    path: Seq<u8>,
    access: ACCESS_MASK,
    disposition: DWORD,
    w2: World,
    pool2: Seq<Option<ObjectHeader>>,
    table2: Seq<HandleEntry>,
    handle2: HANDLE,
    status: u32,
)
    requires
        file_created(
            w,
            pool,
            table,
            handle,
            true,
            path,
            access,
            disposition,
            w2,
            pool2,
            table2,
            handle2,
            status,
        ),
        disposition <= FILE_OVERWRITE_IF,
    ensures
        ({
            let found = files::found_at(w.vfs, path);
            let unchanged = w2 == w && pool2 == pool && table2 == table && handle2 == handle;
            &&& found is None && (disposition == FILE_OPEN || disposition == FILE_OVERWRITE)
                ==> status == STATUS_OBJECT_NAME_NOT_FOUND && unchanged
            &&& found is Some && disposition == FILE_CREATE ==> status
                == STATUS_OBJECT_NAME_COLLISION && unchanged
            &&& found is Some && (disposition == FILE_OPEN || disposition == FILE_OPEN_IF)
                && object::free_object(pool) is Some && object::free_place(table) is Some
                ==> status == STATUS_SUCCESS && w2 == w
            &&& status != STATUS_SUCCESS ==> unchanged
        }),
{
}

/// Closing the handle to an object that was just made leaves the pool and the
/// table as they were.
pub proof fn law_closing_a_new_object_removes_it(
    pool: Seq<Option<ObjectHeader>>,
    table: Seq<HandleEntry>,
    obj_type: ObjectType,
    body: ObjectBody,
    access: ACCESS_MASK,
)
    requires
        pool.len() <= MAX_OBJECTS,
        table.len() == object::HANDLE_TABLE_SIZE,
        forall|i: int|
            0 <= i < table.len() && (#[trigger] table[i]).object_index == object::NO_OBJECT
                ==> table[i] == HandleEntry::spec_empty(),
        object_made(pool, table, obj_type, body, access).2 is Ok,
    ensures
        ({
            let (p, t, r) = object_made(pool, table, obj_type, body, access);
            object::closed(p, t, r->Ok_0) == (pool, table, STATUS_SUCCESS)
        }),
{
    let (p, t, r) = object_made(pool, table, obj_type, body, access);
    object::lemma_free_object(pool);
    object::lemma_free_place(table);
    let i = object::free_object(pool)->0;
    object::law_handles_are_multiples_of_four(table, i as u32, access);
    let k = object::free_place(table)->0 as int;
    assert(table[k] == HandleEntry::spec_empty());
    assert(t[k].object_index == i);
    let c = object::closed(p, t, r->Ok_0);
    assert(c.0 =~= pool);
    assert(c.1 =~= table);
}

} // verus!
