use nonameos::boot;
use nonameos::clock;
use nonameos::kernel::{Kernel, ASSUMED_MEMORY};
use nonameos::memory::phys;
use nonameos::scheduler::{self, Scheduler};
use nonameos::task::{TaskState, Thread};
use nonameos::vfs;
use nonameos::win32::error::{self, STATUS_INVALID_HANDLE, STATUS_SUCCESS};
use nonameos::win32::ntapi::{self, ProcessInfoClass};
use nonameos::win32::object::{self, HandleTable, ObjectBody, ObjectPool, ObjectType};
use nonameos::win32::shared;
use nonameos::win32::sync;
use nonameos::win32::subsys::{self, HWND, POINT, RECT, Win32Op};
use nonameos::win32::types::{GUID, HANDLE, IO_STATUS_BLOCK, NTSTATUS, OBJECT_ATTRIBUTES};
use nonameos::win32::types::{self, UNICODE_STRING};

fn fresh() -> (ObjectPool, HandleTable) {
    (ObjectPool::new(), HandleTable::new())
}

#[test]
fn a_status_has_one_severity() {
    for (s, name) in [
        (0x0000_0103, "SUCCESS"),
        (0x4000_0000, "INFO"),
        (0x8000_0005, "WARNING"),
        (0xC000_0022, "ERROR"),
    ] {
        let t = NTSTATUS(s);
        assert_eq!(t.severity_name(), name);
        let one = [t.is_success(), t.is_info(), t.is_warning(), t.is_error()];
        assert_eq!(one.iter().filter(|b| **b).count(), 1);
    }
    assert_eq!(NTSTATUS(0xC123_4567).facility(), 0x0123);
    assert_eq!(NTSTATUS(0xC123_4567).code(), 0x4567);
    assert_eq!(NTSTATUS(0xC123_4567).raw(), 0xC123_4567);
}

#[test]
fn an_error_survives_the_way_back() {
    for e in [0, 2, 3, 5, 6, 8, 87, 183, 32, 122, 50] {
        assert_eq!(error::ntstatus_to_win32_error(error::win32_error_to_ntstatus(e)), e);
    }
    assert_eq!(error::win32_error_to_ntstatus(12_345).0, error::STATUS_UNSUCCESSFUL);
    assert_eq!(error::ntstatus_to_win32_error(NTSTATUS(0xC000_FFFF)), 317);
    assert_eq!(error::ntstatus_to_win32_error(NTSTATUS(0x0000_FFFF)), 317);
    assert_eq!(error::ntstatus_to_win32_error(NTSTATUS(0x0000_0104)), 317);
    assert_eq!(error::ntstatus_to_win32_error(NTSTATUS(0)), 0);
    assert_eq!(error::ntstatus_to_win32_error(NTSTATUS(0xC000_007B)), 126);
    assert_eq!(error::ntstatus_name(NTSTATUS(0xC000_0022)), "STATUS_ACCESS_DENIED");
}

#[test]
fn handles_are_multiples_of_four() {
    let mut t = HandleTable::new();
    for i in 1..256usize {
        let h = t.allocate(i as u32, 7);
        assert_eq!(h.as_usize(), 4 * i);
        assert!(h.is_valid());
    }
    assert!(t.allocate(1, 7).is_invalid());
    assert_eq!(t.get(HANDLE(400)).unwrap().object_index, 100);
    assert!(t.get(HANDLE(0)).is_none());
    assert!(t.get(HANDLE(1024)).is_none());
}

#[test]
fn a_handle_is_closed_unless_it_is_protected() {
    let (mut p, mut t) = fresh();
    let i = object::create_object(&mut p, ObjectType::Key, "k", ObjectBody::Nothing).unwrap();
    let h = t.allocate(i, 1);
    let copy = t.duplicate(&mut p, h, 2);
    assert_eq!(t.get(copy).unwrap().access_mask, 2);
    assert_eq!(t.get(copy).unwrap().object_index, i);
    assert!(t.duplicate(&mut p, HANDLE(600), 2).is_invalid());
    assert_eq!(t.close(h).0, STATUS_SUCCESS);
    assert_eq!(t.close(h).0, STATUS_INVALID_HANDLE);
    t.entries[2].protect = true;
    assert_eq!(t.close(copy).0, 0xC000_0235);
    assert!(t.get(copy).is_some());
}

#[test]
fn an_object_goes_with_its_last_reference() {
    let (mut p, _) = fresh();
    let i = object::create_object(&mut p, ObjectType::Event, "ev", ObjectBody::Nothing).unwrap();
    assert_eq!(object::object_count(&p), 1);
    assert_eq!(object::lookup_object(&p, "ev"), Some(i));
    assert_eq!(object::lookup_object(&p, "e"), None);
    assert_eq!(object::get_object_type(&p, i), Some(ObjectType::Event));
    assert_eq!(object::reference_object(&mut p, i).0, STATUS_SUCCESS);
    assert_eq!(object::dereference_object(&mut p, i).0, STATUS_SUCCESS);
    assert_eq!(object::object_count(&p), 1);
    assert_eq!(object::dereference_object(&mut p, i).0, STATUS_SUCCESS);
    assert_eq!(object::object_count(&p), 0);
    assert_eq!(object::dereference_object(&mut p, i).0, STATUS_INVALID_HANDLE);
    assert_eq!(object::reference_object(&mut p, 5000).0, STATUS_INVALID_HANDLE);
    assert_eq!(object::get_object_type(&p, i), None);
}

#[test]
fn a_permanent_object_stays() {
    let (mut p, _) = fresh();
    let i = object::create_object(&mut p, ObjectType::Directory, "d", ObjectBody::Nothing).unwrap();
    p.objects[i as usize].as_mut().unwrap().permanent = true;
    assert_eq!(object::dereference_object(&mut p, i).0, STATUS_SUCCESS);
    assert_eq!(object::object_count(&p), 1);
    assert_eq!(object::dereference_object(&mut p, i).0, STATUS_INVALID_HANDLE);
}

#[test]
fn closing_undoes_opening() {
    let (mut p, mut t) = fresh();
    let body = ObjectBody::Semaphore { current_count: 1, maximum_count: 3 };
    let i = object::create_object(&mut p, ObjectType::Semaphore, "s", body).unwrap();
    let h = object::open_object(&mut p, &mut t, "s", ObjectType::Semaphore, 5).unwrap();
    assert_eq!(p.objects[i as usize].unwrap().ref_count, 2);
    assert_eq!(object::close_handle(&mut p, &mut t, h).0, STATUS_SUCCESS);
    assert_eq!(p.objects[i as usize].unwrap().ref_count, 1);
    assert!(t.get(h).is_none());
    assert_eq!(object::close_handle(&mut p, &mut t, h).0, STATUS_INVALID_HANDLE);
}

#[test]
fn opening_fails_for_each_reason() {
    let (mut p, mut t) = fresh();
    object::create_object(&mut p, ObjectType::Event, "e", ObjectBody::Nothing).unwrap();
    assert_eq!(
        object::open_object(&mut p, &mut t, "none", ObjectType::Event, 0).unwrap_err().0,
        error::STATUS_OBJECT_NAME_NOT_FOUND
    );
    assert_eq!(
        object::open_object(&mut p, &mut t, "e", ObjectType::Mutant, 0).unwrap_err().0,
        error::STATUS_OBJECT_TYPE_MISMATCH
    );
    while t.allocate(0, 0).is_valid() {}
    assert_eq!(
        object::open_object(&mut p, &mut t, "e", ObjectType::Event, 0).unwrap_err().0,
        error::STATUS_INSUFFICIENT_RESOURCES
    );
    assert_eq!(p.objects[0].unwrap().ref_count, 1);
}

#[test]
fn the_pool_runs_full() {
    let (mut p, _) = fresh();
    for n in 0..1024u32 {
        assert_eq!(object::create_object(&mut p, ObjectType::Key, "k", ObjectBody::Nothing), Some(n));
    }
    assert_eq!(object::create_object(&mut p, ObjectType::Key, "k", ObjectBody::Nothing), None);
}

#[test]
fn a_shared_pool_keeps_its_objects_between_calls() {
    let pool = spin::Mutex::new(ObjectPool::new());
    let mut t = HandleTable::new();
    let i = shared::create_object(&pool, ObjectType::Event, "ev", ObjectBody::Nothing).unwrap();
    assert_eq!(shared::lookup_object(&pool, "ev"), Some(i));
    assert_eq!(shared::get_object_type(&pool, i), Some(ObjectType::Event));
    assert_eq!(shared::object_count(&pool), 1);
    let h = shared::open_object(&pool, &mut t, "ev", ObjectType::Event, 3).unwrap();
    assert_eq!(pool.lock().objects[i as usize].unwrap().ref_count, 2);
    assert_eq!(shared::reference_object(&pool, i), Some(NTSTATUS(STATUS_SUCCESS)));
    assert_eq!(shared::dereference_object(&pool, i).0, STATUS_SUCCESS);
    assert_eq!(shared::close_handle(&pool, &mut t, h).0, STATUS_SUCCESS);
    assert_eq!(shared::dereference_object(&pool, i).0, STATUS_SUCCESS);
    assert_eq!(shared::object_count(&pool), 0);
    assert!(shared::open_object(&pool, &mut t, "ev", ObjectType::Event, 3).is_err());
}

#[test]
fn an_object_is_opened_as_long_as_its_references_can_be_counted() {
    let (mut p, mut t) = fresh();
    object::create_object(&mut p, ObjectType::Key, "other", ObjectBody::Nothing).unwrap();
    object::create_object(&mut p, ObjectType::Event, "e", ObjectBody::Nothing).unwrap();
    let h = object::try_open_object(&mut p, &mut t, "e", ObjectType::Event, 7).unwrap();
    assert_eq!((h.0, t.get(h).unwrap().object_index, t.get(h).unwrap().access_mask), (4, 1, 7));
    assert_eq!(p.objects[1].unwrap().ref_count, 2);
    let mut o = p.objects[1].unwrap();
    o.ref_count = u32::MAX;
    p.objects[1] = Some(o);
    let e = object::try_open_object(&mut p, &mut t, "e", ObjectType::Event, 7).unwrap_err();
    assert_eq!(e.0, error::STATUS_INSUFFICIENT_RESOURCES);
    let e = object::try_open_object(&mut p, &mut t, "e", ObjectType::Key, 7).unwrap_err();
    assert_eq!(e.0, error::STATUS_OBJECT_TYPE_MISMATCH);
    let e = object::try_open_object(&mut p, &mut t, "f", ObjectType::Event, 7).unwrap_err();
    assert_eq!(e.0, error::STATUS_OBJECT_NAME_NOT_FOUND);
    assert_eq!(p.objects[1].unwrap().ref_count, u32::MAX);
    assert!(t.get(HANDLE(8)).is_none());
}

#[test]
fn handles_on_a_shared_pool_lead_to_their_own_objects() {
    let pool = spin::Mutex::new(ObjectPool::new());
    let mut t = HandleTable::new();
    shared::create_object(&pool, ObjectType::Key, "other", ObjectBody::Nothing).unwrap();
    let i = shared::create_object(&pool, ObjectType::Event, "ev", ObjectBody::Nothing).unwrap();
    let e = shared::open_object(&pool, &mut t, "ev", ObjectType::Key, 3).unwrap_err();
    assert_eq!(e.0, error::STATUS_OBJECT_TYPE_MISMATCH);
    let h = shared::open_object(&pool, &mut t, "ev", ObjectType::Event, 3).unwrap();
    assert_eq!(t.get(h).unwrap().object_index, i);
    assert_eq!(pool.lock().objects[i as usize].unwrap().ref_count, 2);
    assert_eq!(shared::close_handle(&pool, &mut t, h).0, STATUS_SUCCESS);
    assert_eq!(pool.lock().objects[i as usize].unwrap().ref_count, 1);
    assert_eq!(pool.lock().objects[0].unwrap().ref_count, 1);
    assert_eq!(shared::close_handle(&pool, &mut t, h).0, STATUS_INVALID_HANDLE);
}

#[test]
fn a_shared_pool_has_no_object_behind_its_end() {
    let pool = spin::Mutex::new(ObjectPool::new());
    let mut t = HandleTable::new();
    let long = "n".repeat(129);
    shared::create_object(&pool, ObjectType::Event, &long, ObjectBody::Nothing).unwrap();
    assert_eq!(shared::lookup_object(&pool, &long), None);
    let e = shared::open_object(&pool, &mut t, &long, ObjectType::Event, 3).unwrap_err();
    assert_eq!(e.0, error::STATUS_OBJECT_NAME_NOT_FOUND);
    for index in [1024, u32::MAX] {
        assert_eq!(shared::reference_object(&pool, index), Some(NTSTATUS(STATUS_INVALID_HANDLE)));
        assert_eq!(shared::dereference_object(&pool, index).0, STATUS_INVALID_HANDLE);
        assert_eq!(shared::get_object_type(&pool, index), None);
    }
    assert_eq!(shared::object_count(&pool), 1);
}

#[test]
fn references_are_counted_as_far_as_they_go() {
    let (mut p, _) = fresh();
    let i = object::create_object(&mut p, ObjectType::Event, "ev", ObjectBody::Nothing).unwrap();
    assert_eq!(object::try_reference_object(&mut p, i), Some(NTSTATUS(STATUS_SUCCESS)));
    assert_eq!(p.objects[i as usize].unwrap().ref_count, 2);
    let mut h = p.objects[i as usize].unwrap();
    h.ref_count = u32::MAX;
    p.objects[i as usize] = Some(h);
    assert_eq!(object::try_reference_object(&mut p, i), None);
    assert_eq!(p.objects[i as usize].unwrap().ref_count, u32::MAX);
    assert_eq!(
        object::try_reference_object(&mut p, i + 1),
        Some(NTSTATUS(STATUS_INVALID_HANDLE))
    );
}

fn attributes(name: u64) -> OBJECT_ATTRIBUTES {
    OBJECT_ATTRIBUTES {
        length: 48,
        root_directory: HANDLE(0),
        object_name: name,
        attributes: 0,
        security_descriptor: 0,
        security_qos: 0,
    }
}

#[test]
fn a_file_is_made_under_its_name() {
    let (mut p, mut t) = fresh();
    let mut io = IO_STATUS_BLOCK { status: NTSTATUS(1), information: 9 };
    let (mut k, mut m) = with_files();
    let mut h = HANDLE(0);
    let no_name = attributes(0);
    let r = ntapi::nt_create_file(
        &mut k, &mut m, &mut p, &mut t, &mut h, 3, &no_name, b"/tmp/a", &mut io, None, 0, 0, 3, 0,
    );
    assert_eq!(r.0, error::STATUS_OBJECT_NAME_INVALID);
    assert_eq!((io.status.0, io.information), (r.0, 9));
    assert_eq!(object::object_count(&p), 0);
    let name = attributes(0x1000);
    let r = ntapi::nt_create_file(
        &mut k, &mut m, &mut p, &mut t, &mut h, 3, &name, b"/tmp/a", &mut io, None, 0, 0, 2, 0,
    );
    assert_eq!(r.0, STATUS_SUCCESS);
    assert_eq!((io.status.0, io.information), (0, 0));
    assert_eq!(object::get_object_type(&p, 0), Some(ObjectType::File));
    assert_eq!(h.0, 4);
    assert_eq!(t.get(h).unwrap().access_mask, 3);
    match p.objects[0].unwrap().body {
        ObjectBody::File { path, path_len, position, access, size } => {
            assert_eq!(&path[..path_len], b"/tmp/a");
            assert_eq!((position, access, size), (0, 3, 0));
        }
        _ => panic!("not a file"),
    }
}

/// A kernel with a file system and memory.
fn with_files() -> (Box<Kernel>, Vec<u8>) {
    let mut k = Box::new(Kernel::new());
    boot::start(&mut k, 0x20_0000);
    (k, vec![0u8; ASSUMED_MEMORY])
}

/// Asks for a file, and returns the status.
fn ask(k: &mut Kernel, m: &mut [u8], p: &mut ObjectPool, t: &mut HandleTable, path: &[u8], d: u32) -> u32 {
    let mut io = IO_STATUS_BLOCK { status: NTSTATUS(1), information: 9 };
    let mut h = HANDLE(0);
    let name = attributes(0x1000);
    let r = ntapi::nt_create_file(k, m, p, t, &mut h, 1, &name, path, &mut io, None, 0, 0, d, 0);
    assert_eq!(io.status.0, r.0);
    assert_eq!(h.is_valid(), r.0 == STATUS_SUCCESS);
    r.0
}

#[test]
fn the_disposition_decides_about_a_file() {
    let (mut k, mut m) = with_files();
    let (mut p, mut t) = fresh();
    let missing = error::STATUS_OBJECT_NAME_NOT_FOUND;
    // Nothing is there yet.
    assert_eq!(ask(&mut k, &mut m, &mut p, &mut t, b"/tmp/a", ntapi::FILE_OPEN), missing);
    assert_eq!(ask(&mut k, &mut m, &mut p, &mut t, b"/tmp/a", ntapi::FILE_OVERWRITE), missing);
    assert_eq!(object::object_count(&p), 0);
    for (path, d) in [(b"/tmp/a", 2), (b"/tmp/b", 3), (b"/tmp/c", 0), (b"/tmp/d", 5)] {
        assert_eq!(ask(&mut k, &mut m, &mut p, &mut t, path, d), STATUS_SUCCESS);
        assert!(vfs::path_lookup(&k.vfs, path).is_some());
    }
    assert_eq!(object::object_count(&p), 4);
    // It is there, with data in it.
    let collision = error::STATUS_OBJECT_NAME_COLLISION;
    assert_eq!(ask(&mut k, &mut m, &mut p, &mut t, b"/tmp/a", ntapi::FILE_CREATE), collision);
    assert_eq!(object::object_count(&p), 4);
    for (d, left, new) in [(1, 3, false), (3, 3, false), (4, 0, false), (5, 0, false), (0, 0, true)] {
        let fd = vfs::open(&mut k.vfs, b"/tmp/a", 0).unwrap();
        assert_eq!(vfs::write(&mut k.vfs, &mut k.frames, &mut m, fd, b"abc"), 3);
        let i = k.vfs.files[fd].inode_idx;
        let ino = k.vfs.inodes[i].ino;
        assert_eq!(ask(&mut k, &mut m, &mut p, &mut t, b"/tmp/a", d), STATUS_SUCCESS);
        assert_eq!(k.vfs.inodes[i].size, left);
        assert_eq!(k.vfs.inodes[i].ino != ino, new);
        vfs::close(&mut k.vfs, fd);
    }
    assert_eq!(object::object_count(&p), 9);
}

#[test]
fn files_that_cannot_be_made_are_refused() {
    let (mut k, mut m) = with_files();
    let (mut p, mut t) = fresh();
    let long = [b'x'; 70];
    for (path, d, status) in [
        (&b"/none/a"[..], 2, error::STATUS_OBJECT_PATH_NOT_FOUND),
        (b"a", 2, error::STATUS_OBJECT_PATH_NOT_FOUND),
        (b"/none/", 2, error::STATUS_OBJECT_NAME_INVALID),
        (b"", 2, error::STATUS_OBJECT_NAME_INVALID),
        (&long[..], 2, error::STATUS_OBJECT_NAME_INVALID),
        (b"/tmp/a", 6, error::STATUS_INVALID_PARAMETER),
        (b"/tmp", 4, error::STATUS_FILE_IS_A_DIRECTORY),
        (b"/tmp", 0, error::STATUS_FILE_IS_A_DIRECTORY),
    ] {
        assert_eq!(ask(&mut k, &mut m, &mut p, &mut t, path, d), status);
    }
    assert_eq!(ask(&mut k, &mut m, &mut p, &mut t, b"/tmp", 1), STATUS_SUCCESS);
    k.vfs.next_ino = u64::MAX;
    let full = error::STATUS_INSUFFICIENT_RESOURCES;
    assert_eq!(ask(&mut k, &mut m, &mut p, &mut t, b"/tmp/a", 2), full);
    k.vfs.next_ino = 100;
    while t.allocate(0, 0).is_valid() {}
    assert_eq!(ask(&mut k, &mut m, &mut p, &mut t, b"/tmp/a", 2), full);
    assert!(vfs::path_lookup(&k.vfs, b"/tmp/a").is_none());
    assert_eq!(object::object_count(&p), 1);
}

#[test]
fn closing_a_new_object_removes_it() {
    let (mut p, mut t) = fresh();
    let e = ntapi::nt_create_event(&mut p, &mut t, 1, None, true, false).unwrap();
    let m = ntapi::nt_create_mutant(&mut p, &mut t, &threads(), 1, None, true).unwrap();
    let s = ntapi::nt_create_section(&mut p, &mut t, 1, None, 4096, 0, 0, HANDLE(0)).unwrap();
    let k = ntapi::nt_open_key(&mut p, &mut t, 1, &attributes(0)).unwrap();
    let kinds: Vec<ObjectType> = (0..4).map(|i| object::get_object_type(&p, i).unwrap()).collect();
    assert_eq!(
        kinds,
        vec![ObjectType::Event, ObjectType::Mutant, ObjectType::Section, ObjectType::Key]
    );
    for h in [e, m, s, k] {
        assert_eq!(ntapi::nt_close(&mut p, &mut t, h).0, STATUS_SUCCESS);
        assert_eq!(ntapi::nt_close(&mut p, &mut t, h).0, STATUS_INVALID_HANDLE);
    }
    assert_eq!(object::object_count(&p), 0);
}

#[test]
fn objects_need_room_for_their_handle() {
    let (mut p, mut t) = fresh();
    while t.allocate(0, 0).is_valid() {}
    let r = ntapi::nt_create_event(&mut p, &mut t, 1, None, true, false);
    assert_eq!(r.unwrap_err().0, error::STATUS_INSUFFICIENT_RESOURCES);
    assert_eq!(object::object_count(&p), 0);
}

#[test]
fn virtual_memory_comes_in_pages() {
    let (mut k, mut m) = with_files();
    let f = &mut k.frames;
    let cr3 = phys::alloc_frame(f).unwrap() as u64;
    let free = phys::free_count(f);
    let me = HANDLE(usize::MAX);
    let (mut base, mut size) = (0u64, 5000u64);
    // Reserving takes no memory.
    let kind = ntapi::MEM_RESERVE;
    let r = ntapi::nt_allocate_virtual_memory(f, &mut m, cr3, me, &mut base, &mut size, kind, 4);
    assert_eq!((r.0, base, size), (STATUS_SUCCESS, 0x1_0000, 8192));
    assert_eq!(phys::free_count(f), free);
    // Two pages and three tables.
    let kind = ntapi::MEM_COMMIT;
    let r = ntapi::nt_allocate_virtual_memory(f, &mut m, cr3, me, &mut base, &mut size, kind, 4);
    assert_eq!((r.0, base, size), (STATUS_SUCCESS, 0x1_0000, 8192));
    assert_eq!(phys::free_count(f), free - 5);
    let kind = ntapi::MEM_RELEASE;
    assert_eq!(ntapi::nt_free_virtual_memory(f, &mut m, cr3, me, &mut base, &mut size, 0).0, 0);
    assert_eq!(phys::free_count(f), free - 5);
    assert_eq!(ntapi::nt_free_virtual_memory(f, &mut m, cr3, me, &mut base, &mut size, kind).0, 0);
    assert_eq!((base, size), (0x1_0000, 8192));
    assert_eq!(phys::free_count(f), free - 3);
    let (mut base, mut size) = (0x7FFF_FFFF_F000u64, 8192u64);
    let r = ntapi::nt_free_virtual_memory(f, &mut m, cr3, me, &mut base, &mut size, kind);
    assert_eq!(r.0, error::STATUS_UNABLE_TO_FREE_VM);
    let kind = ntapi::MEM_COMMIT;
    let r = ntapi::nt_allocate_virtual_memory(f, &mut m, cr3, me, &mut base, &mut size, kind, 4);
    assert_eq!(r.0, error::STATUS_INVALID_PARAMETER);
    size = u64::MAX;
    let r = ntapi::nt_allocate_virtual_memory(f, &mut m, cr3, me, &mut base, &mut size, 0, 4);
    assert_eq!((r.0, size), (error::STATUS_INVALID_PARAMETER, u64::MAX));
    while phys::alloc_frame(f).is_some() {}
    let (mut base, mut size) = (0u64, 1u64);
    let r = ntapi::nt_allocate_virtual_memory(f, &mut m, cr3, me, &mut base, &mut size, kind, 4);
    assert_eq!((r.0, base, size), (error::STATUS_NO_MEMORY, 0, 1));
}

/// Threads of which that in slot 1 runs: number 11, of process 5.
fn threads() -> Box<Scheduler> {
    let mut s = Box::new(Scheduler::new());
    scheduler::init(&mut s);
    for (i, tid, pid) in [(1, 11, 5), (2, 12, 5), (3, 13, 6)] {
        let mut t = Thread::new(tid, pid, 0, 0);
        t.state = TaskState::Ready;
        s.threads[i] = Some(t);
    }
    let mut idle = s.threads[0].unwrap();
    idle.state = TaskState::Ready;
    s.threads[0] = Some(idle);
    let mut t = s.threads[1].unwrap();
    t.state = TaskState::Running;
    s.threads[1] = Some(t);
    s.current_thread = 1;
    s
}

#[test]
fn a_mutex_belongs_to_the_thread_that_makes_it() {
    let (mut p, mut t) = fresh();
    let mut s = threads();
    let h = ntapi::nt_create_mutant(&mut p, &mut t, &s, 1, None, true).unwrap();
    let held = |p: &ObjectPool| match p.objects[0].unwrap().body {
        ObjectBody::Mutant { owner_tid, recursion_count, signaled } => {
            (owner_tid, recursion_count, signaled)
        }
        _ => panic!("not a mutex"),
    };
    assert_eq!(held(&p), (11, 1, false));
    // It can be taken again by its owner, but not by another thread.
    let r = ntapi::nt_wait_for_single_object(&mut p, &t, &mut s, h, false, Some(0));
    assert_eq!(r.0 .0, STATUS_SUCCESS);
    assert_eq!(held(&p), (11, 2, false));
    s.current_thread = 3;
    let r = ntapi::nt_wait_for_single_object(&mut p, &t, &mut s, h, false, Some(0));
    assert_eq!(r.0 .0, sync::STATUS_TIMEOUT);
    assert_eq!(held(&p), (11, 2, false));
    let free = ntapi::nt_create_mutant(&mut p, &mut t, &s, 1, None, false).unwrap();
    let r = ntapi::nt_wait_for_single_object(&mut p, &t, &mut s, free, false, None);
    assert_eq!(r.0 .0, STATUS_SUCCESS);
    match p.objects[1].unwrap().body {
        ObjectBody::Mutant { owner_tid, recursion_count, signaled } => {
            assert_eq!((owner_tid, recursion_count, signaled), (13, 1, false));
        }
        _ => panic!("not a mutex"),
    }
}

#[test]
fn a_wait_ends_when_the_object_is_signaled() {
    let (mut p, mut t) = fresh();
    let mut s = threads();
    let h = ntapi::nt_create_event(&mut p, &mut t, 1, None, false, true).unwrap();
    let wait = ntapi::nt_wait_for_single_object;
    assert_eq!(wait(&mut p, &t, &mut s, h, false, None).0 .0, STATUS_SUCCESS);
    // It has reset itself: the thread sleeps until the next tick.
    let r = wait(&mut p, &t, &mut s, h, false, None);
    assert_eq!(r.0 .0, error::STATUS_PENDING);
    assert_eq!(r.1.unwrap().from, 1);
    assert_eq!(s.sleep_until[1], 1);
    assert_eq!(wait(&mut p, &t, &mut s, h, false, Some(0)).0 .0, sync::STATUS_TIMEOUT);
    let set = ntapi::nt_create_event(&mut p, &mut t, 1, None, true, true).unwrap();
    for _ in 0..2 {
        assert_eq!(wait(&mut p, &t, &mut s, set, false, None).0 .0, STATUS_SUCCESS);
    }
    let body = ObjectBody::Semaphore { current_count: 1, maximum_count: 2 };
    let i = object::create_object(&mut p, ObjectType::Semaphore, "", body).unwrap();
    let sem = t.allocate(i, 1);
    assert_eq!(wait(&mut p, &t, &mut s, sem, false, Some(0)).0 .0, STATUS_SUCCESS);
    assert_eq!(wait(&mut p, &t, &mut s, sem, false, Some(0)).0 .0, sync::STATUS_TIMEOUT);
    let key = ntapi::nt_open_key(&mut p, &mut t, 1, &attributes(0)).unwrap();
    let r = wait(&mut p, &t, &mut s, key, false, None);
    assert_eq!(r.0 .0, error::STATUS_OBJECT_TYPE_MISMATCH);
    assert_eq!(wait(&mut p, &t, &mut s, HANDLE(400), false, None).0 .0, STATUS_INVALID_HANDLE);
    assert_eq!(sync::time_left(Some(1_000_000)), Some(450_549));
    assert_eq!((sync::time_left(Some(5)), sync::time_left(None)), (Some(0), None));
}

#[test]
fn a_delay_puts_the_thread_to_sleep() {
    // A second is 18.2 ticks.
    let mut s = threads();
    let r = ntapi::nt_delay_execution(&mut s, false, -10_000_000);
    assert_eq!(r.0 .0, STATUS_SUCCESS);
    assert_eq!(r.1.unwrap().from, 1);
    assert_eq!(s.sleep_until[1], 19);
    assert_eq!(s.threads[1].unwrap().state, TaskState::Blocked);
    // Five seconds after the start.
    let mut s = threads();
    s.tick_count = 90;
    ntapi::nt_delay_execution(&mut s, false, 50_000_000);
    assert_eq!(s.sleep_until[1], 91);
    let mut s = threads();
    s.tick_count = 91;
    ntapi::nt_delay_execution(&mut s, false, 50_000_000);
    assert_eq!((s.sleep_until[1], s.threads[1].unwrap().state), (0, TaskState::Ready));
    let mut s = threads();
    ntapi::nt_delay_execution(&mut s, false, i64::MIN);
    assert_eq!(s.sleep_until[1], clock::steps_to_ticks(1 << 63));
}

#[test]
fn a_process_ends_with_its_threads() {
    let (mut p, mut t) = fresh();
    let mut s = threads();
    let other = ObjectBody::Process { pid: 6, exit_code: 0, terminated: false };
    let i = object::create_object(&mut p, ObjectType::Process, "", other).unwrap();
    let h = t.allocate(i, 1);
    let end = ntapi::nt_terminate_process;
    assert_eq!(end(&mut p, &mut t, &mut s, HANDLE(400), NTSTATUS(1)).0 .0, STATUS_INVALID_HANDLE);
    let r = end(&mut p, &mut t, &mut s, h, NTSTATUS(9));
    assert_eq!(r.0 .0, STATUS_SUCCESS);
    assert!(r.1.is_none());
    assert_eq!(s.threads[3].unwrap().state, TaskState::Dead);
    assert_eq!(s.threads[2].unwrap().state, TaskState::Ready);
    match p.objects[0].unwrap().body {
        ObjectBody::Process { pid, exit_code, terminated } => {
            assert_eq!((pid, exit_code, terminated), (6, 9, true));
        }
        _ => panic!("not a process"),
    }
    let r = ntapi::nt_wait_for_single_object(&mut p, &t, &mut s, h, false, None);
    assert_eq!(r.0 .0, STATUS_SUCCESS);
    let event = ntapi::nt_create_event(&mut p, &mut t, 1, None, false, true).unwrap();
    let r = end(&mut p, &mut t, &mut s, event, NTSTATUS(9));
    assert_eq!(r.0 .0, error::STATUS_OBJECT_TYPE_MISMATCH);
    // The calling process goes with its handles.
    let r = end(&mut p, &mut t, &mut s, HANDLE(usize::MAX), NTSTATUS(0));
    assert_eq!(r.0 .0, STATUS_SUCCESS);
    assert_eq!(r.1.unwrap().to, 0);
    assert_eq!(s.threads[1].unwrap().state, TaskState::Dead);
    assert_eq!(s.threads[2].unwrap().state, TaskState::Dead);
    assert!(t.get(event).is_none());
    assert_eq!(object::object_count(&p), 0);
    // The kernel cannot be ended.
    let r = end(&mut p, &mut t, &mut s, HANDLE(usize::MAX), NTSTATUS(0));
    assert_eq!(r.0 .0, error::STATUS_ACCESS_DENIED);
}

#[test]
fn a_duplicate_keeps_the_object() {
    let (mut p, mut t) = fresh();
    let h1 = ntapi::nt_create_event(&mut p, &mut t, 1, None, false, false).unwrap();
    assert_eq!(p.objects[0].unwrap().handle_count, 1);
    let h2 = t.duplicate(&mut p, h1, 2);
    assert!(h2.is_valid() && h2 != h1);
    let counts = |p: &ObjectPool| (p.objects[0].unwrap().ref_count, p.objects[0].unwrap().handle_count);
    assert_eq!(counts(&p), (2, 2));
    assert_eq!(object::close_handle(&mut p, &mut t, h1).0, STATUS_SUCCESS);
    assert_eq!(object::object_count(&p), 1);
    assert_eq!(counts(&p), (1, 1));
    assert_eq!(object::close_handle(&mut p, &mut t, h2).0, STATUS_SUCCESS);
    assert_eq!(object::object_count(&p), 0);
    assert_eq!(object::close_handle(&mut p, &mut t, h2).0, STATUS_INVALID_HANDLE);
}

#[test]
fn handles_of_processes_are_counted() {
    let (mut p, mut t) = fresh();
    let i = object::create_object(&mut p, ObjectType::Event, "e", ObjectBody::Nothing).unwrap();
    let counts = |p: &ObjectPool| (p.objects[0].unwrap().ref_count, p.objects[0].unwrap().handle_count);
    assert_eq!(counts(&p), (1, 0));
    let h = object::open_object(&mut p, &mut t, "e", ObjectType::Event, 1).unwrap();
    assert_eq!(counts(&p), (2, 1));
    // A pointer of the kernel is no handle.
    object::reference_object(&mut p, i);
    assert_eq!(counts(&p), (3, 1));
    assert_eq!(object::close_handle(&mut p, &mut t, h).0, STATUS_SUCCESS);
    assert_eq!(counts(&p), (2, 0));
    // A full table changes nothing.
    while t.allocate(i, 0).is_valid() {}
    assert!(object::open_object(&mut p, &mut t, "e", ObjectType::Event, 1).is_err());
    assert!(t.duplicate(&mut p, HANDLE(4), 1).is_invalid());
    assert_eq!(counts(&p), (2, 0));
}

#[test]
fn an_object_lives_as_long_as_its_references() {
    let (mut p, _) = fresh();
    let i = object::create_object(&mut p, ObjectType::Event, "e", ObjectBody::Nothing).unwrap();
    for _ in 0..3 {
        assert_eq!(object::reference_object(&mut p, i).0, STATUS_SUCCESS);
    }
    for _ in 0..4 {
        assert_eq!(object::get_object_type(&p, i), Some(ObjectType::Event));
        assert_eq!(object::dereference_object(&mut p, i).0, STATUS_SUCCESS);
    }
    assert_eq!(object::get_object_type(&p, i), None);
    assert_eq!(object::object_count(&p), 0);
    assert_eq!(object::dereference_object(&mut p, i).0, STATUS_INVALID_HANDLE);
    assert_eq!(object::reference_object(&mut p, i).0, STATUS_INVALID_HANDLE);
}

#[test]
fn a_shared_handle_is_duplicated() {
    let pool = spin::Mutex::new(ObjectPool::new());
    let mut t = HandleTable::new();
    shared::create_object(&pool, ObjectType::Event, "ev", ObjectBody::Nothing).unwrap();
    let h = shared::open_object(&pool, &mut t, "ev", ObjectType::Event, 3).unwrap();
    let copy = shared::duplicate_handle(&pool, &mut t, h, 1);
    assert_eq!(pool.lock().objects[0].unwrap().handle_count, 2);
    assert_eq!(shared::close_handle(&pool, &mut t, h).0, STATUS_SUCCESS);
    assert_eq!(shared::close_handle(&pool, &mut t, copy).0, STATUS_SUCCESS);
    assert_eq!(pool.lock().objects[0].unwrap().ref_count, 1);
    assert!(shared::duplicate_handle(&pool, &mut t, h, 1).is_invalid());
}

#[test]
fn no_fact_about_a_process_is_told_yet() {
    let q = ntapi::nt_query_information_process(
        HANDLE(4),
        ProcessInfoClass::ProcessTimes,
        0,
        0,
        0,
    );
    assert_eq!(q.0, error::STATUS_NOT_IMPLEMENTED);
    assert_eq!(ProcessInfoClass::ProcessBasicInformation.number(), 0);
    assert_eq!(ProcessInfoClass::ProcessImageFileName.number(), 27);
}

#[test]
fn a_windows_colour_gives_back_its_parts() {
    let c = subsys::rgb(1, 2, 3);
    assert_eq!(c, 0x03_0201);
    assert_eq!(subsys::get_r_value(c), 1);
    assert_eq!(subsys::get_g_value(c), 2);
    assert_eq!(subsys::get_b_value(c), 3);
}

#[test]
fn rectangles_have_a_size() {
    let r = RECT { left: 2, top: 3, right: 12, bottom: 8 };
    assert_eq!((r.width(), r.height()), (10, 5));
    assert!(!r.is_empty());
    assert!(RECT { right: 2, ..r }.is_empty());
    assert!(HWND(0).is_null() && !HWND(1).is_null());
    let _ = POINT { x: 1, y: 2 };
}

#[test]
fn operations_have_their_own_numbers() {
    let all = [
        Win32Op::RegisterClass,
        Win32Op::CreateWindow,
        Win32Op::DestroyWindow,
        Win32Op::GetMessage,
        Win32Op::GetDC,
        Win32Op::AllocConsole,
        Win32Op::SetConsoleCursorPosition,
    ];
    for (i, a) in all.iter().enumerate() {
        for b in all[..i].iter() {
            assert_ne!(a.number(), b.number());
        }
    }
}

#[test]
fn strings_and_numbers_of_the_interface_start_empty() {
    let s = UNICODE_STRING { length: 10, maximum_length: 12, buffer: 0x1000 };
    assert_eq!(s.char_count(), 5);
    assert_eq!(UNICODE_STRING::empty().char_count(), 0);
    assert_eq!(GUID::empty().data4, [0; 8]);
}

#[test]
fn words_are_split_and_put_together() {
    assert_eq!((types::loword(0x1234_5678), types::hiword(0x1234_5678)), (0x5678, 0x1234));
    assert_eq!((types::lobyte(0x1234), types::hibyte(0x1234)), (0x34, 0x12));
    assert_eq!(types::makelong(0x5678, 0x1234), 0x1234_5678);
    assert_eq!(types::makeword(0x34, 0x12), 0x1234);
    assert!(types::nt_success(NTSTATUS(0x103)) && !types::nt_success(NTSTATUS(0xC000_0001)));
    let t = types::FILETIME { low_date_time: 2, high_date_time: 1 };
    assert_eq!(t.as_u64(), 0x1_0000_0002);
}

#[test]
fn a_list_head_starts_as_its_own_ring() {
    let mut head = types::LIST_ENTRY { flink: 1, blink: 2 };
    assert!(!types::LIST_ENTRY::is_empty(&head, 0x80));
    types::LIST_ENTRY::init_head(&mut head, 0x80);
    assert!(types::LIST_ENTRY::is_empty(&head, 0x80));
    assert_eq!(head.blink, 0x80);
}

#[test]
fn a_thread_keeps_its_last_error() {
    let mut t = subsys::TEB {
        self_ptr: 0,
        peb: 0,
        thread_id: 1,
        process_id: 1,
        last_error: 0,
        tls_slots: [0; 64],
        stack_base: 0,
        stack_limit: 0,
    };
    t.set_last_error(5);
    assert_eq!(t.get_last_error(), 5);
    assert_eq!(OBJECT_ATTRIBUTES::empty(), attributes(0));
    assert_eq!(IO_STATUS_BLOCK::empty().information, 0);
}
