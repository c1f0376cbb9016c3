//! Values: status codes, handles, colours and other small things, part by part.

use vstd::prelude::*;
use vstd::string::*;
use crate::drivers;
use crate::drivers::bus::pci;
use crate::drivers::bus::pci::{PciDeviceInfo, PciScan};
use crate::drivers::{Device, DeviceManager, Driver, DriverOps};
use crate::ipc;
use crate::ipc::{Endpoint, Message};
use crate::memory::paging;
use crate::memory::paging::PageEntry;
use crate::memory::phys::FrameAllocator;
use crate::search;
use crate::shared;
use crate::task;
use crate::task::Priority;
use crate::vfs;
use crate::vfs::ramfs;
use crate::vfs::{Dentry, Inode, Tables, Vfs};
use crate::vga::{Page, Writer};
use crate::win32::subsys;
use crate::win32::subsys::{Win32Op, HDC, HWND, RECT, TEB};
use crate::win32::types;
use crate::win32::types::{FILETIME, HANDLE, LIST_ENTRY, NTSTATUS, UNICODE_STRING};
use super::console;
use super::files::{first_entry, lemma_child, smaller};
use super::memory::only_frame;
use super::spaces::{address_in, lemma_entry_bits};
use super::threads::{height, holds_name};

verus! {

/// A status is a success, an information, a warning or an error by its upper two bits, and
/// nothing else; the facility and the code are in the bits below.
pub proof fn law_status_is_read_by_its_bits(
    s: NTSTATUS,
    ok: bool,
    info: bool,
    warning: bool,
    error: bool,
    ok2: bool,
    facility: u16,
    code: u16,
    raw: u32,
)
    requires
        call_ensures(NTSTATUS::is_success, (s,), ok),
        call_ensures(NTSTATUS::is_info, (s,), info),
        call_ensures(NTSTATUS::is_warning, (s,), warning),
        call_ensures(NTSTATUS::is_error, (s,), error),
        call_ensures(types::nt_success, (s,), ok2),
        call_ensures(NTSTATUS::facility, (s,), facility),
        call_ensures(NTSTATUS::code, (s,), code),
        call_ensures(NTSTATUS::raw, (s,), raw),
    ensures
        ok <==> s.0 < 0x4000_0000,
        info <==> 0x4000_0000 <= s.0 < 0x8000_0000,
        warning <==> 0x8000_0000 <= s.0 < 0xC000_0000,
        error <==> s.0 >= 0xC000_0000,
        ok2 <==> ok,
        facility == s.0 / 0x1_0000 % 0x2000,
        code == s.0 % 0x1_0000,
        raw == s.0,
{
}

/// A handle may name an object unless it is 0 or the failure value.
pub proof fn law_handle_may_name_an_object(
    h: HANDLE,
    null: bool,
    invalid: bool,
    valid: bool,
    n: usize,
)
    requires
        call_ensures(HANDLE::is_null, (h,), null),
        call_ensures(HANDLE::is_invalid, (h,), invalid),
        call_ensures(HANDLE::is_valid, (h,), valid),
        call_ensures(HANDLE::as_usize, (h,), n),
    ensures
        null <==> h.0 == 0,
        invalid <==> h.0 == usize::MAX,
        valid <==> !null && !invalid,
        n == h.0,
{
}

/// Words are cut in halves and put together again.
pub proof fn law_words_are_put_together_from_halves(
    d: u32,
    lo: u16,
    hi: u16,
    back: u32,
    w: u16,
    lb: u8,
    hb: u8,
    wback: u16,
)
    requires
        call_ensures(types::loword, (d,), lo),
        call_ensures(types::hiword, (d,), hi),
        call_ensures(types::makelong, (lo, hi), back),
        call_ensures(types::lobyte, (w,), lb),
        call_ensures(types::hibyte, (w,), hb),
        call_ensures(types::makeword, (lb, hb), wback),
    ensures
        lo == d % 0x1_0000,
        hi == d / 0x1_0000,
        back == d,
        lb == w % 0x100,
        hb == w / 0x100,
        wback == w,
{
}

/// A counted string has half as many characters as bytes, a time is put together from its
/// halves, and the head of a list is a ring of its own.
pub proof fn law_strings_times_and_rings(
    s: &UNICODE_STRING,
    n: usize,
    empty: bool,
    t: &FILETIME,
    time: u64,
    head: &mut LIST_ENTRY,
    addr: u64,
    ring: &LIST_ENTRY,
    alone: bool,
)
    requires
        call_ensures(UNICODE_STRING::char_count, (s,), n),
        call_ensures(UNICODE_STRING::is_empty, (s,), empty),
        call_ensures(FILETIME::as_u64, (t,), time),
        call_ensures(LIST_ENTRY::init_head, (head, addr), ()),
        call_ensures(LIST_ENTRY::is_empty, (ring, addr), alone),
    ensures
        n == s.length / 2,
        empty <==> s.length == 0 || s.buffer == 0,
        time % 0x1_0000_0000 == t.low_date_time,
        time / 0x1_0000_0000 == t.high_date_time,
        final(head).flink == addr && final(head).blink == addr,
        alone <==> ring.flink == addr,
{
}

/// A colour of the window system has red in its lowest byte, and gives its parts back.
pub proof fn law_window_colours_give_back_their_parts(
    r: u8,
    g: u8,
    b: u8,
    c: u32,
    r2: u8,
    g2: u8,
    b2: u8,
)
    requires
        call_ensures(subsys::rgb, (r, g, b), c),
        call_ensures(subsys::get_r_value, (c,), r2),
        call_ensures(subsys::get_g_value, (c,), g2),
        call_ensures(subsys::get_b_value, (c,), b2),
    ensures
        c == r + 0x100 * g + 0x1_0000 * b,
        r2 == r,
        g2 == g,
        b2 == b,
{
    subsys::law_colour_gives_back_its_parts(r, g, b);
}

/// A rectangle is as wide and as high as its edges are apart, and empty exactly if the right
/// edge is not right of the left one or the bottom not below the top.
pub proof fn law_rectangle_has_its_size(r: &RECT, w: i32, h: i32, empty: bool, wnd: HWND, dc: HDC, n: bool, m: bool)
    requires
        call_ensures(RECT::width, (r,), w),
        call_ensures(RECT::height, (r,), h),
        call_ensures(RECT::is_empty, (r,), empty),
        call_ensures(HWND::is_null, (wnd,), n),
        call_ensures(HDC::is_null, (dc,), m),
    ensures
        w == r.right - r.left,
        h == r.bottom - r.top,
        empty <==> r.right <= r.left || r.bottom <= r.top,
        n <==> wnd.0 == 0,
        m <==> dc.0 == 0,
{
    if r.left < r.right && r.top < r.bottom {
        assert(r.holds(r.left as int, r.top as int));
    }
}

/// The last error of a thread is the one that was set, and nothing else changes.
pub proof fn law_last_error_is_kept(t: &mut TEB, error: u32, now: &TEB, r: u32)
    requires
        call_ensures(TEB::set_last_error, (t, error), ()),
        *now == *final(t),
        call_ensures(TEB::get_last_error, (now,), r),
    ensures
        r == error,
        *final(t) == (TEB { last_error: error, ..*old(t) }),
{
}

/// No two operations of the window system have the same number.
pub proof fn law_operations_have_numbers_of_their_own(a: Win32Op, b: Win32Op, m: u32, n: u32)
    requires
        call_ensures(Win32Op::number, (a,), m),
        call_ensures(Win32Op::number, (b,), n),
    ensures
        m == n <==> a == b,
        a == Win32Op::RegisterClass ==> m == 1,
        a == Win32Op::CreateWindow ==> m == 2,
        a == Win32Op::GetMessage ==> m == 0x10,
        a == Win32Op::GetDC ==> m == 0x20,
{
}

/// An entry of a page table is put together from an address, of which the bits 12 to 51
/// are kept, and flags, and gives back both.
pub proof fn law_page_entry_is_put_together(
    addr: u64,
    flags: u64,
    e: PageEntry,
    there: bool,
    a: u64,
    f: u64,
    none: PageEntry,
)
    requires
        flags & 0x000F_FFFF_FFFF_F000 == 0,
        call_ensures(PageEntry::new, (addr, flags), e),
        call_ensures(PageEntry::is_present, (&e,), there),
        call_ensures(PageEntry::address, (&e,), a),
        call_ensures(PageEntry::flags, (&e,), f),
        call_ensures(PageEntry::empty, (), none),
    ensures
        a == address_in(addr as int),
        there <==> flags % 2 == 1,
        f == flags & 0x8000_0000_0000_0FFF,
        none.0 == 0,
{
    paging::law_entry_gives_back_address_and_flags(addr, flags);
    lemma_entry_bits(addr);
    lemma_entry_bits(flags);
}

/// Nine bits of a virtual address pick the entry in each table.
pub proof fn law_virtual_address_is_cut_in_four(virt: u64, a: usize, b: usize, c: usize, d: usize)
    requires
        call_ensures(paging::pml4_index, (virt,), a),
        call_ensures(paging::pdpt_index, (virt,), b),
        call_ensures(paging::pd_index, (virt,), c),
        call_ensures(paging::pt_index, (virt,), d),
    ensures
        a < 512 && b < 512 && c < 512 && d < 512,
        virt % 0x1_0000_0000_0000 == a * 0x80_0000_0000 + b * 0x4000_0000 + c * 0x20_0000 + d
            * 0x1000 + virt % 0x1000,
{
    lemma_cut(virt);
}

proof fn lemma_cut(v: u64)
    by (bit_vector)
    ensures
        v % 0x1_0000_0000_0000 == (v / 0x80_0000_0000 % 512) * 0x80_0000_0000 + (v / 0x4000_0000
            % 512) * 0x4000_0000 + (v / 0x20_0000 % 512) * 0x20_0000 + (v / 0x1000 % 512) * 0x1000
            + v % 0x1000,
{
}

/// A key on the shared keyboard shows its character, small or large, as
/// `console::key_char` says; a key that is released shows nothing.
pub proof fn law_shared_keyboard_shows_the_character(
    state: &spin::Mutex<crate::keyboard::KeyboardState>,
    input: &spin::Mutex<crate::keyboard::InputBuffer>,
    scancode: u8,
    r: crate::keyboard::Echo,
)
    requires
        call_ensures(shared::handle_scancode, (state, input, scancode), r),
    ensures
        scancode >= 128 ==> r == crate::keyboard::Echo::Nothing,
        scancode < 128 ==> console::shows(console::key_char(scancode as int, false), r)
            || console::shows(console::key_char(scancode as int, true), r),
{
    if scancode < 128 {
        console::lemma_key_char(scancode, false);
        console::lemma_key_char(scancode, true);
    }
}

/// A text on the shared screen is written byte by byte, from some place on. See
/// `console::text_goes`.
pub proof fn law_shared_screen_shows_the_text(
    writer: &spin::Mutex<Writer>,
    screen: &mut [u16],
    s: &str,
)
    requires
        call_ensures(shared::write_string, (writer, screen, s), ()),
    ensures
        exists|p: Page, q: Page, steps: Seq<Page>|
            p.cells == old(screen)@ && q.cells == final(screen)@ && #[trigger] console::text_goes(
                p,
                q,
                s.spec_bytes(),
                steps,
            ),
{
    let t = s.spec_bytes();
    let p = choose|p: Page|
        p.wf() && p.cells == old(screen)@ && final(screen)@ == (#[trigger] p.text_written(
            t,
            t.len() as int,
        )).cells;
    console::lemma_text_goes(p, t);
}

/// A shared screen that is cleared is blank everywhere, in one colour.
pub proof fn law_shared_screen_is_cleared(writer: &spin::Mutex<Writer>, screen: &mut [u16])
    requires
        call_ensures(shared::clear_screen, (writer, screen), ()),
    ensures
        final(screen)@.len() == 2000,
        exists|c: u8| #[trigger] console::all_spaces(final(screen)@, c),
{
    let c = choose|c: u8| #[trigger] crate::vga::all_blank(final(screen)@, c);
    assert(console::all_spaces(final(screen)@, c));
}

/// A message is put behind those that wait, if fewer than 16 do; the oldest one is taken
/// first.
pub proof fn law_queue_is_first_in_first_out(
    a: &mut Endpoint,
    b: &mut Endpoint,
    msg: Message,
    put: bool,
    got: Option<Message>,
)
    requires
        call_ensures(Endpoint::enqueue, (a, msg), put),
        call_ensures(Endpoint::dequeue, (b,), got),
    ensures
        put <==> old(a)@.waiting.len() < 16,
        put ==> final(a)@.waiting == old(a)@.waiting.push(msg),
        !put ==> final(a)@.waiting == old(a)@.waiting,
        final(a)@.active == old(a)@.active,
        got is Some <==> old(b)@.waiting.len() > 0,
        got matches Some(m) ==> old(b)@.waiting == seq![m] + final(b)@.waiting,
        got is None ==> final(b)@.waiting == old(b)@.waiting,
        final(b)@.active == old(b)@.active,
{
    let w = old(b)@.waiting;
    if w.len() > 0 {
        assert(w =~= seq![w[0]] + w.subrange(1, w.len() as int));
    }
}

/// A device is found by its place, if it is in use.
pub proof fn law_device_is_found_by_its_place<O: DriverOps>(
    m: &DeviceManager<O>,
    i: usize,
    d: Option<&Device>,
)
    requires
        call_ensures(drivers::get_device::<O>, (m, i), d),
    ensures
        d is Some <==> i < 64 && m.devices@[i as int].active,
        d matches Some(x) ==> *x == m.devices@[i as int],
{
}

/// A function that a scan found is given by its place, and how many there are is told. A
/// new scan starts at the first one.
pub proof fn law_found_functions_are_given(
    s: &PciScan,
    i: usize,
    d: Option<&PciDeviceInfo>,
    n: usize,
    again: &mut PciScan,
    info: &PciDeviceInfo,
    mmio: bool,
)
    requires
        call_ensures(pci::get_pci_device, (s, i), d),
        call_ensures(pci::pci_device_count, (s,), n),
        old(again).wf(),
        call_ensures(PciScan::restart, (again,), ()),
        call_ensures(PciDeviceInfo::has_mmio, (info,), mmio),
    ensures
        n == s.device_count,
        d is Some <==> i < n,
        d matches Some(x) ==> *x == s.devices@[i as int],
        final(again).found == 0 && final(again).slot == 0 && final(again).function == 0,
        mmio <==> info.bar@[0] != 0 && info.bar@[0] % 2 == 0,
{
}

/// The lowest place that is not in use is found, for a superblock and for an entry.
pub proof fn law_lowest_free_place_is_found(v: &Vfs, s: Option<usize>, e: Option<usize>)
    requires
        v.wf(),
        call_ensures(vfs::alloc_superblock, (v,), s),
        call_ensures(vfs::alloc_dentry, (v,), e),
    ensures
        s matches Some(i) ==> i < v@.superblocks.len() && !v@.superblocks[i as int].active
            && forall|j: int| 0 <= j < i ==> (#[trigger] v@.superblocks[j]).active,
        s is None ==> forall|j: int|
            0 <= j < v@.superblocks.len() ==> (#[trigger] v@.superblocks[j]).active,
        e matches Some(i) ==> i < 256 && !v@.dentries[i as int].active && forall|j: int|
            0 <= j < i ==> (#[trigger] v@.dentries[j]).active,
        e is None ==> forall|j: int| 0 <= j < 256 ==> (#[trigger] v@.dentries[j]).active,
{
    let t = v@;
    let p = |i: int| !t.superblocks[i].active;
    let q = |i: int| !t.dentries[i].active;
    assert((|i: int| !v@.superblocks[i].active) =~= p);
    search::lemma_first(t.superblocks.len(), p);
    search::lemma_first(256, q);
    match s {
        Some(i) => {
            assert(p(i as int));
            assert forall|j: int| 0 <= j < i implies (#[trigger] t.superblocks[j]).active by {
                assert(!p(j));
            }
        },
        None => {
            assert forall|j: int|
                0 <= j < t.superblocks.len() implies (#[trigger] t.superblocks[j]).active by {
                assert(!p(j));
            }
        },
    }
    match e {
        Some(i) => {
            assert(q(i as int));
            assert forall|j: int| 0 <= j < i implies (#[trigger] t.dentries[j]).active by {
                assert(!q(j));
            }
        },
        None => {
            assert forall|j: int| 0 <= j < 256 implies (#[trigger] t.dentries[j]).active by {
                assert(!q(j));
            }
        },
    }
}

/// Inodes and entries are given by their places, if they are in use.
pub proof fn law_entries_are_given_by_their_places(
    v: &Vfs,
    i: usize,
    n: Option<&Inode>,
    d: Option<&Dentry>,
)
    requires
        call_ensures(vfs::get_inode, (v, i), n),
        call_ensures(vfs::get_dentry, (v, i), d),
    ensures
        n is Some <==> i < 256 && v@.inodes[i as int].active,
        n matches Some(x) ==> *x == v@.inodes[i as int],
        d is Some <==> i < 256 && v@.dentries[i as int].active,
        d matches Some(x) ==> *x == v@.dentries[i as int],
{
}

/// An inode that is given back is no longer in use, and the frame of its data is free; no
/// other inode and no other frame changes.
pub proof fn law_inode_is_given_back_with_its_page(
    v: &mut Vfs,
    frames: &mut FrameAllocator,
    sb: usize,
    i: usize,
)
    requires
        old(v).wf(),
        old(frames).wf(),
        i < 256 ==> old(v)@.inodes[i as int].data_page < 0x2000_0000,
        call_ensures(ramfs::ramfs_free_inode, (v, frames, sb, i), ()),
    ensures
        ({
            let t = old(v)@;
            let n = t.inodes[i as int];
            let used = i < 256 && n.active;
            &&& !used ==> final(v)@ == t && final(frames)@ == old(frames)@
            &&& used ==> {
                &&& !final(v)@.inodes[i as int].active
                &&& final(v)@.inodes[i as int].data_page == 0
                &&& forall|j: int|
                    0 <= j < 256 && j != i ==> #[trigger] final(v)@.inodes[j] == t.inodes[j]
                &&& final(v)@ == (Tables { inodes: final(v)@.inodes, ..t })
                &&& n.data_page == 0 ==> final(frames)@ == old(frames)@
                &&& n.data_page != 0 ==> only_frame(
                    old(frames)@,
                    final(frames)@,
                    n.data_page as int / 4096,
                    false,
                )
            }
        }),
{
}

/// An entry is looked up by its name in a directory, given by its inode: it is the first
/// one with the name under an entry of that inode.
pub proof fn law_entry_is_looked_up_in_its_directory(
    v: &Vfs,
    dir: usize,
    name: &[u8],
    r: Option<usize>,
)
    requires
        v.wf(),
        call_ensures(ramfs::ramfs_lookup, (v, dir, name), r),
    ensures
        (exists|d: int|
            0 <= d < 256 && (#[trigger] v@.dentries[d]).active && v@.dentries[d].inode_idx == dir)
            ==> exists|d: int|
            0 <= d < 256 && (#[trigger] v@.dentries[d]).active && v@.dentries[d].inode_idx == dir
                && first_entry(v@, d, name@, r),
        r is Some ==> exists|d: int|
            0 <= d < 256 && (#[trigger] v@.dentries[d]).active && v@.dentries[d].inode_idx == dir,
{
    let t = v@;
    let c = |k: int| t.dentries[k].active && t.dentries[k].inode_idx == dir;
    search::lemma_first(256, c);
    match t.dentry_of(dir) {
        Some(d) => {
            assert(c(d as int));
            assert(t.dentries[d as int].active);
            lemma_child(t, d as int, name@);
        },
        None => {
            assert forall|d: int| 0 <= d < 256 && (#[trigger] t.dentries[d]).active implies
                t.dentries[d].inode_idx != dir by {
                assert(!c(d));
            }
        },
    }
}

/// The names of devices, drivers and entries are kept as far as there is room for them and
/// a closing zero, their lengths are told, and nothing else changes.
pub proof fn law_names_of_devices_and_entries_are_kept<O: DriverOps>(
    d: &mut Device,
    r: &mut Driver<O>,
    e: &mut Dentry,
    s: &str,
    n: &[u8],
)
    requires
        call_ensures(Device::set_name, (d, s), ()),
        call_ensures(Driver::<O>::set_name, (r, s), ()),
        call_ensures(Dentry::set_name, (e, n), ()),
    ensures
        holds_name(final(d).name@, s.spec_bytes()),
        final(d).name_len == smaller(s.spec_bytes().len() as int, 31),
        *final(d) == (Device { name: final(d).name, name_len: final(d).name_len, ..*old(d) }),
        holds_name(final(r).name@, s.spec_bytes()),
        final(r).name_len == smaller(s.spec_bytes().len() as int, 31),
        *final(r) == (Driver { name: final(r).name, name_len: final(r).name_len, ..*old(r) }),
        holds_name(final(e).name@, n@),
        final(e).name_len == smaller(n@.len() as int, 63),
        *final(e) == (Dentry { name: final(e).name, name_len: final(e).name_len, ..*old(e) }),
{
    assert(final(d).name@ == task::named(old(d).name@, s.spec_bytes()));
    assert(final(r).name@ == task::named(old(r).name@, s.spec_bytes()));
    assert(final(e).name@ == task::named(old(e).name@, n@));
    assert(old(d).name@.len() == 32 && old(r).name@.len() == 32 && old(e).name@.len() == 64);
}

/// An entry has a name exactly if all bytes agree.
pub proof fn law_entry_has_its_name(e: &Dentry, n: &[u8], r: bool)
    requires
        e.name_len <= 64,
        call_ensures(Dentry::name_eq, (e, n), r),
    ensures
        r <==> e.name_len == n@.len() && forall|i: int|
            0 <= i < n@.len() ==> #[trigger] e.name@[i] == n@[i],
{
    if e.name_len == n@.len() && forall|i: int|
        0 <= i < n@.len() ==> #[trigger] e.name@[i] == n@[i] {
        assert(e.label() =~= n@);
    }
    if r {
        assert forall|i: int| 0 <= i < n@.len() implies #[trigger] e.name@[i] == n@[i] by {
            assert(e.label()[i] == n@[i]);
        }
    }
}

/// How many of the first `n` devices are in use.
pub open spec fn devices_in_use(ds: Seq<Device>, n: nat) -> nat
    decreases n,
{
    if n == 0 {
        0
    } else {
        devices_in_use(ds, (n - 1) as nat) + if ds[n - 1].active {
            1nat
        } else {
            0
        }
    }
}

/// How many of the first `n` drivers are in use.
pub open spec fn drivers_in_use<O: DriverOps>(ds: Seq<Driver<O>>, n: nat) -> nat
    decreases n,
{
    if n == 0 {
        0
    } else {
        drivers_in_use(ds, (n - 1) as nat) + if ds[n - 1].active {
            1nat
        } else {
            0
        }
    }
}

proof fn lemma_in_use<O: DriverOps>(m: &DeviceManager<O>, n: nat)
    ensures
        search::count(n, |i: int| m.devices@[i].active) == devices_in_use(m.devices@, n),
        search::count(n, |i: int| m.drivers@[i].active) == drivers_in_use(m.drivers@, n),
    decreases n,
{
    if n > 0 {
        lemma_in_use(m, (n - 1) as nat);
    }
}

/// Devices and drivers are counted.
pub proof fn law_devices_and_drivers_are_counted<O: DriverOps>(
    m: &DeviceManager<O>,
    d: usize,
    r: usize,
)
    requires
        call_ensures(drivers::device_count::<O>, (m,), d),
        call_ensures(drivers::driver_count::<O>, (m,), r),
    ensures
        d == devices_in_use(m.devices@, 64),
        r == drivers_in_use(m.drivers@, 32),
{
    lemma_in_use(m, 64);
    lemma_in_use(m, 32);
}

/// Kinds have numbers of their own, and priorities are ranked.
pub proof fn law_kinds_have_numbers(
    m: ipc::MessageType,
    i: vfs::InodeType,
    o: vfs::OpenMode,
    p: Priority,
    a: u32,
    b: u32,
    c: u32,
    l: u8,
)
    requires
        call_ensures(ipc::MessageType::number, (m,), a),
        call_ensures(vfs::InodeType::number, (i,), b),
        call_ensures(vfs::OpenMode::bits, (o,), c),
        call_ensures(Priority::level, (p,), l),
    ensures
        a == 1 <==> m == ipc::MessageType::Request,
        a == 2 <==> m == ipc::MessageType::Response,
        a == 3 <==> m == ipc::MessageType::Notification,
        a == 4 <==> m == ipc::MessageType::Error,
        b == 1 <==> i == vfs::InodeType::File,
        b == 2 <==> i == vfs::InodeType::Directory,
        b == 3 <==> i == vfs::InodeType::Symlink,
        b == 4 <==> i == vfs::InodeType::Device,
        b == 5 <==> i == vfs::InodeType::Pipe,
        c == 0 <==> o == vfs::OpenMode::ReadOnly,
        c == 1 <==> o == vfs::OpenMode::WriteOnly,
        c == 2 <==> o == vfs::OpenMode::ReadWrite,
        c == 4 <==> o == vfs::OpenMode::Append,
        c == 8 <==> o == vfs::OpenMode::Create,
        c == 16 <==> o == vfs::OpenMode::Truncate,
        l == height(p),
{
}

} // verus!
