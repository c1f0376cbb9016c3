//! Devices: what stands in the configuration space of the PCI bus, which devices are
//! found there, and which driver a device gets.

use vstd::prelude::*;
use crate::drivers;
use crate::drivers::bus::pci;
use crate::drivers::bus::pci::{Function, PciDeviceInfo, PciScan};
use crate::drivers::{BusType, Device, DeviceClass, DeviceManager, Driver, DriverOps};
use crate::search;

verus! {

/// A base address register of ports gives the register without its low two bits, one
/// of memory without its low four. Only where bits 1 and 2 of one of memory say that it
/// is a 64-bit one is the next register the upper half; otherwise the others do not
/// matter, and the address is below 4 GiB. There are six registers.
pub proof fn law_bar_holds_its_own_address(info: &PciDeviceInfo, i: usize, r: u64)
    requires
        call_ensures(PciDeviceInfo::bar_address, (info, i), r),
    ensures
        i >= 6 ==> r == 0,
        i < 6 && info.bar@[i as int] % 2 == 1 ==> r == info.bar@[i as int] / 4 * 4,
        i < 6 && info.bar@[i as int] % 2 == 0 && info.bar@[i as int] / 2 % 4 != 2 ==> r
            == info.bar@[i as int] / 16 * 16,
        i < 6 && info.bar@[i as int] / 2 % 4 != 2 ==> r < 0x1_0000_0000,
        i < 5 && info.bar@[i as int] % 2 == 0 && info.bar@[i as int] / 2 % 4 == 2 ==> r
            % 0x1_0000_0000 == info.bar@[i as int] / 16 * 16 && r / 0x1_0000_0000 == info.bar@[i
            + 1],
        i == 5 ==> r < 0x1_0000_0000,
{
}

/// Registers that a base address register does not reach do not matter to it: two
/// functions that agree on a register, and on the next one where it is a 64-bit one,
/// agree on its address.
pub proof fn law_bar_does_not_depend_on_others(
    a: &PciDeviceInfo,
    b: &PciDeviceInfo,
    i: usize,
    ra: u64,
    rb: u64,
)
    requires
        i < 6,
        a.bar@[i as int] == b.bar@[i as int],
        a.bar@[i as int] % 8 == 4 && i < 5 ==> a.bar@[i + 1] == b.bar@[i + 1],
        call_ensures(PciDeviceInfo::bar_address, (a, i), ra),
        call_ensures(PciDeviceInfo::bar_address, (b, i), rb),
    ensures
        ra == rb,
{
}

/// A region of memory of some size, a multiple of 16, answers to all ones with the
/// two's complement of its size and the kind of the register in the low four bits; one
/// of ports, a multiple of 4, with the low two bits. The size is read from that,
/// whatever the low bits are. A register that answers with nothing, or with all ones,
/// has no region.
pub proof fn law_region_size_is_found(
    i: usize,
    original: u32,
    answer: u32,
    size: int,
    low: int,
    r: u64,
)
    requires
        call_ensures(PciDeviceInfo::bar_size, (i, original, answer), r),
    ensures
        i < 6 && original % 2 == 0 && size % 16 == 0 && 16 <= size <= 0x8000_0000 && 0 <= low < 16
            && answer == 0x1_0000_0000 - size + low && answer != 0xFFFF_FFFF ==> r == size,
        i < 6 && original % 2 == 1 && size % 4 == 0 && 4 <= size <= 0x8000_0000 && 0 <= low < 4
            && answer == 0x1_0000_0000 - size + low && answer != 0xFFFF_FFFF ==> r == size,
        answer == 0 || answer == 0xFFFF_FFFF || i >= 6 ==> r == 0,
{
}

/// What a function on the bus is for, by its class.
pub open spec fn class_for(code: u8) -> DeviceClass {
    match code {
        1u8 => DeviceClass::Storage,
        2u8 => DeviceClass::Network,
        3u8 => DeviceClass::Display,
        4u8 => DeviceClass::Audio,
        12u8 => DeviceClass::Usb,
        _ => DeviceClass::Unknown,
    }
}

/// A function is for what its class says.
pub proof fn law_class_says_what_it_is_for(info: &PciDeviceInfo, r: DeviceClass)
    requires
        call_ensures(PciDeviceInfo::to_device_class, (info,), r),
    ensures
        r == class_for(info.class_code),
{
}

/// The start of a configuration space describes a function: vendor and device in word
/// 0, revision, interface, subclass and class in word 2, the header type in bits 16 to
/// 23 of word 3, base address registers in words 4 to 9 of an ordinary device, the
/// interrupt in the low byte of word 15.
pub open spec fn describes(words: Seq<u32>, bus: u8, dev: u8, func: u8, f: Function) -> bool {
    &&& f.bus == bus
    &&& f.device == dev
    &&& f.function == func
    &&& f.vendor_id == words[0] % 0x1_0000
    &&& f.device_id == words[0] / 0x1_0000
    &&& f.revision == words[2] % 0x100
    &&& f.prog_if == words[2] / 0x100 % 0x100
    &&& f.subclass == words[2] / 0x1_0000 % 0x100
    &&& f.class_code == words[2] / 0x100_0000
    &&& f.header_type == words[3] / 0x1_0000 % 0x100
    &&& f.irq_line == words[15] % 0x100
    &&& f.bar.len() == 6
    &&& forall|i: int|
        0 <= i < 6 ==> #[trigger] f.bar[i] == (if words[3] / 0x1_0000 % 0x80 == 0 {
            words[4 + i]
        } else {
            0
        })
}

proof fn lemma_describes(words: Seq<u32>, bus: u8, dev: u8, func: u8)
    ensures
        match pci::function_at(words, bus, dev, func) {
            Some(f) => words[0] % 0x1_0000 != 0xFFFF && describes(words, bus, dev, func, f),
            None => words[0] % 0x1_0000 == 0xFFFF,
        },
{
}

/// A function is read from its configuration space as it stands there; there is none
/// exactly if the vendor is all ones. See `describes`.
pub proof fn law_function_is_read_as_it_stands(
    bus: u8,
    dev: u8,
    func: u8,
    words: &[u32; 16],
    r: Option<PciDeviceInfo>,
)
    requires
        call_ensures(PciDeviceInfo::read, (bus, dev, func, words), r),
    ensures
        r is None <==> words@[0] % 0x1_0000 == 0xFFFF,
        r matches Some(info) ==> describes(words@, bus, dev, func, info@),
{
    lemma_describes(words@, bus, dev, func);
}

/// The address of a register: the highest bit, bus, device, function and the place of
/// the word it is in. Two registers have the same address only if all of these agree.
pub proof fn law_register_address_has_its_parts(bus: u8, dev: u8, func: u8, offset: u8, r: u32)
    requires
        call_ensures(pci::pci_address, (bus, dev, func, offset), r),
    ensures
        r / 0x8000_0000 == 1,
        r / 0x1_0000 % 0x100 == bus,
        r / 0x800 % 32 == dev % 32,
        r / 0x100 % 8 == func % 8,
        r % 0x100 == offset / 4 * 4,
        r / 0x100_0000 % 0x80 == 0,
{
    lemma_address(bus as u32, (dev % 32) as u32, (func % 8) as u32, (offset / 4) as u32, r);
}

proof fn lemma_address(b: u32, d: u32, f: u32, o: u32, r: u32)
    by (bit_vector)
    requires
        b < 256,
        d < 32,
        f < 8,
        o < 64,
        r == 0x8000_0000u32 + b * 0x1_0000 + d * 0x800 + f * 0x100 + o * 4,
    ensures
        r / 0x8000_0000 == 1,
        r / 0x1_0000 % 0x100 == b,
        r / 0x800 % 32 == d,
        r / 0x100 % 8 == f,
        r % 0x100 == o * 4,
        r / 0x100_0000 % 0x80 == 0,
{
}

/// The two halves of a word, and its four bytes, put together are the word.
pub proof fn law_parts_of_a_word_make_the_word(
    v: u32,
    at: u8,
    h0: u16,
    h2: u16,
    b0: u8,
    b1: u8,
    b2: u8,
    b3: u8,
)
    requires
        at % 4 == 0,
        at <= 252,
        call_ensures(pci::config_half, (v, at), h0),
        call_ensures(pci::config_half, (v, (at + 2) as u8), h2),
        call_ensures(pci::config_byte, (v, at), b0),
        call_ensures(pci::config_byte, (v, (at + 1) as u8), b1),
        call_ensures(pci::config_byte, (v, (at + 2) as u8), b2),
        call_ensures(pci::config_byte, (v, (at + 3) as u8), b3),
    ensures
        h0 + 0x1_0000 * h2 == v,
        b0 + 0x100 * b1 + 0x1_0000 * b2 + 0x100_0000 * b3 == v,
{
    lemma_parts(v);
}

proof fn lemma_parts(v: u32)
    by (bit_vector)
    ensures
        v % 0x1_0000 + 0x1_0000 * (v / 0x1_0000) == v,
        v % 0x100 + 0x100 * (v / 0x100 % 0x100) + 0x1_0000 * (v / 0x1_0000 % 0x100) + 0x100_0000 * (
        v / 0x100_0000) == v,
{
}

/// The command that lets a device reach the memory has the low three bits set and keeps
/// every other bit, and the upper half of the word.
pub proof fn law_bus_master_keeps_the_other_bits(cmd: u16, full: u32, r: u32)
    requires
        call_ensures(pci::bus_master_command, (cmd, full), r),
    ensures
        r % 8 == 7,
        r % 0x1_0000 / 8 == cmd / 8,
        r / 0x1_0000 == full / 0x1_0000,
{
}

/// A hexadecimal digit, with small letters.
pub open spec fn hex_digit(n: int) -> int {
    if n < 10 {
        0x30 + n
    } else {
        0x61 + n - 10
    }
}

/// Four hexadecimal digits of a number stand at a place.
pub open spec fn hex_at(name: Seq<u8>, at: int, v: u16) -> bool {
    &&& name[at] == hex_digit(v as int / 0x1000)
    &&& name[at + 1] == hex_digit(v as int / 0x100 % 16)
    &&& name[at + 2] == hex_digit(v as int / 0x10 % 16)
    &&& name[at + 3] == hex_digit(v as int % 16)
}

/// The device for a function: its numbers, its class, its interrupt, the region behind
/// its first base address register if that is one of memory, and the name "pci:", the
/// vendor, a colon and the device number.
pub open spec fn stands_for(d: Device, f: Function, original: u32, answer: u32) -> bool {
    &&& d.bus == BusType::Pci
    &&& d.vendor_id == f.vendor_id
    &&& d.device_id == f.device_id
    &&& d.class == class_for(f.class_code)
    &&& d.irq == f.irq_line
    &&& d.driver_index == -1
    &&& d.name_len == 13
    &&& d.name@[0] == 0x70 && d.name@[1] == 0x63 && d.name@[2] == 0x69 && d.name@[3] == 0x3A
    &&& hex_at(d.name@, 4, f.vendor_id)
    &&& d.name@[8] == 0x3A
    &&& hex_at(d.name@, 9, f.device_id)
    &&& forall|i: int| 13 <= i < 32 ==> #[trigger] d.name@[i] == 0
    &&& f.bar[0] == 0 || f.bar[0] % 2 == 1 ==> d.mmio_base == 0 && d.mmio_size == 0
    &&& f.bar[0] != 0 && f.bar[0] % 2 == 0 ==> {
        &&& d.mmio_base % 0x1_0000_0000 == f.bar[0] / 16 * 16
        &&& d.mmio_base / 0x1_0000_0000 == (if f.bar[0] / 2 % 4 == 2 {
            f.bar[1] as int
        } else {
            0
        })
        &&& answer == 0 || answer == 0xFFFF_FFFF ==> d.mmio_size == 0
        &&& original % 2 == 0 && answer != 0xFFFF_FFFF && answer >= 0x8000_0000 ==> d.mmio_size
            == 0x1_0000_0000 - answer / 16 * 16
    }
}

proof fn lemma_stands_for(d: Device, f: Function, original: u32, answer: u32)
    requires
        f.bar.len() == 6,
        pci::is_device_for(d, f, original, answer),
    ensures
        stands_for(d, f, original, answer),
{
    let name = pci::pci_name(f.vendor_id, f.device_id);
    assert(name.len() == 13);
    assert forall|i: int| 0 <= i < 13 implies #[trigger] d.name@[i] == name[i] by {}
    assert forall|i: int| 13 <= i < 32 implies #[trigger] d.name@[i] == 0 by {}
    assert forall|n: int| 0 <= n < 16 implies #[trigger] pci::HEX@[n] == hex_digit(n) by {}
    let v = pci::hex_of(f.vendor_id);
    let w = pci::hex_of(f.device_id);
    assert(name[4] == v[0] && name[5] == v[1] && name[6] == v[2] && name[7] == v[3]);
    assert(name[9] == w[0] && name[10] == w[1] && name[11] == w[2] && name[12] == w[3]);
}

/// A driver is for a device: it is on the same bus, and vendor and device number agree,
/// unless the driver is for any.
pub open spec fn is_for<O: DriverOps>(drv: Driver<O>, dev: Device) -> bool {
    &&& drv.bus == dev.bus
    &&& drv.match_vendor == 0xFFFF || drv.match_vendor == dev.vendor_id
    &&& drv.match_device == 0xFFFF || drv.match_device == dev.device_id
}

/// Whether a driver is for a device is told by bus, vendor and device number.
pub proof fn law_driver_matches_by_bus_and_numbers<O: DriverOps>(
    drv: &Driver<O>,
    dev: &Device,
    r: bool,
)
    requires
        call_ensures(Driver::<O>::matches, (drv, dev), r),
    ensures
        r == is_for(*drv, *dev),
{
}

/// The driver turns the device down and leaves it as it is.
pub open spec fn declines<O: DriverOps>(ops: O, dev: Device) -> bool {
    forall|after: Device, rc: i32| #[trigger]
        ops.probed(dev, after, rc) ==> rc != 0 && after == dev
}

/// The driver takes the device and leaves its fields as they are.
pub open spec fn accepts<O: DriverOps>(ops: O, dev: Device) -> bool {
    forall|after: Device, rc: i32| #[trigger] ops.probed(dev, after, rc) ==> rc == 0 && after == dev
}

/// What becomes of a device that is offered to the drivers: where none of those in use
/// is for it, or all of them turn it down, it stays without one; where one takes it and
/// those in front of it are not for it or turn it down, it gets that one.
pub open spec fn finds_its_driver<O: DriverOps>(
    ds: Seq<Driver<O>>,
    before: Device,
    after: Device,
) -> bool {
    &&& (forall|i: int|
        0 <= i < ds.len() && (#[trigger] ds[i]).active && is_for(ds[i], before) ==> declines(
            ds[i].ops,
            before,
        )) ==> after == before
    &&& forall|j: int|
        0 <= j < ds.len() && (#[trigger] ds[j]).active && is_for(ds[j], before) && accepts(
            ds[j].ops,
            before,
        ) && (forall|i: int|
            0 <= i < j && (#[trigger] ds[i]).active && is_for(ds[i], before) ==> declines(
                ds[i].ops,
                before,
            )) ==> after == (Device { driver_index: j as i32, ..before })
}

proof fn lemma_bound<O: DriverOps>(
    ds: Seq<Driver<O>>,
    n: int,
    before: Device,
    after: Device,
    j: int,
)
    requires
        0 <= n <= j <= ds.len(),
        drivers::bound_from(ds, n, before, after),
        forall|i: int|
            n <= i < j && (#[trigger] ds[i]).active && is_for(ds[i], before) ==> declines(
                ds[i].ops,
                before,
            ),
        j < ds.len() ==> ds[j].active && is_for(ds[j], before) && accepts(ds[j].ops, before),
    ensures
        after == (if j < ds.len() {
            Device { driver_index: j as i32, ..before }
        } else {
            before
        }),
    decreases ds.len() - n,
{
    if n < ds.len() {
        if ds[n].active && ds[n].fits(before) {
            let (mid, rc) = choose|mid: Device, rc: i32| #[trigger]
                ds[n].ops.probed(before, mid, rc) && (if rc == 0 {
                    after == (Device { driver_index: n as i32, ..mid })
                } else {
                    drivers::bound_from(ds, n + 1, mid, after)
                });
            if n < j {
                assert(declines(ds[n].ops, before));
                lemma_bound(ds, n + 1, before, after, j);
            }
        } else {
            lemma_bound(ds, n + 1, before, after, j);
        }
    }
}

proof fn lemma_finds<O: DriverOps>(ds: Seq<Driver<O>>, before: Device, after: Device)
    requires
        drivers::bound_from(ds, 0, before, after),
    ensures
        finds_its_driver(ds, before, after),
{
    if forall|i: int|
        0 <= i < ds.len() && (#[trigger] ds[i]).active && is_for(ds[i], before) ==> declines(
            ds[i].ops,
            before,
        ) {
        lemma_bound(ds, 0, before, after, ds.len() as int);
    }
    assert forall|j: int|
        0 <= j < ds.len() && (#[trigger] ds[j]).active && is_for(ds[j], before) && accepts(
            ds[j].ops,
            before,
        ) && (forall|i: int|
            0 <= i < j && (#[trigger] ds[i]).active && is_for(ds[i], before) ==> declines(
                ds[i].ops,
                before,
            )) implies after == (Device { driver_index: j as i32, ..before }) by {
        lemma_bound(ds, 0, before, after, j);
    }
}

/// `i` is the first slot that holds no device in use, if there is one.
pub open spec fn first_free_device(ds: Seq<Device>, r: Option<usize>) -> bool {
    match r {
        Some(i) => {
            &&& i < 64
            &&& !ds[i as int].active
            &&& forall|j: int| 0 <= j < i ==> (#[trigger] ds[j]).active
        },
        None => forall|j: int| 0 <= j < 64 ==> (#[trigger] ds[j]).active,
    }
}

proof fn lemma_free_device<O: DriverOps>(m: DeviceManager<O>)
    ensures
        first_free_device(m.devices@, m.free_device()),
{
    let ds = m.devices@;
    let p = |i: int| !m.devices@[i].active;
    search::lemma_first(64, p);
    match m.free_device() {
        Some(i) => {
            assert(p(i as int));
            assert forall|j: int| 0 <= j < i implies (#[trigger] ds[j]).active by {
                assert(!p(j));
            }
        },
        None => {
            assert forall|j: int| 0 <= j < 64 implies (#[trigger] ds[j]).active by {
                assert(!p(j));
            }
        },
    }
}

/// A device that is registered gets the first free slot, the next number and its
/// driver; the other devices and the drivers stay. See `finds_its_driver`.
pub proof fn law_registered_device_finds_its_driver<O: DriverOps>(
    m: &mut DeviceManager<O>,
    dev: Device,
    r: Option<usize>,
)
    requires
        old(m).next_device_id < u32::MAX,
        call_ensures(drivers::register_device::<O>, (m, dev), r),
    ensures
        first_free_device(old(m).devices@, r),
        final(m).drivers@ == old(m).drivers@,
        final(m).next_device_id == old(m).next_device_id + 1,
        forall|j: int|
            0 <= j < 64 && r != Some(j as usize) ==> #[trigger] final(m).devices@[j] == old(m).devices@[j],
        r matches Some(i) ==> finds_its_driver(
            old(m).drivers@,
            Device { id: old(m).next_device_id, active: true, ..dev },
            final(m).devices@[i as int],
        ),
{
    lemma_free_device(*old(m));
    match r {
        Some(i) => lemma_finds(
            old(m).drivers@,
            Device { id: old(m).next_device_id, active: true, ..dev },
            final(m).devices@[i as int],
        ),
        None => {},
    }
}

/// A function of the bus that is registered stands as a device in the first free slot,
/// with the next number, and gets its driver. See `stands_for`.
pub proof fn law_registered_function_stands_as_a_device<O: DriverOps>(
    m: &mut DeviceManager<O>,
    info: &PciDeviceInfo,
    original: u32,
    answer: u32,
    r: Option<usize>,
)
    requires
        old(m).next_device_id < u32::MAX,
        call_ensures(pci::register_pci_device::<O>, (m, info, original, answer), r),
    ensures
        first_free_device(old(m).devices@, r),
        final(m).drivers@ == old(m).drivers@,
        forall|j: int|
            0 <= j < 64 && r != Some(j as usize) ==> #[trigger] final(m).devices@[j] == old(m).devices@[j],
        r matches Some(i) ==> exists|d: Device| #[trigger]
            stands_for(d, info@, original, answer) && finds_its_driver(
                old(m).drivers@,
                Device { id: old(m).next_device_id, active: true, ..d },
                final(m).devices@[i as int],
            ),
{
    lemma_free_device(*old(m));
    match r {
        Some(i) => {
            let d = choose|d: Device| #[trigger]
                pci::is_device_for(d, info@, original, answer) && drivers::bound_from(
                    old(m).drivers@,
                    0,
                    Device { id: old(m).next_device_id, active: true, ..d },
                    final(m).devices@[i as int],
                ) && final(m).devices@ == old(m).devices@.update(
                    i as int,
                    final(m).devices@[i as int],
                );
            assert(info@.bar.len() == 6);
            lemma_stands_for(d, info@, original, answer);
            lemma_finds(
                old(m).drivers@,
                Device { id: old(m).next_device_id, active: true, ..d },
                final(m).devices@[i as int],
            );
        },
        None => {},
    }
}

/// A driver that is registered gets the first free slot and is offered every device in
/// use that it is for and that has no driver; one that it takes is its own from then
/// on. The others are not touched.
pub proof fn law_registered_driver_is_offered_its_devices<O: DriverOps>(
    m: &mut DeviceManager<O>,
    drv: Driver<O>,
    r: Option<usize>,
)
    requires
        call_ensures(drivers::register_driver::<O>, (m, drv), r),
    ensures
        match r {
            Some(i) => {
                &&& i < 32
                &&& !old(m).drivers@[i as int].active
                &&& forall|j: int| 0 <= j < i ==> (#[trigger] old(m).drivers@[j]).active
                &&& final(m).drivers@ == old(m).drivers@.update(
                    i as int,
                    Driver { active: true, ..drv },
                )
                &&& forall|d: int|
                    0 <= d < 64 ==> {
                        let a = old(m).devices@[d];
                        let b = #[trigger] final(m).devices@[d];
                        if a.active && a.driver_index < 0 && is_for(drv, a) {
                            &&& declines(drv.ops, a) ==> b == a
                            &&& accepts(drv.ops, a) ==> b == (Device {
                                driver_index: i as i32,
                                ..a
                            })
                            &&& exists|x: Device, rc: i32| #[trigger]
                                drv.ops.probed(a, x, rc) && b == (if rc == 0 {
                                    Device { driver_index: i as i32, ..x }
                                } else {
                                    x
                                })
                        } else {
                            b == a
                        }
                    }
            },
            None => {
                &&& forall|j: int| 0 <= j < 32 ==> (#[trigger] old(m).drivers@[j]).active
                &&& final(m).drivers@ == old(m).drivers@
                &&& final(m).devices@ == old(m).devices@
            },
        },
{
    let ds = old(m).drivers@;
    let p = |i: int| !old(m).drivers@[i].active;
    search::lemma_first(32, p);
    match r {
        Some(i) => {
            assert(p(i as int));
            assert forall|j: int| 0 <= j < i implies (#[trigger] ds[j]).active by {
                assert(!p(j));
            }
            assert forall|d: int| 0 <= d < 64 implies {
                let a = old(m).devices@[d];
                let b = #[trigger] final(m).devices@[d];
                if a.active && a.driver_index < 0 && is_for(drv, a) {
                    &&& declines(drv.ops, a) ==> b == a
                    &&& accepts(drv.ops, a) ==> b == (Device { driver_index: i as i32, ..a })
                    &&& exists|x: Device, rc: i32| #[trigger]
                        drv.ops.probed(a, x, rc) && b == (if rc == 0 {
                            Device { driver_index: i as i32, ..x }
                        } else {
                            x
                        })
                } else {
                    b == a
                }
            } by {
                let a = old(m).devices@[d];
                let b = final(m).devices@[d];
                let placed = Driver { active: true, ..drv };
                assert(drivers::bound_to(placed, i as int, a, b));
                if a.active && a.driver_index < 0 && is_for(drv, a) {
                    assert(placed.fits(a));
                    let (x, rc) = choose|x: Device, rc: i32| #[trigger]
                        drivers::offered(placed, i as int, a, x, rc, b);
                    assert(drv.ops.probed(a, x, rc));
                } else {
                    assert(!(a.active && a.driver_index < 0 && placed.fits(a)));
                }
            }
        },
        None => {
            assert forall|j: int| 0 <= j < 32 implies (#[trigger] ds[j]).active by {
                assert(!p(j));
            }
        },
    }
}

/// A scan takes the function at its place, if there is one and it has kept fewer than
/// 32, and goes on: to the next function of a device that has several, to the next
/// device otherwise, through all 32 of the 256 buses.
pub proof fn law_scan_takes_the_function_at_its_place(
    s: &mut PciScan,
    words: &[u32; 16],
    r: Option<PciDeviceInfo>,
)
    requires
        old(s).wf(),
        old(s).slot < 8192,
        call_ensures(PciScan::advance, (s, words), r),
    ensures
        r is Some <==> words@[0] % 0x1_0000 != 0xFFFF && old(s).found < 32,
        r matches Some(info) ==> {
            &&& describes(
                words@,
                (old(s).slot / 32) as u8,
                (old(s).slot % 32) as u8,
                old(s).function,
                info@,
            )
            &&& final(s).found == old(s).found + 1
            &&& final(s).device_count == old(s).found + 1
            &&& final(s).devices@[old(s).found as int]@ == info@
        },
        r is None ==> final(s).found == old(s).found && final(s).device_count == old(s).device_count,
        forall|i: int|
            0 <= i < old(s).found ==> #[trigger] final(s).devices@[i]@ == old(s).devices@[i]@,
        ({
            let several = r is Some && r->0.header_type >= 128;
            if (old(s).function == 0 && several) || (0 < old(s).function && old(s).function < 7) {
                final(s).slot == old(s).slot && final(s).function == old(s).function + 1
            } else {
                final(s).slot == old(s).slot + 1 && final(s).function == 0
            }
        }),
{
    let bus = (old(s).slot / 32) as u8;
    let dev = (old(s).slot % 32) as u8;
    lemma_describes(words@, bus, dev, old(s).function);
    let a = old(s).list();
    let b = final(s).list();
    let f = pci::function_at(words@, bus, dev, old(s).function);
    let kept = f is Some && old(s).found < 32;
    assert(b == (if kept {
        a.push(f->0)
    } else {
        a
    }));
    assert(a.len() == old(s).found && b.len() == final(s).found);
    assert forall|i: int| 0 <= i < old(s).found implies #[trigger] final(s).devices@[i]@ == old(s).devices@[i]@ by {
        assert(b[i] == a[i]);
    }
    if kept {
        assert(b[old(s).found as int] == f->0);
    }
}

/// The place where a scan stands: bus, device and function; none behind the last bus.
pub proof fn law_scan_tells_its_place(s: &PciScan, r: Option<(u8, u8, u8)>)
    requires
        s.wf(),
        call_ensures(PciScan::position, (s,), r),
    ensures
        r is None <==> s.slot == 8192,
        r matches Some((bus, dev, func)) ==> bus * 32 + dev == s.slot && dev < 32 && func
            == s.function,
{
}

} // verus!
