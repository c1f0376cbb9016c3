//! The PCI bus: decoding the configuration space of devices, finding them, and
//! registering them.
//!
//! Reading and writing the configuration space is left to the caller. A scan
//! says which function to look at next, and takes the first sixteen double words
//! of its configuration space.

use vstd::prelude::*;
use super::super::{
    register_device, BusType, Device, DeviceClass, DeviceManager, DriverOps, NAME_SIZE,
};
use crate::drivers;

verus! {

/// The port for the address of a register.
pub const PCI_CONFIG_ADDRESS: u16 = 0xCF8;

/// The port for the data of a register.
pub const PCI_CONFIG_DATA: u16 = 0xCFC;

pub const PCI_CLASS_STORAGE: u8 = 0x01;

pub const PCI_CLASS_NETWORK: u8 = 0x02;

pub const PCI_CLASS_DISPLAY: u8 = 0x03;

pub const PCI_CLASS_MULTIMEDIA: u8 = 0x04;

pub const PCI_CLASS_BRIDGE: u8 = 0x06;

pub const PCI_CLASS_SERIAL: u8 = 0x0C;

/// The vendor that is read where there is no device.
pub const NO_VENDOR: u16 = 0xFFFF;

/// How many functions a scan keeps.
pub const MAX_PCI_DEVICES: usize = 32;

/// How many double words of the configuration space a scan looks at.
pub const HEADER_WORDS: usize = 16;

/// Base address registers of a function.
pub const BAR_COUNT: usize = 6;

/// The address of a register: the enable bit, the bus in bits 16 to 23, the
/// device in bits 11 to 15, the function in bits 8 to 10, the register, rounded
/// down to a multiple of four, below.
pub fn pci_address(bus: u8, device: u8, function: u8, offset: u8) -> (r: u32)
    ensures
        r == 0x8000_0000 + bus * 0x1_0000 + (device % 32) * 0x800 + (function % 8) * 0x100 + (offset
            / 4) * 4,
{
    0x8000_0000 + bus as u32 * 0x1_0000 + (device % 32) as u32 * 0x800 + (function % 8) as u32
        * 0x100 + (offset / 4) as u32 * 4
}

/// The 16 bits of a double word at an offset of the configuration space.
pub open spec fn half_of(val32: u32, offset: u8) -> u16 {
    if offset % 4 >= 2 {
        (val32 / 0x1_0000) as u16
    } else {
        (val32 % 0x1_0000) as u16
    }
}

/// The 8 bits of a double word at an offset of the configuration space.
pub open spec fn byte_of(val32: u32, offset: u8) -> u8 {
    if offset % 4 == 0 {
        (val32 % 0x100) as u8
    } else if offset % 4 == 1 {
        (val32 / 0x100 % 0x100) as u8
    } else if offset % 4 == 2 {
        (val32 / 0x1_0000 % 0x100) as u8
    } else {
        (val32 / 0x100_0000) as u8
    }
}

/// Picks 16 bits out of the double word that holds them.
pub fn config_half(val32: u32, offset: u8) -> (r: u16)
    ensures
        r == half_of(val32, offset),
{
    if offset % 4 >= 2 {
        (val32 / 0x1_0000) as u16
    } else {
        (val32 % 0x1_0000) as u16
    }
}

/// Picks 8 bits out of the double word that holds them.
pub fn config_byte(val32: u32, offset: u8) -> (r: u8)
    ensures
        r == byte_of(val32, offset),
{
    if offset % 4 == 0 {
        (val32 % 0x100) as u8
    } else if offset % 4 == 1 {
        (val32 / 0x100 % 0x100) as u8
    } else if offset % 4 == 2 {
        (val32 / 0x1_0000 % 0x100) as u8
    } else {
        (val32 / 0x100_0000) as u8
    }
}

/// A function that was found on the bus.
#[derive(Debug, Clone, Copy)]
pub struct PciDeviceInfo {
    pub bus: u8,
    pub device: u8,
    pub function: u8,
    pub vendor_id: u16,
    pub device_id: u16,
    pub class_code: u8,
    pub subclass: u8,
    pub prog_if: u8,
    pub revision: u8,
    pub header_type: u8,
    pub irq_line: u8,
    pub bar: [u32; BAR_COUNT],
}

/// A function, with its base address registers as a sequence.
#[verifier::ext_equal]
pub struct Function {
    pub bus: u8,
    pub device: u8,
    pub function: u8,
    pub vendor_id: u16,
    pub device_id: u16,
    pub class_code: u8,
    pub subclass: u8,
    pub prog_if: u8,
    pub revision: u8,
    pub header_type: u8,
    pub irq_line: u8,
    pub bar: Seq<u32>,
}

impl Function {
    /// A function with every field zero.
    pub open spec fn blank() -> Function {
        Function {
            bus: 0,
            device: 0,
            function: 0,
            vendor_id: 0,
            device_id: 0,
            class_code: 0,
            subclass: 0,
            prog_if: 0,
            revision: 0,
            header_type: 0,
            irq_line: 0,
            bar: Seq::new(BAR_COUNT as nat, |i: int| 0u32),
        }
    }
}

impl View for PciDeviceInfo {
    type V = Function;

    open spec fn view(&self) -> Function {
        Function {
            bus: self.bus,
            device: self.device,
            function: self.function,
            vendor_id: self.vendor_id,
            device_id: self.device_id,
            class_code: self.class_code,
            subclass: self.subclass,
            prog_if: self.prog_if,
            revision: self.revision,
            header_type: self.header_type,
            irq_line: self.irq_line,
            bar: self.bar@,
        }
    }
}

/// The function that the start of its configuration space describes; none if no
/// vendor answers. Only an ordinary device has base address registers.
pub open spec fn function_at(words: Seq<u32>, bus: u8, dev: u8, func: u8) -> Option<Function> {
    let header_type = byte_of(words[3], 0x0E);
    if half_of(words[0], 0x00) == NO_VENDOR {
        None
    } else {
        Some(
            Function {
                bus,
                device: dev,
                function: func,
                vendor_id: half_of(words[0], 0x00),
                device_id: half_of(words[0], 0x02),
                class_code: byte_of(words[2], 0x0B),
                subclass: byte_of(words[2], 0x0A),
                prog_if: byte_of(words[2], 0x09),
                revision: byte_of(words[2], 0x08),
                header_type,
                irq_line: byte_of(words[15], 0x3C),
                bar: Seq::new(
                    BAR_COUNT as nat,
                    |i: int|
                        if header_type % 128 == 0 {
                            words[4 + i]
                        } else {
                            0
                        },
                ),
            },
        )
    }
}

/// The address that a base address register holds: of ports without the low two
/// bits, of memory without the low four, with the next register as the upper
/// half where it is a 64-bit one.
pub open spec fn bar_target(bar: Seq<u32>, i: int) -> int {
    let raw = bar[i] as int;
    if raw % 2 == 1 {
        raw - raw % 4
    } else if raw / 2 % 4 == 2 && i + 1 < BAR_COUNT {
        raw - raw % 16 + bar[i + 1] * 0x1_0000_0000
    } else {
        raw - raw % 16
    }
}

/// The size of a region, from what its register held and what it holds once all
/// ones were written to it.
pub open spec fn region_size(original: u32, size_mask: u32) -> int {
    let low: int = if original % 2 == 1 {
        4
    } else {
        16
    };
    let mask = size_mask - size_mask as int % low;
    if size_mask == 0 || size_mask == 0xFFFF_FFFF || mask == 0 {
        0
    } else {
        0x1_0000_0000 - mask
    }
}

impl PciDeviceInfo {
    /// A function with every field zero.
    pub fn blank() -> (r: PciDeviceInfo)
        ensures
            r@ == Function::blank(),
    {
        let r = PciDeviceInfo {
            bus: 0,
            device: 0,
            function: 0,
            vendor_id: 0,
            device_id: 0,
            class_code: 0,
            subclass: 0,
            prog_if: 0,
            revision: 0,
            header_type: 0,
            irq_line: 0,
            bar: [0u32; BAR_COUNT],
        };
        assert(r.bar@ =~= Seq::new(BAR_COUNT as nat, |i: int| 0u32));
        r
    }

    /// Decodes the start of a configuration space. `None` if there is no
    /// function.
    pub fn read(bus: u8, dev: u8, func: u8, words: &[u32; HEADER_WORDS]) -> (r: Option<
        PciDeviceInfo,
    >)
        ensures
            match r {
                Some(info) => function_at(words@, bus, dev, func) == Some(info@),
                None => function_at(words@, bus, dev, func) is None,
            },
    {
        let vendor_id: u16 = config_half(words[0], 0x00);
        if vendor_id == NO_VENDOR {
            return None;
        }
        let header_type: u8 = config_byte(words[3], 0x0E);
        let mut bar: [u32; BAR_COUNT] = [0u32; BAR_COUNT];
        if header_type % 128 == 0 {
            let mut i: usize = 0;
            while i < BAR_COUNT
                invariant
                    i <= BAR_COUNT,
                    forall|j: int| 0 <= j < i ==> bar@[j] == words@[4 + j],
                decreases BAR_COUNT - i,
            {
                bar[i] = words[4 + i];
                i = i + 1;
            }
        }
        let info = PciDeviceInfo {
            bus,
            device: dev,
            function: func,
            vendor_id,
            device_id: config_half(words[0], 0x02),
            class_code: config_byte(words[2], 0x0B),
            subclass: config_byte(words[2], 0x0A),
            prog_if: config_byte(words[2], 0x09),
            revision: config_byte(words[2], 0x08),
            header_type,
            irq_line: config_byte(words[15], 0x3C),
            bar,
        };
        assert(info@ =~= function_at(words@, bus, dev, func)->0);
        Some(info)
    }

    /// The address that a base address register holds, 0 if there is no such
    /// register.
    pub fn bar_address(&self, bar_idx: usize) -> (r: u64)
        ensures
            r == (if bar_idx >= BAR_COUNT {
                0
            } else {
                bar_target(self.bar@, bar_idx as int)
            }),
    {
        if bar_idx >= BAR_COUNT {
            return 0;
        }
        let raw: u32 = self.bar[bar_idx];
        if raw % 2 == 1 {
            return (raw - raw % 4) as u64;
        }
        let base: u64 = (raw - raw % 16) as u64;
        if raw / 2 % 4 == 2 && bar_idx + 1 < BAR_COUNT {
            let high: u64 = self.bar[bar_idx + 1] as u64;
            base + high * 0x1_0000_0000
        } else {
            base
        }
    }

    /// The size of the region behind a base address register, 0 if there is no
    /// such register. `original` is what the register holds, `size_mask` what it
    /// holds once all ones were written to it.
    pub fn bar_size(bar_idx: usize, original: u32, size_mask: u32) -> (r: u64)
        ensures
            r == (if bar_idx >= BAR_COUNT {
                0
            } else {
                region_size(original, size_mask)
            }),
    {
        if bar_idx >= BAR_COUNT || size_mask == 0 || size_mask == 0xFFFF_FFFF {
            return 0;
        }
        let mask: u32 = if original % 2 == 1 {
            size_mask - size_mask % 4
        } else {
            size_mask - size_mask % 16
        };
        if mask == 0 {
            0
        } else {
            0x1_0000_0000 - mask as u64
        }
    }

    /// What the function is for, by its class.
    pub fn to_device_class(&self) -> (r: DeviceClass)
        ensures
            r == class_of(self.class_code),
    {
        match self.class_code {
            PCI_CLASS_DISPLAY => DeviceClass::Display,
            PCI_CLASS_NETWORK => DeviceClass::Network,
            PCI_CLASS_STORAGE => DeviceClass::Storage,
            PCI_CLASS_MULTIMEDIA => DeviceClass::Audio,
            PCI_CLASS_SERIAL => DeviceClass::Usb,
            _ => DeviceClass::Unknown,
        }
    }

    /// Whether the size of the region behind the first base address register is
    /// needed: it is one of memory.
    pub fn has_mmio(&self) -> (r: bool)
        ensures
            r == (self.bar@[0] != 0 && self.bar@[0] % 2 == 0),
    {
        self.bar[0] != 0 && self.bar[0] % 2 == 0
    }
}

/// What a function of a class is for.
pub open spec fn class_of(class_code: u8) -> DeviceClass {
    if class_code == PCI_CLASS_DISPLAY {
        DeviceClass::Display
    } else if class_code == PCI_CLASS_NETWORK {
        DeviceClass::Network
    } else if class_code == PCI_CLASS_STORAGE {
        DeviceClass::Storage
    } else if class_code == PCI_CLASS_MULTIMEDIA {
        DeviceClass::Audio
    } else if class_code == PCI_CLASS_SERIAL {
        DeviceClass::Usb
    } else {
        DeviceClass::Unknown
    }
}

/// The sizes that a region can have are the two's complements of their masks: a
/// region of a power of two from 16 on answers with the mask of that size.
pub proof fn law_region_size_is_read_from_its_mask(size: u32, original: u32)
    requires
        original % 2 == 0,
        16 <= size < 0x8000_0000,
        size % 16 == 0,
    ensures
        region_size(original, (0x1_0000_0000 - size) as u32) == size,
{
}

/// The sixteen hexadecimal digits.
pub const HEX: [u8; 16] = [
    0x30, 0x31, 0x32, 0x33, 0x34, 0x35, 0x36, 0x37, 0x38, 0x39, 0x61, 0x62, 0x63, 0x64, 0x65, 0x66,
];

/// A number as four hexadecimal digits.
pub open spec fn hex_of(val: u16) -> Seq<u8> {
    seq![
        HEX@[val as int / 0x1000],
        HEX@[val as int / 0x100 % 16],
        HEX@[val as int / 0x10 % 16],
        HEX@[val as int % 16],
    ]
}

/// Writes a number as four hexadecimal digits to the start of a buffer, if there
/// is room.
fn hex16(val: u16, buf: &mut [u8])
    ensures
        final(buf)@ == (if old(buf)@.len() >= 4 {
            hex_of(val) + old(buf)@.subrange(4, old(buf)@.len() as int)
        } else {
            old(buf)@
        }),
{
    if buf.len() >= 4 {
        buf[0] = HEX[(val / 0x1000) as usize];
        buf[1] = HEX[(val / 0x100 % 16) as usize];
        buf[2] = HEX[(val / 0x10 % 16) as usize];
        buf[3] = HEX[(val % 16) as usize];
        assert(buf@ =~= hex_of(val) + old(buf)@.subrange(4, old(buf)@.len() as int));
    }
}

/// The name of a function: "pci:", the vendor, a colon, the device.
pub open spec fn pci_name(vendor: u16, device: u16) -> Seq<u8> {
    seq![0x70u8, 0x63, 0x69, 0x3A] + hex_of(vendor) + seq![0x3Au8] + hex_of(device)
}

/// The device for a function, before it is registered.
pub open spec fn is_device_for(d: Device, f: Function, original: u32, size_mask: u32) -> bool {
    let mmio = f.bar[0] != 0 && f.bar[0] % 2 == 0;
    &&& d == (Device {
        name: d.name,
        name_len: 13,
        class: class_of(f.class_code),
        bus: BusType::Pci,
        vendor_id: f.vendor_id,
        device_id: f.device_id,
        irq: f.irq_line as u32,
        mmio_base: if mmio {
            bar_target(f.bar, 0) as u64
        } else {
            0
        },
        mmio_size: if mmio {
            region_size(original, size_mask) as u64
        } else {
            0
        },
        ..Device::spec_empty()
    })
    &&& d.name@ == Seq::new(
        NAME_SIZE as nat,
        |i: int|
            if i < 13 {
                pci_name(f.vendor_id, f.device_id)[i]
            } else {
                0
            },
    )
}

/// Makes the device for a function. `original` and `size_mask` are what its
/// first base address register holds and what it holds once all ones were
/// written to it.
fn device_for(info: &PciDeviceInfo, original: u32, size_mask: u32) -> (r: Device)
    ensures
        is_device_for(r, info@, original, size_mask),
{
    let mut dev = Device::empty();
    dev.class = info.to_device_class();
    dev.bus = BusType::Pci;
    dev.vendor_id = info.vendor_id;
    dev.device_id = info.device_id;
    dev.irq = info.irq_line as u32;
    if info.has_mmio() {
        dev.mmio_base = info.bar_address(0);
        dev.mmio_size = PciDeviceInfo::bar_size(0, original, size_mask);
    }
    let mut vendor: [u8; 4] = [0, 0, 0, 0];
    let mut device: [u8; 4] = [0, 0, 0, 0];
    hex16(info.vendor_id, &mut vendor);
    hex16(info.device_id, &mut device);
    assert(vendor@ =~= hex_of(info.vendor_id));
    assert(device@ =~= hex_of(info.device_id));
    dev.name[0] = 0x70;
    dev.name[1] = 0x63;
    dev.name[2] = 0x69;
    dev.name[3] = 0x3A;
    dev.name[4] = vendor[0];
    dev.name[5] = vendor[1];
    dev.name[6] = vendor[2];
    dev.name[7] = vendor[3];
    dev.name[8] = 0x3A;
    dev.name[9] = device[0];
    dev.name[10] = device[1];
    dev.name[11] = device[2];
    dev.name[12] = device[3];
    dev.name_len = 13;
    assert(dev.name@ =~= Seq::new(
        NAME_SIZE as nat,
        |i: int|
            if i < 13 {
                pci_name(info@.vendor_id, info@.device_id)[i]
            } else {
                0
            },
    ));
    dev
}

/// Registers the device for a function, and returns its slot. See `device_for`.
pub fn register_pci_device<O: DriverOps>(
    m: &mut DeviceManager<O>,
    info: &PciDeviceInfo,
    original: u32,
    size_mask: u32,
) -> (r: Option<usize>)
    requires
        old(m).next_device_id < u32::MAX,
    ensures
        r == old(m).free_device(),
        final(m).next_device_id == old(m).next_device_id + 1,
        final(m).drivers@ == old(m).drivers@,
        match r {
            Some(i) => exists|dev: Device| #[trigger]
                is_device_for(dev, info@, original, size_mask) && drivers::bound_from(
                    old(m).drivers@,
                    0,
                    Device { id: old(m).next_device_id, active: true, ..dev },
                    final(m).devices@[i as int],
                ) && final(m).devices@ == old(m).devices@.update(
                    i as int,
                    final(m).devices@[i as int],
                ),
            None => final(m).devices@ == old(m).devices@,
        },
{
    let dev: Device = device_for(info, original, size_mask);
    register_device(m, dev)
}

/// A scan of the bus: the functions found so far, and where it stands.
pub struct PciScan {
    pub devices: [PciDeviceInfo; MAX_PCI_DEVICES],
    /// How many of the functions count.
    pub device_count: usize,
    /// How many functions this scan has found.
    pub found: usize,
    /// The bus and the device to look at next: `bus * 32 + device`, 8192 at the
    /// end.
    pub slot: u32,
    /// The function to look at next.
    pub function: u8,
}

/// Slots on all buses.
pub const SLOT_COUNT: u32 = 8192;

impl PciScan {
    /// The scan is somewhere on the bus, and has no more functions than it can
    /// keep.
    pub open spec fn wf(&self) -> bool {
        &&& self.device_count <= MAX_PCI_DEVICES
        &&& self.found <= MAX_PCI_DEVICES
        &&& self.slot <= SLOT_COUNT
        &&& self.function < 8
        &&& self.slot == SLOT_COUNT ==> self.function == 0
        &&& self.found > 0 ==> self.device_count == self.found
    }

    /// The functions that this scan has found.
    pub open spec fn list(&self) -> Seq<Function> {
        Seq::new(self.found as nat, |i: int| self.devices@[i]@)
    }

    /// No function found yet, at the start of the first bus.
    pub fn new() -> (r: PciScan)
        ensures
            r.wf(),
            r.device_count == 0,
            r.found == 0,
            r.slot == 0,
            r.function == 0,
            forall|i: int|
                0 <= i < MAX_PCI_DEVICES ==> (#[trigger] r.devices@[i])@ == Function::blank(),
    {
        let blank: PciDeviceInfo = PciDeviceInfo::blank();
        PciScan {
            devices: [blank; MAX_PCI_DEVICES],
            device_count: 0,
            found: 0,
            slot: 0,
            function: 0,
        }
    }

    /// Starts a new scan. What the last one found stays until the new one finds
    /// something.
    pub fn restart(&mut self)
        requires
            old(self).wf(),
        ensures
            final(self).wf(),
            *final(self) == (PciScan { found: 0, slot: 0, function: 0, ..*old(self) }),
    {
        self.found = 0;
        self.slot = 0;
        self.function = 0;
    }

    /// The function to look at next: bus, device and function. `None` at the end.
    pub fn position(&self) -> (r: Option<(u8, u8, u8)>)
        requires
            self.wf(),
        ensures
            r == (if self.slot == SLOT_COUNT {
                None
            } else {
                Some(((self.slot / 32) as u8, (self.slot % 32) as u8, self.function))
            }),
    {
        if self.slot == SLOT_COUNT {
            return None;
        }
        Some(((self.slot / 32) as u8, (self.slot % 32) as u8, self.function))
    }

    /// Takes the start of the configuration space of the function that
    /// `position` asked for, and moves on. Returns the function if there is one
    /// and it is kept: it is to be registered then. Of a device with several
    /// functions all eight are looked at.
    pub fn advance(&mut self, words: &[u32; HEADER_WORDS]) -> (r: Option<PciDeviceInfo>)
        requires
            old(self).wf(),
            old(self).slot < SLOT_COUNT,
        ensures
            final(self).wf(),
            ({
                let f = function_at(
                    words@,
                    (old(self).slot / 32) as u8,
                    (old(self).slot % 32) as u8,
                    old(self).function,
                );
                let kept = f is Some && old(self).found < MAX_PCI_DEVICES;
                &&& match r {
                    Some(info) => kept && f == Some(info@),
                    None => !kept,
                }
                &&& final(self).list() == (if kept {
                    old(self).list().push(f->0)
                } else {
                    old(self).list()
                })
                &&& final(self).device_count == (if kept {
                    old(self).found + 1
                } else {
                    old(self).device_count as int
                })
                &&& (final(self).slot as int, final(self).function) == next_place(
                    old(self).slot as int,
                    old(self).function,
                    kept && f->0.header_type >= 128,
                )
            }),
    {
        let bus: u8 = (self.slot / 32) as u8;
        let dev: u8 = (self.slot % 32) as u8;
        let mut kept: Option<PciDeviceInfo> = None;
        let mut more: bool = self.function > 0 && self.function < 7;
        match PciDeviceInfo::read(bus, dev, self.function, words) {
            Some(info) => {
                if self.found < MAX_PCI_DEVICES {
                    self.devices[self.found] = info;
                    self.device_count = self.found + 1;
                    self.found = self.found + 1;
                    kept = Some(info);
                    if self.function == 0 && info.header_type >= 128 {
                        more = true;
                    }
                    assert(self.list() =~= old(self).list().push(info@));
                }
            },
            None => {},
        }
        if more {
            self.function = self.function + 1;
        } else {
            self.function = 0;
            self.slot = self.slot + 1;
        }
        proof {
            if kept is None {
                assert(self.list() =~= old(self).list());
            } else {
                assert(self.list() =~= old(self).list().push(kept->0@));
            }
        }
        kept
    }
}

/// Where a scan goes on: to the next function of a device with several, to the
/// next slot otherwise.
pub open spec fn next_place(slot: int, function: u8, several: bool) -> (int, u8) {
    if (function == 0 && several) || 0 < function < 7 {
        (slot, (function + 1) as u8)
    } else {
        (slot + 1, 0)
    }
}

/// The functions at and behind a place of the bus, where `words` gives the
/// configuration space of each: those that a scan without a limit finds.
pub open spec fn functions_from(
    words: spec_fn(int, u8) -> Seq<u32>,
    slot: int,
    function: u8,
) -> Seq<Function>
    decreases (SLOT_COUNT - slot) * 8 - function,
    when 0 <= slot && function < 8
{
    if slot >= SLOT_COUNT {
        Seq::empty()
    } else {
        let f = function_at(words(slot, function), (slot / 32) as u8, (slot % 32) as u8, function);
        let (s, n) = next_place(slot, function, f is Some && f->0.header_type >= 128);
        let rest = functions_from(words, s, n);
        match f {
            Some(x) => seq![x] + rest,
            None => rest,
        }
    }
}

/// What a scan has found and where it stands.
#[verifier::ext_equal]
pub struct Progress {
    pub list: Seq<Function>,
    pub slot: int,
    pub function: u8,
}

/// One step of a scan: what `advance` does.
pub open spec fn advanced(words: spec_fn(int, u8) -> Seq<u32>, p: Progress) -> Progress {
    let f = function_at(
        words(p.slot, p.function),
        (p.slot / 32) as u8,
        (p.slot % 32) as u8,
        p.function,
    );
    let kept = f is Some && p.list.len() < MAX_PCI_DEVICES;
    let (slot, function) = next_place(
        p.slot,
        p.function,
        kept && f->0.header_type >= 128,
    );
    Progress {
        list: if kept {
            p.list.push(f->0)
        } else {
            p.list
        },
        slot,
        function,
    }
}

/// A scan carried to its end.
pub open spec fn finished(words: spec_fn(int, u8) -> Seq<u32>, p: Progress) -> Seq<Function>
    decreases (SLOT_COUNT - p.slot) * 8 - p.function,
    when 0 <= p.slot && p.function < 8
{
    if p.slot >= SLOT_COUNT {
        p.list
    } else {
        finished(words, advanced(words, p))
    }
}

/// The first functions of a list, as many as a scan keeps.
pub open spec fn kept_of(list: Seq<Function>) -> Seq<Function> {
    if list.len() <= MAX_PCI_DEVICES {
        list
    } else {
        list.subrange(0, MAX_PCI_DEVICES as int)
    }
}

/// A scan finds every function on every bus, in order, up to the limit.
pub proof fn law_scan_finds_every_function(words: spec_fn(int, u8) -> Seq<u32>)
    ensures
        finished(words, Progress { list: Seq::empty(), slot: 0, function: 0 }) == kept_of(
            functions_from(words, 0, 0),
        ),
{
    let p = Progress { list: Seq::empty(), slot: 0, function: 0 };
    lemma_scan(words, p);
    assert(p.list + functions_from(words, 0, 0) =~= functions_from(words, 0, 0));
}

proof fn lemma_scan(words: spec_fn(int, u8) -> Seq<u32>, p: Progress)
    requires
        0 <= p.slot,
        p.function < 8,
        p.list.len() <= MAX_PCI_DEVICES,
    ensures
        finished(words, p) == kept_of(p.list + functions_from(words, p.slot, p.function)),
    decreases (SLOT_COUNT - p.slot) * 8 - p.function,
{
    if p.slot >= SLOT_COUNT {
        assert(kept_of(p.list + Seq::empty()) =~= p.list);
    } else {
        let q = advanced(words, p);
        lemma_scan(words, q);
        let all = p.list + functions_from(words, p.slot, p.function);
        if p.list.len() < MAX_PCI_DEVICES {
            assert(q.list + functions_from(words, q.slot, q.function) =~= all);
        } else {
            assert(kept_of(all) =~= p.list);
            assert(kept_of(q.list + functions_from(words, q.slot, q.function)) =~= p.list);
        }
    }
}

/// A function that the last scan found.
pub fn get_pci_device(scan: &PciScan, idx: usize) -> (r: Option<&PciDeviceInfo>)
    requires
        scan.wf(),
    ensures
        r == (if idx < scan.device_count {
            Some(&scan.devices@[idx as int])
        } else {
            None
        }),
{
    if idx < scan.device_count {
        Some(&scan.devices[idx])
    } else {
        None
    }
}

/// How many functions the last scan found.
pub fn pci_device_count(scan: &PciScan) -> (r: usize)
    ensures
        r == scan.device_count,
{
    scan.device_count
}

/// The value to write to the command register so that a function may use ports
/// and memory and master the bus: `cmd` with the low three bits set, under the
/// upper half of `full`.
pub fn bus_master_command(cmd: u16, full: u32) -> (r: u32)
    ensures
        r == (full / 0x1_0000) * 0x1_0000 + (cmd as int - cmd as int % 8 + 7),
{
    full / 0x1_0000 * 0x1_0000 + (cmd - cmd % 8 + 7) as u32
}

} // verus!
