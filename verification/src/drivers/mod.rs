//! The driver model: devices, drivers, and how they come together.
//!
//! A bus registers the devices that it finds. A driver says which devices it is
//! for; where one matches, its `probe` decides whether it takes the device.

pub mod bus;
pub mod linux_shim;

use vstd::prelude::*;
use vstd::string::*;
use crate::search;
use crate::task;

verus! {

pub const MAX_DEVICES: usize = 64;

pub const MAX_DRIVERS: usize = 32;

/// Bytes kept of a name, the closing zero included.
pub const NAME_SIZE: usize = 32;

/// The number in a match that stands for any other.
pub const ANY_ID: u16 = 0xFFFF;

/// The number of a device, unique in the system.
pub type DeviceId = u32;

/// What a device is for.
#[derive(Debug, Clone, Copy, PartialEq, Eq, Structural)]
pub enum DeviceClass {
    Unknown,
    Display,
    Network,
    Storage,
    Input,
    Audio,
    Usb,
    Serial,
    Platform,
}

/// The kind of bus that a device is on.
#[derive(Debug, Clone, Copy, PartialEq, Eq, Structural)]
pub enum BusType {
    /// Built in or virtual.
    Platform,
    Pci,
    Usb,
    Virtio,
}

/// A device.
#[derive(Clone, Copy)]
pub struct Device {
    pub id: DeviceId,
    pub name: [u8; NAME_SIZE],
    pub name_len: usize,
    pub class: DeviceClass,
    pub bus: BusType,
    pub vendor_id: u16,
    pub device_id: u16,
    /// The driver that serves it, -1 if none does.
    pub driver_index: i32,
    pub active: bool,
    /// Where its registers are in memory.
    pub mmio_base: u64,
    pub mmio_size: u64,
    /// Its interrupt, 0 if it has none.
    pub irq: u32,
}

impl Device {
    /// A device that is not registered.
    pub open spec fn spec_empty() -> Device {
        Device {
            id: 0,
            name: [0u8; NAME_SIZE],
            name_len: 0,
            class: DeviceClass::Unknown,
            bus: BusType::Platform,
            vendor_id: 0,
            device_id: 0,
            driver_index: -1i32,
            active: false,
            mmio_base: 0,
            mmio_size: 0,
            irq: 0,
        }
    }

    /// A device that is not registered.
    pub fn empty() -> (r: Device)
        ensures
            r == Device::spec_empty(),
    {
        Device {
            id: 0,
            name: [0u8; NAME_SIZE],
            name_len: 0,
            class: DeviceClass::Unknown,
            bus: BusType::Platform,
            vendor_id: 0,
            device_id: 0,
            driver_index: -1,
            active: false,
            mmio_base: 0,
            mmio_size: 0,
            irq: 0,
        }
    }

    /// Sets the name, cut to 31 bytes.
    pub fn set_name(&mut self, s: &str)
        ensures
            final(self).name@ == task::named(old(self).name@, s.spec_bytes()),
            final(self).name_len == task::name_len(old(self).name@, s.spec_bytes()),
            *final(self) == (Device {
                name: final(self).name,
                name_len: final(self).name_len,
                ..*old(self)
            }),
    {
        let b: &[u8] = s.as_bytes();
        let len: usize = if b.len() > NAME_SIZE - 1 {
            NAME_SIZE - 1
        } else {
            b.len()
        };
        let mut i: usize = 0;
        while i < len
            invariant
                i <= len,
                len <= b.len(),
                len == task::name_len(old(self).name@, b@),
                len < NAME_SIZE,
                *self == (Device { name: self.name, ..*old(self) }),
                forall|j: int| 0 <= j < i ==> self.name@[j] == b@[j],
                forall|j: int| i <= j < NAME_SIZE ==> self.name@[j] == old(self).name@[j],
            decreases len - i,
        {
            self.name[i] = b[i];
            i = i + 1;
        }
        self.name[len] = 0;
        self.name_len = len;
        assert(self.name@ =~= task::named(old(self).name@, b@));
    }
}

/// What a driver does with its devices. An implementation says in `probed` and
/// `removed` what its functions may do.
pub trait DriverOps: Sized + Copy {
    /// `probe` may turn the device `before` into `after` and return `rc`.
    spec fn probed(self, before: Device, after: Device, rc: i32) -> bool;

    /// `remove` may turn the device `before` into `after`.
    spec fn removed(self, before: Device, after: Device) -> bool;

    /// Takes a device into service. Returns 0 if that went well.
    fn probe(&self, dev: &mut Device) -> (rc: i32)
        ensures
            self.probed(*old(dev), *final(dev), rc),
    ;

    /// Takes a device out of service.
    fn remove(&self, dev: &mut Device)
        ensures
            self.removed(*old(dev), *final(dev)),
    ;
}

/// A driver that takes no device.
#[derive(Debug, Clone, Copy, PartialEq, Eq, Structural)]
pub struct DummyOps;

impl DriverOps for DummyOps {
    open spec fn probed(self, before: Device, after: Device, rc: i32) -> bool {
        after == before && rc == -1
    }

    open spec fn removed(self, before: Device, after: Device) -> bool {
        after == before
    }

    fn probe(&self, _dev: &mut Device) -> (rc: i32) {
        -1
    }

    fn remove(&self, _dev: &mut Device) {
    }
}

/// A driver.
pub struct Driver<O: DriverOps> {
    pub name: [u8; NAME_SIZE],
    pub name_len: usize,
    /// The kind of bus that it works with.
    pub bus: BusType,
    /// The vendor that it is for, or `ANY_ID`.
    pub match_vendor: u16,
    /// The device that it is for, or `ANY_ID`.
    pub match_device: u16,
    pub ops: O,
    pub active: bool,
}

impl<O: DriverOps> Clone for Driver<O> {
    fn clone(&self) -> (r: Driver<O>)
        ensures
            r == *self,
    {
        *self
    }
}

impl<O: DriverOps> Copy for Driver<O> {

}

impl<O: DriverOps> Driver<O> {
    /// A driver that is not registered, with its operations.
    pub fn empty(ops: O) -> (r: Driver<O>)
        ensures
            r == (Driver {
                name: [0u8; NAME_SIZE],
                name_len: 0,
                bus: BusType::Platform,
                match_vendor: 0,
                match_device: 0,
                ops,
                active: false,
            }),
    {
        Driver {
            name: [0u8; NAME_SIZE],
            name_len: 0,
            bus: BusType::Platform,
            match_vendor: 0,
            match_device: 0,
            ops,
            active: false,
        }
    }

    /// Sets the name, cut to 31 bytes.
    pub fn set_name(&mut self, s: &str)
        ensures
            final(self).name@ == task::named(old(self).name@, s.spec_bytes()),
            final(self).name_len == task::name_len(old(self).name@, s.spec_bytes()),
            *final(self) == (Driver {
                name: final(self).name,
                name_len: final(self).name_len,
                ..*old(self)
            }),
    {
        let b: &[u8] = s.as_bytes();
        let len: usize = if b.len() > NAME_SIZE - 1 {
            NAME_SIZE - 1
        } else {
            b.len()
        };
        let mut i: usize = 0;
        while i < len
            invariant
                i <= len,
                len <= b.len(),
                len == task::name_len(old(self).name@, b@),
                len < NAME_SIZE,
                *self == (Driver { name: self.name, ..*old(self) }),
                forall|j: int| 0 <= j < i ==> self.name@[j] == b@[j],
                forall|j: int| i <= j < NAME_SIZE ==> self.name@[j] == old(self).name@[j],
            decreases len - i,
        {
            self.name[i] = b[i];
            i = i + 1;
        }
        self.name[len] = 0;
        self.name_len = len;
        assert(self.name@ =~= task::named(old(self).name@, b@));
    }

    /// The driver is for the device: the bus is the same, and so are vendor and
    /// device unless the driver is for any.
    pub open spec fn fits(self, dev: Device) -> bool {
        &&& self.bus == dev.bus
        &&& self.match_vendor == ANY_ID || self.match_vendor == dev.vendor_id
        &&& self.match_device == ANY_ID || self.match_device == dev.device_id
    }

    /// Whether the driver is for the device.
    pub fn matches(&self, dev: &Device) -> (r: bool)
        ensures
            r == self.fits(*dev),
    {
        if self.bus != dev.bus {
            return false;
        }
        if self.match_vendor != ANY_ID && self.match_vendor != dev.vendor_id {
            return false;
        }
        if self.match_device != ANY_ID && self.match_device != dev.device_id {
            return false;
        }
        true
    }
}

/// The devices and the drivers of the system.
pub struct DeviceManager<O: DriverOps> {
    pub devices: [Device; MAX_DEVICES],
    pub drivers: [Driver<O>; MAX_DRIVERS],
    pub next_device_id: DeviceId,
}

impl<O: DriverOps> DeviceManager<O> {
    /// A system without devices and drivers. `idle` fills the slots of drivers
    /// that are not registered.
    pub fn new(idle: O) -> (r: DeviceManager<O>)
        ensures
            r.next_device_id == 1,
            forall|i: int|
                0 <= i < MAX_DEVICES ==> #[trigger] r.devices@[i] == Device::spec_empty(),
            forall|i: int| 0 <= i < MAX_DRIVERS ==> !(#[trigger] r.drivers@[i]).active,
    {
        DeviceManager {
            devices: [Device::empty(); MAX_DEVICES],
            drivers: [Driver::empty(idle); MAX_DRIVERS],
            next_device_id: 1,
        }
    }

    /// The first device slot that is free.
    pub open spec fn free_device(&self) -> Option<usize> {
        search::first(MAX_DEVICES as nat, |i: int| !self.devices@[i].active)
    }

    /// The first driver slot that is free.
    pub open spec fn free_driver(&self) -> Option<usize> {
        search::first(MAX_DRIVERS as nat, |i: int| !self.drivers@[i].active)
    }
}

/// A device after driver `i` was offered it: a probe that returns 0 makes it the
/// driver of the device.
pub open spec fn offered<O: DriverOps>(
    drv: Driver<O>,
    i: int,
    before: Device,
    mid: Device,
    rc: i32,
    after: Device,
) -> bool {
    &&& drv.ops.probed(before, mid, rc)
    &&& after == (if rc == 0 {
        Device { driver_index: i as i32, ..mid }
    } else {
        mid
    })
}

/// What becomes of a device when the drivers from `i` on are offered it one
/// after the other, until one takes it.
pub open spec fn bound_from<O: DriverOps>(
    drivers: Seq<Driver<O>>,
    i: int,
    before: Device,
    after: Device,
) -> bool
    decreases drivers.len() - i,
{
    if i >= drivers.len() {
        after == before
    } else if drivers[i].active && drivers[i].fits(before) {
        exists|mid: Device, rc: i32| #[trigger]
            drivers[i].ops.probed(before, mid, rc) && (if rc == 0 {
                after == (Device { driver_index: i as i32, ..mid })
            } else {
                bound_from(drivers, i + 1, mid, after)
            })
    } else {
        bound_from(drivers, i + 1, before, after)
    }
}

/// What becomes of a device when driver `i` is registered: it is offered every
/// device that is registered, has no driver and fits.
pub open spec fn bound_to<O: DriverOps>(
    drv: Driver<O>,
    i: int,
    before: Device,
    after: Device,
) -> bool {
    if before.active && before.driver_index < 0 && drv.fits(before) {
        exists|mid: Device, rc: i32| #[trigger] offered(drv, i, before, mid, rc, after)
    } else {
        after == before
    }
}

/// Offers a device to the drivers.
fn try_bind_driver<O: DriverOps>(m: &mut DeviceManager<O>, dev_idx: usize)
    requires
        dev_idx < MAX_DEVICES,
    ensures
        bound_from(
            old(m).drivers@,
            0,
            old(m).devices@[dev_idx as int],
            final(m).devices@[dev_idx as int],
        ),
        *final(m) == (DeviceManager { devices: final(m).devices, ..*old(m) }),
        final(m).devices@ == old(m).devices@.update(
            dev_idx as int,
            final(m).devices@[dev_idx as int],
        ),
{
    let mut dev: Device = m.devices[dev_idx];
    bind_from(m, 0, &mut dev);
    m.devices[dev_idx] = dev;
}

/// Offers a device to the drivers from `i` on.
fn bind_from<O: DriverOps>(m: &DeviceManager<O>, i: usize, dev: &mut Device)
    requires
        i <= MAX_DRIVERS,
    ensures
        bound_from(m.drivers@, i as int, *old(dev), *final(dev)),
    decreases MAX_DRIVERS - i,
{
    if i < MAX_DRIVERS {
        if m.drivers[i].active && m.drivers[i].matches(dev) {
            let ops: O = m.drivers[i].ops;
            let rc: i32 = ops.probe(dev);
            let ghost mid = *dev;
            if rc == 0 {
                dev.driver_index = i as i32;
            } else {
                bind_from(m, i + 1, dev);
            }
            assert(m.drivers@[i as int].ops.probed(*old(dev), mid, rc));
        } else {
            bind_from(m, i + 1, dev);
        }
    }
}

/// Registers a device, and returns its slot. It gets a number of its own and is
/// offered to the drivers. `None` if no slot is free.
pub fn register_device<O: DriverOps>(m: &mut DeviceManager<O>, dev: Device) -> (r: Option<usize>)
    requires
        old(m).next_device_id < u32::MAX,
    ensures
        r == old(m).free_device(),
        final(m).next_device_id == old(m).next_device_id + 1,
        final(m).drivers@ == old(m).drivers@,
        match r {
            Some(i) => {
                let placed = Device { id: old(m).next_device_id, active: true, ..dev };
                &&& i < MAX_DEVICES
                &&& bound_from(old(m).drivers@, 0, placed, final(m).devices@[i as int])
                &&& final(m).devices@ == old(m).devices@.update(
                    i as int,
                    final(m).devices@[i as int],
                )
            },
            None => final(m).devices@ == old(m).devices@,
        },
{
    let mut placed: Device = dev;
    placed.id = m.next_device_id;
    m.next_device_id = m.next_device_id + 1;
    placed.active = true;
    let ghost p = |i: int| !old(m).devices@[i].active;
    let mut i: usize = 0;
    while i < MAX_DEVICES
        invariant
            i <= MAX_DEVICES,
            m.devices@ == old(m).devices@,
            m.drivers@ == old(m).drivers@,
            m.next_device_id == old(m).next_device_id + 1,
            placed == (Device { id: old(m).next_device_id, active: true, ..dev }),
            p == (|i: int| !old(m).devices@[i].active),
            forall|j: int| 0 <= j < i ==> !#[trigger] p(j),
        decreases MAX_DEVICES - i,
    {
        if !m.devices[i].active {
            proof {
                assert(p(i as int));
                search::lemma_first_is(MAX_DEVICES as nat, p, i);
            }
            m.devices[i] = placed;
            try_bind_driver(m, i);
            assert(m.devices@ =~= old(m).devices@.update(i as int, m.devices@[i as int]));
            return Some(i);
        }
        i = i + 1;
    }
    proof {
        search::lemma_first_none(MAX_DEVICES as nat, p);
    }
    None
}

/// Offers every device without a driver to driver `i`.
fn bind_devices<O: DriverOps>(m: &mut DeviceManager<O>, i: usize)
    requires
        i < MAX_DRIVERS,
    ensures
        final(m).drivers@ == old(m).drivers@,
        final(m).next_device_id == old(m).next_device_id,
        forall|d: int|
            0 <= d < MAX_DEVICES ==> bound_to(
                old(m).drivers@[i as int],
                i as int,
                old(m).devices@[d],
                #[trigger] final(m).devices@[d],
            ),
{
    let ghost drv = m.drivers@[i as int];
    let mut d: usize = 0;
    while d < MAX_DEVICES
        invariant
            d <= MAX_DEVICES,
            i < MAX_DRIVERS,
            m.drivers@ == old(m).drivers@,
            m.next_device_id == old(m).next_device_id,
            drv == old(m).drivers@[i as int],
            forall|k: int|
                0 <= k < d ==> bound_to(
                    drv,
                    i as int,
                    old(m).devices@[k],
                    #[trigger] m.devices@[k],
                ),
            forall|k: int| d <= k < MAX_DEVICES ==> m.devices@[k] == old(m).devices@[k],
        decreases MAX_DEVICES - d,
    {
        if m.devices[d].active && m.devices[d].driver_index < 0 && m.drivers[i].matches(
            &m.devices[d],
        ) {
            let ops: O = m.drivers[i].ops;
            let mut dev: Device = m.devices[d];
            let ghost before = dev;
            let rc: i32 = ops.probe(&mut dev);
            let ghost mid = dev;
            if rc == 0 {
                dev.driver_index = i as i32;
            }
            assert(offered(drv, i as int, before, mid, rc, dev));
            m.devices[d] = dev;
        }
        d = d + 1;
    }
}

/// Registers a driver, and returns its slot. It is offered every device that has
/// no driver yet. `None` if no slot is free.
pub fn register_driver<O: DriverOps>(m: &mut DeviceManager<O>, drv: Driver<O>) -> (r: Option<usize>)
    ensures
        r == old(m).free_driver(),
        final(m).next_device_id == old(m).next_device_id,
        match r {
            Some(i) => {
                let placed = Driver { active: true, ..drv };
                &&& i < MAX_DRIVERS
                &&& final(m).drivers@ == old(m).drivers@.update(i as int, placed)
                &&& forall|d: int|
                    0 <= d < MAX_DEVICES ==> bound_to(
                        placed,
                        i as int,
                        old(m).devices@[d],
                        #[trigger] final(m).devices@[d],
                    )
            },
            None => final(m).drivers@ == old(m).drivers@ && final(m).devices@ == old(m).devices@,
        },
{
    let ghost p = |i: int| !old(m).drivers@[i].active;
    let mut i: usize = 0;
    while i < MAX_DRIVERS
        invariant
            i <= MAX_DRIVERS,
            *m == *old(m),
            p == (|i: int| !old(m).drivers@[i].active),
            forall|j: int| 0 <= j < i ==> !#[trigger] p(j),
        decreases MAX_DRIVERS - i,
    {
        if !m.drivers[i].active {
            proof {
                assert(p(i as int));
                search::lemma_first_is(MAX_DRIVERS as nat, p, i);
            }
            let mut drv = drv;
            drv.active = true;
            m.drivers[i] = drv;
            bind_devices(m, i);
            return Some(i);
        }
        i = i + 1;
    }
    proof {
        search::lemma_first_none(MAX_DRIVERS as nat, p);
    }
    None
}

/// A registered device.
pub fn get_device<O: DriverOps>(m: &DeviceManager<O>, idx: usize) -> (r: Option<&Device>)
    ensures
        r == (if idx < MAX_DEVICES && m.devices@[idx as int].active {
            Some(&m.devices@[idx as int])
        } else {
            None
        }),
{
    if idx < MAX_DEVICES && m.devices[idx].active {
        Some(&m.devices[idx])
    } else {
        None
    }
}

/// A registered device, to be changed.
pub fn get_device_mut<O: DriverOps>(m: &mut DeviceManager<O>, idx: usize) -> (r: Option<
    &mut Device,
>)
    ensures
        match r {
            Some(x) => {
                &&& idx < MAX_DEVICES && old(m).devices@[idx as int].active
                &&& *x == old(m).devices@[idx as int]
                &&& final(m).devices@ == old(m).devices@.update(idx as int, *final(x))
                &&& *final(m) == (DeviceManager { devices: final(m).devices, ..*old(m) })
            },
            None => {
                &&& idx >= MAX_DEVICES || !old(m).devices@[idx as int].active
                &&& *final(m) == *old(m)
            },
        },
{
    if idx < MAX_DEVICES && m.devices[idx].active {
        Some(&mut m.devices[idx])
    } else {
        None
    }
}

/// How many devices are registered.
pub fn device_count<O: DriverOps>(m: &DeviceManager<O>) -> (r: usize)
    ensures
        r == search::count(MAX_DEVICES as nat, |i: int| m.devices@[i].active),
{
    let mut count: usize = 0;
    let mut i: usize = 0;
    while i < MAX_DEVICES
        invariant
            i <= MAX_DEVICES,
            count <= i,
            count == search::count(i as nat, |i: int| m.devices@[i].active),
        decreases MAX_DEVICES - i,
    {
        if m.devices[i].active {
            count = count + 1;
        }
        i = i + 1;
    }
    count
}

/// How many drivers are registered.
pub fn driver_count<O: DriverOps>(m: &DeviceManager<O>) -> (r: usize)
    ensures
        r == search::count(MAX_DRIVERS as nat, |i: int| m.drivers@[i].active),
{
    let mut count: usize = 0;
    let mut i: usize = 0;
    while i < MAX_DRIVERS
        invariant
            i <= MAX_DRIVERS,
            count <= i,
            count == search::count(i as nat, |i: int| m.drivers@[i].active),
        decreases MAX_DRIVERS - i,
    {
        if m.drivers[i].active {
            count = count + 1;
        }
        i = i + 1;
    }
    count
}

/// A device for which no registered driver is meant gets no driver and is not
/// touched.
pub proof fn law_devices_without_a_match_stay_alone<O: DriverOps>(
    drivers: Seq<Driver<O>>,
    i: int,
    before: Device,
    after: Device,
)
    requires
        0 <= i,
        bound_from(drivers, i, before, after),
        forall|k: int| i <= k < drivers.len() ==> !(#[trigger] drivers[k]).active || !drivers[k].fits(before),
    ensures
        after == before,
    decreases drivers.len() - i,
{
    if i < drivers.len() {
        assert(!drivers[i].active || !drivers[i].fits(before));
        law_devices_without_a_match_stay_alone(drivers, i + 1, before, after);
    }
}

/// A device that has a driver keeps it, untouched, when other drivers are
/// registered.
pub proof fn law_bound_devices_are_not_offered_again<O: DriverOps>(
    drv: Driver<O>,
    i: int,
    before: Device,
    after: Device,
)
    requires
        before.driver_index >= 0,
        bound_to(drv, i, before, after),
    ensures
        after == before,
{
}

} // verus!
