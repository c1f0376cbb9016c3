//! The state of the kernel: one value that holds the subsystems.

use vstd::prelude::*;
use crate::drivers;
use crate::drivers::{Device, DeviceManager, Driver, DriverOps};
use crate::ipc::{Channel, Ipc};
use crate::memory::paging;
use crate::memory::paging::Mem;
use crate::memory::phys::FrameAllocator;
use crate::scheduler::{Scheduler, Tasks};
use crate::task::TaskIds;
use crate::vfs::{Tables, Vfs};

verus! {

/// RAM that the kernel counts on: 64 MiB.
pub const ASSUMED_MEMORY: usize = 0x400_0000;

/// Where the kernel is loaded.
pub const KERNEL_START: usize = 0x10_0000;

/// The drivers of the kernel itself.
#[derive(Debug, Clone, Copy, PartialEq, Eq, Structural)]
pub enum KernelDriver {
    /// Takes no device.
    Dummy,
    /// Takes every device and leaves it as it is.
    Probe,
}

impl DriverOps for KernelDriver {
    open spec fn probed(self, before: Device, after: Device, rc: i32) -> bool {
        after == before && rc == match self {
            KernelDriver::Dummy => -1i32,
            KernelDriver::Probe => 0i32,
        }
    }

    open spec fn removed(self, before: Device, after: Device) -> bool {
        after == before
    }

    fn probe(&self, _dev: &mut Device) -> (rc: i32) {
        match self {
            KernelDriver::Dummy => -1,
            KernelDriver::Probe => 0,
        }
    }

    fn remove(&self, _dev: &mut Device) {
    }
}

/// A device stays registered, whatever drivers of the kernel it is offered to.
pub proof fn lemma_bound_stays_active(
    ds: Seq<Driver<KernelDriver>>,
    i: int,
    before: Device,
    after: Device,
)
    requires
        0 <= i,
        drivers::bound_from(ds, i, before, after),
    ensures
        after.active == before.active,
    decreases ds.len() - i,
{
    if i < ds.len() {
        if ds[i].active && ds[i].fits(before) {
            let (mid, rc) = choose|mid: Device, rc: i32| #[trigger]
                ds[i].ops.probed(before, mid, rc) && (if rc == 0 {
                    after == (Device { driver_index: i as i32, ..mid })
                } else {
                    drivers::bound_from(ds, i + 1, mid, after)
                });
            if rc != 0 {
                lemma_bound_stays_active(ds, i + 1, mid, after);
            }
        } else {
            lemma_bound_stays_active(ds, i + 1, before, after);
        }
    }
}

/// The subsystems of the kernel.
pub struct Kernel {
    pub frames: FrameAllocator,
    pub tasks: Scheduler,
    pub ids: TaskIds,
    pub vfs: Vfs,
    pub ipc: Ipc,
    pub devices: DeviceManager<KernelDriver>,
}

/// What the subsystems hold, and the bytes of the RAM.
#[verifier::ext_equal]
pub struct World {
    pub mem: Mem,
    pub tasks: Tasks,
    pub ids: TaskIds,
    pub vfs: Tables,
    pub ipc: Seq<Channel>,
    pub devices: Seq<Device>,
    pub drivers: Seq<Driver<KernelDriver>>,
    pub next_device: u32,
}

impl Kernel {
    /// What the subsystems hold when the RAM holds `bytes`.
    pub open spec fn world(&self, bytes: Seq<u8>) -> World {
        World {
            mem: paging::mem(&self.frames, bytes),
            tasks: self.tasks@,
            ids: self.ids,
            vfs: self.vfs@,
            ipc: self.ipc@,
            devices: self.devices.devices@,
            drivers: self.devices.drivers@,
            next_device: self.devices.next_device_id,
        }
    }

    /// Every subsystem is in order, and the RAM holds what they point to.
    pub open spec fn wf(&self, bytes: Seq<u8>) -> bool {
        &&& self.frames.wf()
        &&& paging::mem(&self.frames, bytes).sane()
        &&& self.tasks.wf()
        &&& self.vfs.wf()
        &&& self.vfs@.pages_in_ram(bytes.len() as int)
        &&& self.ipc.wf()
    }

    /// A kernel in which no subsystem has been started.
    pub fn new() -> (r: Kernel)
        ensures
            r.frames.wf(),
            r.frames@.total == 0,
            r.tasks.wf(),
            !r.tasks.active,
            r.tasks.current_thread == -1,
            r.tasks.tick_count == 0,
            forall|i: int|
                0 <= i < crate::scheduler::MAX_THREADS ==> #[trigger] r.tasks.threads@[i] is None,
            forall|i: int|
                0 <= i < crate::scheduler::MAX_PROCESSES
                    ==> #[trigger] r.tasks.processes@[i] is None,
            r.ids == (TaskIds { next_pid: 1, next_tid: 1 }),
            r.vfs@ == Tables::blank(),
            r.ipc.wf(),
            forall|i: int| 0 <= i < crate::ipc::MAX_ENDPOINTS ==> !(#[trigger] r.ipc@[i]).active,
            forall|i: int|
                0 <= i < crate::drivers::MAX_DEVICES ==> #[trigger] r.devices.devices@[i]
                    == Device::spec_empty(),
            forall|i: int|
                0 <= i < crate::drivers::MAX_DRIVERS ==> !(
                #[trigger] r.devices.drivers@[i]).active,
            r.devices.next_device_id == 1,
            forall|bytes: Seq<u8>| #[trigger] r.wf(bytes),
    {
        let r = Kernel {
            frames: FrameAllocator::new(),
            tasks: Scheduler::new(),
            ids: TaskIds::new(),
            vfs: Vfs::new(),
            ipc: Ipc::new(),
            devices: DeviceManager::new(KernelDriver::Dummy),
        };
        r
    }
}

} // verus!
