use nonameos::drivers::bus::pci::{self, PciDeviceInfo, PciScan, HEADER_WORDS};
use nonameos::drivers::linux_shim::{self, AtomicInt, LogLevel, Logger, SpinLock};
use nonameos::drivers::{self, BusType, Device, DeviceClass, DeviceManager, Driver, DummyOps};
use nonameos::ipc::{self, Ipc, Message, MessageType};
use nonameos::kernel::KernelDriver;
use nonameos::memory::phys::{self, FrameAllocator};
use nonameos::vfs::{self, Backend, InodeType, OpenMode, Vfs};

const MEMORY: usize = 4 * 1024 * 1024;

fn memory() -> (Box<FrameAllocator>, Vec<u8>) {
    let mut a = Box::new(FrameAllocator::new());
    phys::init(&mut a, MEMORY, 0x10_0000, 0x10_2000);
    (a, vec![0xAAu8; MEMORY])
}

fn payload(m: &Message) -> Vec<u8> {
    m.payload[..m.payload_len].to_vec()
}

// Messages.

#[test]
fn messages_keep_their_order() {
    let mut i = Ipc::new();
    let e = ipc::register_endpoint(&mut i, "echo", 3).unwrap();
    for n in 0..3u32 {
        assert!(ipc::send(&mut i, e, Message::request(n, &[n as u8; 4])).is_ok());
    }
    for n in 0..3u32 {
        let m = ipc::receive(&mut i, e).unwrap();
        assert_eq!(m.opcode, n);
        assert_eq!(m.msg_type, MessageType::Request);
        assert_eq!(payload(&m), vec![n as u8; 4]);
    }
    assert!(ipc::receive(&mut i, e).is_none());
}

#[test]
fn a_full_queue_takes_no_message() {
    let mut i = Ipc::new();
    let e = ipc::register_endpoint(&mut i, "full", 0).unwrap();
    for n in 0..16u32 {
        assert_eq!(ipc::send(&mut i, e, Message::request(n, &[])), Ok(()));
    }
    assert_eq!(ipc::send(&mut i, e, Message::request(16, &[])), Err("queue full"));
    assert_eq!(ipc::receive(&mut i, e).unwrap().opcode, 0);
    assert_eq!(ipc::send(&mut i, e, Message::request(16, &[])), Ok(()));
    for n in 1..17u32 {
        assert_eq!(ipc::receive(&mut i, e).unwrap().opcode, n);
    }
}

#[test]
fn endpoints_do_not_share_messages() {
    let mut i = Ipc::new();
    let a = ipc::register_endpoint(&mut i, "a", 1).unwrap();
    let b = ipc::register_endpoint(&mut i, "b", 2).unwrap();
    assert_ne!(a, b);
    ipc::send(&mut i, a, Message::request(7, b"x")).unwrap();
    assert!(ipc::receive(&mut i, b).is_none());
    assert_eq!(payload(&ipc::receive(&mut i, a).unwrap()), b"x".to_vec());
}

#[test]
fn endpoints_are_found_until_they_go() {
    let mut i = Ipc::new();
    assert_eq!(ipc::find_endpoint(&i, "fs"), None);
    let e = ipc::register_endpoint(&mut i, "fs", 9);
    assert_eq!(e, Some(0));
    assert_eq!(ipc::find_endpoint(&i, "fs"), e);
    assert_eq!(ipc::find_endpoint(&i, "f"), None);
    ipc::unregister_endpoint(&mut i, 0);
    assert_eq!(ipc::find_endpoint(&i, "fs"), None);
    assert_eq!(ipc::send(&mut i, 0, Message::empty()), Err("invalid endpoint"));
    assert_eq!(ipc::send(&mut i, 64, Message::empty()), Err("invalid endpoint"));
    assert!(ipc::receive(&mut i, 99).is_none());
}

#[test]
fn there_is_room_for_64_endpoints() {
    let mut i = Ipc::new();
    for n in 0..64usize {
        assert_eq!(ipc::register_endpoint(&mut i, "same", 0), Some(n));
    }
    assert_eq!(ipc::register_endpoint(&mut i, "one more", 0), None);
    assert_eq!(ipc::register_name(&mut i, b"bytes", 0), None);
}

#[test]
fn long_payloads_are_cut() {
    let m = Message::request(1, &[5u8; 300]);
    assert_eq!(m.payload_len, 256);
    let r = Message::response(2, -4, b"no");
    assert_eq!((r.msg_type, r.opcode, r.status), (MessageType::Response, 2, -4));
    assert_eq!(payload(&r), b"no".to_vec());
}

#[test]
fn a_name_has_32_bytes_at_most() {
    let mut i = Ipc::new();
    let long = "abcdefghijklmnopqrstuvwxyz0123456";
    assert_eq!(ipc::register_endpoint(&mut i, long, 0), None);
    assert_eq!(ipc::register_endpoint(&mut i, &long[..32], 0), Some(0));
    assert_eq!(ipc::find_endpoint(&i, &long[..32]), Some(0));
}

#[test]
fn kinds_of_messages_have_their_numbers() {
    assert_eq!(MessageType::Request.number(), 1);
    assert_eq!(MessageType::Response.number(), 2);
    assert_eq!(MessageType::Notification.number(), 3);
    assert_eq!(MessageType::Error.number(), 4);
}

// Files.

fn files() -> Box<Vfs> {
    let mut v = Box::new(Vfs::new());
    vfs::init(&mut v);
    v
}

#[test]
fn a_fresh_root_has_its_directories() {
    let v = files();
    assert_eq!(vfs::path_lookup(&v, b"/"), Some(0));
    let mut place = 1;
    for p in ["/dev", "/sys", "/proc", "/mnt", "/tmp", "/drives"] {
        assert_eq!(vfs::path_lookup(&v, p.as_bytes()), Some(place));
        place += 1;
    }
    assert_eq!(vfs::path_lookup(&v, b"/nope"), None);
    assert_eq!(vfs::path_lookup(&v, b"/dev/nope"), None);
    assert_eq!(vfs::path_lookup(&v, b""), None);
    assert_eq!(vfs::path_lookup(&v, b"//tmp/"), Some(5));
    let d = vfs::get_dentry(&v, 0).unwrap();
    assert_eq!(vfs::get_inode(&v, d.inode_idx).unwrap().itype, InodeType::Directory);
    assert_eq!(vfs::get_superblock(&v, 0).unwrap().ops.alloc_inode, Backend::Ramfs);
}

#[test]
fn initialising_again_starts_from_scratch() {
    let (mut a, mut m) = memory();
    let mut v = files();
    vfs::create(&mut v, &mut a, &mut m, b"/tmp", b"x", InodeType::File).unwrap();
    vfs::init(&mut v);
    assert_eq!(vfs::path_lookup(&v, b"/tmp/x"), None);
    assert_eq!(vfs::path_lookup(&v, b"/tmp"), Some(5));
}

#[test]
fn a_created_entry_is_found() {
    let (mut a, mut m) = memory();
    let mut v = files();
    let d = vfs::create(&mut v, &mut a, &mut m, b"/tmp", b"dir", InodeType::Directory);
    assert_eq!(d, Some(7));
    assert_eq!(vfs::path_lookup(&v, b"/tmp/dir"), d);
    let f = vfs::create(&mut v, &mut a, &mut m, b"/tmp/dir", b"f", InodeType::File);
    assert_eq!(vfs::path_lookup(&v, b"/tmp/dir/f"), f);
    assert_eq!(vfs::path_lookup(&v, b"/tmp/f"), None);
}

#[test]
fn entries_are_made_in_directories_alone() {
    let (mut a, mut m) = memory();
    let mut v = files();
    vfs::create(&mut v, &mut a, &mut m, b"/tmp", b"f", InodeType::File).unwrap();
    assert_eq!(vfs::create(&mut v, &mut a, &mut m, b"/tmp/f", b"g", InodeType::File), None);
    assert_eq!(vfs::create(&mut v, &mut a, &mut m, b"/none", b"g", InodeType::File), None);
}

#[test]
fn a_read_gives_back_what_was_written() {
    let (mut a, mut m) = memory();
    let mut v = files();
    vfs::create(&mut v, &mut a, &mut m, b"/tmp", b"f", InodeType::File).unwrap();
    vfs::create(&mut v, &mut a, &mut m, b"/tmp", b"g", InodeType::File).unwrap();
    let f = vfs::open(&mut v, b"/tmp/f", OpenMode::ReadWrite.bits()).unwrap();
    let g = vfs::open(&mut v, b"/tmp/g", OpenMode::ReadWrite.bits()).unwrap();
    assert_ne!(f, g);
    assert_eq!(vfs::write(&mut v, &mut a, &mut m, f, b"hello"), 5);
    assert_eq!(vfs::write(&mut v, &mut a, &mut m, g, b"other"), 5);
    assert_eq!(vfs::write(&mut v, &mut a, &mut m, f, b" world"), 6);
    let mut buf = [b'-'; 16];
    assert_eq!(vfs::read(&mut v, &m, f, &mut buf), 0);
    assert!(vfs::seek(&mut v, f, 0));
    assert_eq!(vfs::read(&mut v, &m, f, &mut buf), 11);
    assert_eq!(&buf[..12], b"hello world-");
    assert!(vfs::seek(&mut v, g, 2));
    assert_eq!(vfs::read(&mut v, &m, g, &mut buf), 3);
    assert_eq!(&buf[..3], b"her");
}

#[test]
fn a_file_is_one_page_long_at_most() {
    let (mut a, mut m) = memory();
    let mut v = files();
    vfs::create(&mut v, &mut a, &mut m, b"/tmp", b"f", InodeType::File).unwrap();
    let f = vfs::open(&mut v, b"/tmp/f", 2).unwrap();
    assert!(vfs::seek(&mut v, f, 4094));
    assert_eq!(vfs::write(&mut v, &mut a, &mut m, f, b"abc"), 2);
    assert_eq!(vfs::write(&mut v, &mut a, &mut m, f, b"abc"), 0);
    assert!(vfs::seek(&mut v, f, 4090));
    let mut buf = [9u8; 8];
    assert_eq!(vfs::read(&mut v, &m, f, &mut buf), 6);
    assert_eq!(buf, [0, 0, 0, 0, b'a', b'b', 9, 9]);
}

#[test]
fn a_closed_file_gives_nothing() {
    let (mut a, mut m) = memory();
    let mut v = files();
    vfs::create(&mut v, &mut a, &mut m, b"/tmp", b"f", InodeType::File).unwrap();
    let f = vfs::open(&mut v, b"/tmp/f", 2).unwrap();
    vfs::close(&mut v, f);
    let mut buf = [0u8; 4];
    assert_eq!(vfs::read(&mut v, &m, f, &mut buf), -1);
    assert_eq!(vfs::write(&mut v, &mut a, &mut m, f, b"x"), -1);
    assert!(!vfs::seek(&mut v, f, 0));
    assert_eq!(vfs::open(&mut v, b"/tmp/f", 0), Some(f));
    assert_eq!(vfs::open(&mut v, b"/tmp/none", 0), None);
    assert_eq!(vfs::read(&mut v, &m, 500, &mut buf), -1);
}

#[test]
fn writing_without_memory_fails() {
    let (mut a, mut m) = memory();
    let mut v = files();
    while phys::alloc_frame(&mut a).is_some() {}
    vfs::create(&mut v, &mut a, &mut m, b"/tmp", b"f", InodeType::File).unwrap();
    let f = vfs::open(&mut v, b"/tmp/f", 2).unwrap();
    assert_eq!(vfs::write(&mut v, &mut a, &mut m, f, b"x"), -1);
    phys::free_frame(&mut a, 0x10_2000);
    assert_eq!(vfs::write(&mut v, &mut a, &mut m, f, b"x"), 1);
    assert_eq!(m[0x10_2000], b'x');
}

#[test]
fn the_tables_run_full() {
    let (mut a, mut m) = memory();
    let mut v = files();
    for n in 0..249u32 {
        let name = format!("f{}", n);
        assert!(vfs::create(&mut v, &mut a, &mut m, b"/tmp", name.as_bytes(), InodeType::Symlink)
            .is_some());
    }
    assert_eq!(vfs::create(&mut v, &mut a, &mut m, b"/tmp", b"more", InodeType::Symlink), None);
    for n in 0..128usize {
        assert_eq!(vfs::open(&mut v, b"/tmp", 0), Some(n));
    }
    assert_eq!(vfs::open(&mut v, b"/tmp", 0), None);
}

#[test]
fn slots_of_the_tables_can_be_had_and_reached() {
    let mut v = files();
    assert_eq!(vfs::alloc_superblock(&v), Some(1));
    assert_eq!(vfs::alloc_dentry(&v), Some(7));
    assert_eq!(vfs::alloc_inode_slot(&mut v), Some(7));
    vfs::get_inode_mut(&mut v, 7).unwrap().size = 12;
    assert_eq!(vfs::get_inode(&v, 7).unwrap().size, 12);
    vfs::get_dentry_mut(&mut v, 6).unwrap().set_name(b"named");
    assert!(vfs::get_dentry(&v, 6).unwrap().name_eq(b"named"));
    assert!(!vfs::get_dentry(&v, 6).unwrap().name_eq(b"name"));
    assert_eq!(vfs::path_lookup(&v, b"/named"), Some(6));
    assert!(vfs::get_dentry(&v, 7).is_none());
    assert!(vfs::get_superblock_mut(&mut v, 8).is_none());
    assert!(vfs::get_inode(&v, 256).is_none());
    assert!(vfs::get_dentry(&v, 256).is_none());
}

#[test]
fn kinds_of_inodes_and_modes_have_their_numbers() {
    assert_eq!(InodeType::File.number(), 1);
    assert_eq!(InodeType::Directory.number(), 2);
    assert_eq!(OpenMode::ReadOnly.bits(), 0);
    assert_eq!(OpenMode::Truncate.bits(), 16);
}

// Devices and drivers.

fn device(vendor: u16, id: u16) -> Device {
    let mut d = Device::empty();
    d.bus = BusType::Pci;
    d.vendor_id = vendor;
    d.device_id = id;
    d
}

fn driver(ops: KernelDriver, vendor: u16, id: u16) -> Driver<KernelDriver> {
    let mut d = Driver::empty(ops);
    d.bus = BusType::Pci;
    d.match_vendor = vendor;
    d.match_device = id;
    d
}

#[test]
fn a_device_is_bound_to_the_first_driver_that_takes_it() {
    let mut m = Box::new(DeviceManager::new(KernelDriver::Dummy));
    assert_eq!(drivers::register_driver(&mut m, driver(KernelDriver::Dummy, 0x8086, 0xFFFF)), Some(0));
    assert_eq!(drivers::register_driver(&mut m, driver(KernelDriver::Probe, 0x8086, 1)), Some(1));
    assert_eq!(drivers::register_driver(&mut m, driver(KernelDriver::Probe, 0xFFFF, 0xFFFF)), Some(2));
    assert_eq!(drivers::register_device(&mut m, device(0x8086, 1)), Some(0));
    assert_eq!(drivers::register_device(&mut m, device(0x8086, 2)), Some(1));
    assert_eq!(drivers::get_device(&m, 0).unwrap().driver_index, 1);
    assert_eq!(drivers::get_device(&m, 1).unwrap().driver_index, 2);
    assert_eq!(drivers::get_device(&m, 0).unwrap().id, 1);
    assert_eq!(drivers::get_device(&m, 1).unwrap().id, 2);
    assert_eq!((drivers::device_count(&m), drivers::driver_count(&m)), (2, 3));
}

#[test]
fn devices_without_a_match_stay_alone() {
    let mut m = Box::new(DeviceManager::new(KernelDriver::Dummy));
    drivers::register_driver(&mut m, driver(KernelDriver::Probe, 0x1111, 0x2222));
    drivers::register_device(&mut m, device(0x1111, 0x3333));
    let mut usb = device(0x1111, 0x2222);
    usb.bus = BusType::Usb;
    drivers::register_device(&mut m, usb);
    assert_eq!(drivers::get_device(&m, 0).unwrap().driver_index, -1);
    assert_eq!(drivers::get_device(&m, 1).unwrap().driver_index, -1);
    assert!(drivers::get_device(&m, 2).is_none());
}

#[test]
fn a_new_driver_is_offered_the_devices_without_one() {
    let mut m = Box::new(DeviceManager::new(KernelDriver::Dummy));
    drivers::register_device(&mut m, device(1, 1));
    drivers::register_device(&mut m, device(1, 2));
    drivers::register_driver(&mut m, driver(KernelDriver::Probe, 1, 2));
    drivers::register_driver(&mut m, driver(KernelDriver::Probe, 1, 0xFFFF));
    assert_eq!(drivers::get_device(&m, 0).unwrap().driver_index, 1);
    assert_eq!(drivers::get_device(&m, 1).unwrap().driver_index, 0);
    drivers::get_device_mut(&mut m, 1).unwrap().irq = 11;
    assert_eq!(drivers::get_device(&m, 1).unwrap().irq, 11);
}

#[test]
fn the_device_table_runs_full() {
    let mut m = Box::new(DeviceManager::new(DummyOps));
    for n in 0..64usize {
        assert_eq!(drivers::register_device(&mut m, device(1, 1)), Some(n));
    }
    assert_eq!(drivers::register_device(&mut m, device(1, 1)), None);
    for n in 0..32usize {
        assert_eq!(drivers::register_driver(&mut m, Driver::empty(DummyOps)), Some(n));
    }
    assert_eq!(drivers::register_driver(&mut m, Driver::empty(DummyOps)), None);
}

#[test]
fn names_of_devices_are_cut() {
    let mut d = Device::empty();
    d.set_name("abcdefghijklmnopqrstuvwxyz0123456789");
    assert_eq!(d.name_len, 31);
    assert_eq!(d.name[30], b'4');
    assert_eq!(d.name[31], 0);
    let mut r = Driver::empty(DummyOps);
    r.set_name("net");
    assert_eq!((r.name_len, &r.name[..4]), (3, &b"net\0"[..]));
    assert!(!r.matches(&device(1, 1)));
}

// The PCI bus.

fn words(vendor: u16, id: u16, class: u8, header: u8) -> [u32; HEADER_WORDS] {
    let mut w = [0u32; HEADER_WORDS];
    w[0] = vendor as u32 + ((id as u32) << 16);
    w[2] = 0x05 + (0x06 << 8) + (0x07 << 16) + ((class as u32) << 24);
    w[3] = (header as u32) << 16;
    w[4] = 0xFEB0_0004;
    w[5] = 0x0000_0001;
    w[6] = 0x0000_C001;
    w[15] = 0x0B;
    w
}

#[test]
fn addresses_of_the_configuration_space_are_put_together() {
    assert_eq!(pci::pci_address(1, 2, 3, 0x3D), 0x8001_133C);
    assert_eq!(pci::pci_address(255, 31, 7, 255), 0x80FF_FFFC);
    assert_eq!(pci::config_half(0x1234_5678, 0x02), 0x1234);
    assert_eq!(pci::config_half(0x1234_5678, 0x00), 0x5678);
    assert_eq!(pci::config_byte(0x1234_5678, 0x0B), 0x12);
    assert_eq!(pci::config_byte(0x1234_5678, 0x08), 0x78);
    assert_eq!(pci::bus_master_command(0x0010, 0xABCD_0010), 0xABCD_0017);
}

#[test]
fn a_function_is_described_by_its_header() {
    let i = PciDeviceInfo::read(1, 2, 0, &words(0x8086, 0x100E, 2, 0)).unwrap();
    assert_eq!((i.bus, i.device, i.function), (1, 2, 0));
    assert_eq!((i.vendor_id, i.device_id), (0x8086, 0x100E));
    assert_eq!((i.class_code, i.subclass, i.prog_if, i.revision), (2, 7, 6, 5));
    assert_eq!(i.irq_line, 11);
    assert_eq!(i.to_device_class(), DeviceClass::Network);
    assert!(i.has_mmio());
    assert_eq!(i.bar_address(0), 0x1_FEB0_0000);
    assert_eq!(i.bar_address(2), 0xC000);
    assert_eq!(i.bar_address(6), 0);
    assert!(PciDeviceInfo::read(0, 0, 0, &words(0xFFFF, 0, 0, 0)).is_none());
    let bridge = PciDeviceInfo::read(0, 0, 0, &words(1, 1, 6, 1)).unwrap();
    assert_eq!(bridge.bar, [0; 6]);
    assert_eq!(bridge.to_device_class(), DeviceClass::Unknown);
    assert_eq!(PciDeviceInfo::blank().vendor_id, 0);
}

#[test]
fn the_size_of_a_region_is_read_from_its_mask() {
    assert_eq!(PciDeviceInfo::bar_size(0, 0xFEB0_0000, 0xFFFE_0000), 0x2_0000);
    assert_eq!(PciDeviceInfo::bar_size(2, 0xC001, 0xFFFF_FFC1), 0x40);
    assert_eq!(PciDeviceInfo::bar_size(0, 0, 0), 0);
    assert_eq!(PciDeviceInfo::bar_size(0, 0, 0xFFFF_FFFF), 0);
    assert_eq!(PciDeviceInfo::bar_size(6, 0, 0xFFFE_0000), 0);
}

#[test]
fn a_pci_function_becomes_a_device() {
    let mut m = Box::new(DeviceManager::new(KernelDriver::Dummy));
    let i = PciDeviceInfo::read(0, 3, 0, &words(0x8086, 0x100E, 2, 0)).unwrap();
    assert_eq!(pci::register_pci_device(&mut m, &i, 0xFEB0_0004, 0xFFFE_0004), Some(0));
    let d = drivers::get_device(&m, 0).unwrap();
    assert_eq!(&d.name[..d.name_len], b"pci:8086:100e");
    assert_eq!(d.class, DeviceClass::Network);
    assert_eq!(d.bus, BusType::Pci);
    assert_eq!((d.mmio_base, d.mmio_size), (0x1_FEB0_0000, 0x2_0000));
    assert_eq!(d.irq, 11);
}

/// Scans a bus on which some places answer.
fn scan(answer: &dyn Fn(u8, u8, u8) -> Option<[u32; HEADER_WORDS]>) -> PciScan {
    let mut s = PciScan::new();
    while let Some((b, d, f)) = s.position() {
        let w = answer(b, d, f).unwrap_or([0xFFFF_FFFF; HEADER_WORDS]);
        s.advance(&w);
    }
    s
}

#[test]
fn a_scan_starts_without_functions() {
    let s = PciScan::new();
    assert_eq!((s.device_count, s.found), (0, 0));
    assert_eq!(s.position(), Some((0, 0, 0)));
    for d in s.devices.iter() {
        assert_eq!((d.bus, d.device, d.function), (0, 0, 0));
        assert_eq!((d.vendor_id, d.device_id, d.irq_line), (0, 0, 0));
        assert_eq!(d.bar, [0; 6]);
    }
}

#[test]
fn a_scan_finds_every_function() {
    let s = scan(&|b, d, f| match (b, d, f) {
        (0, 0, 0) => Some(words(1, 10, 6, 0)),
        (0, 5, 0) => Some(words(1, 20, 1, 0x80)),
        (0, 5, 7) => Some(words(1, 27, 1, 0)),
        (0, 6, 3) => Some(words(1, 99, 1, 0)),
        (255, 31, 0) => Some(words(1, 30, 3, 0)),
        _ => None,
    });
    let found: Vec<u16> =
        (0..pci::pci_device_count(&s)).map(|i| pci::get_pci_device(&s, i).unwrap().device_id).collect();
    assert_eq!(found, vec![10, 20, 27, 30]);
    assert!(pci::get_pci_device(&s, 4).is_none());
}

#[test]
fn a_scan_keeps_32_functions() {
    let mut s = scan(&|_, d, f| if f == 0 { Some(words(1, d as u16, 1, 0)) } else { None });
    assert_eq!(pci::pci_device_count(&s), 32);
    assert_eq!(pci::get_pci_device(&s, 31).unwrap().device_id, 31);
    s.restart();
    assert_eq!(s.position(), Some((0, 0, 0)));
    assert_eq!(pci::pci_device_count(&s), 32);
}

// Services for drivers.

#[test]
fn memory_for_drivers_comes_in_pages() {
    let (mut a, mut m) = memory();
    let before = phys::free_count(&a);
    let p = linux_shim::kmalloc(&mut a, &mut m, 5000, linux_shim::GFP_KERNEL);
    assert_eq!(p, 0x10_2000);
    assert_eq!(phys::free_count(&a), before - 2);
    assert_eq!(m[p], 0xAA);
    let z = linux_shim::kzalloc(&mut a, &mut m, 10, linux_shim::GFP_KERNEL);
    assert_eq!(z, 0x10_4000);
    assert!(m[z..z + 4096].iter().all(|b| *b == 0));
    assert_eq!(m[z + 4096], 0xAA);
    assert_eq!(linux_shim::kmalloc(&mut a, &mut m, 0, 0), 0);
    assert_eq!(linux_shim::kmalloc(&mut a, &mut m, MEMORY, 0), 0);
}

#[test]
fn freed_memory_of_drivers_comes_back() {
    let (mut a, mut m) = memory();
    let before = phys::free_count(&a);
    let p = linux_shim::kmalloc(&mut a, &mut m, 100, 0);
    linux_shim::kfree(&mut a, p);
    assert_eq!(phys::free_count(&a), before);
    linux_shim::kfree(&mut a, 0);
    assert_eq!(phys::free_count(&a), before);
}

#[test]
fn a_spin_lock_is_held_once() {
    let mut l = SpinLock::new();
    assert!(l.try_lock());
    assert!(!l.try_lock());
    l.unlock();
    l.lock();
    assert!(!l.try_lock());
}

#[test]
fn atomic_numbers_wrap_around() {
    let mut a = AtomicInt::new(5);
    assert_eq!(a.add(3), 5);
    assert_eq!(a.sub(10), 8);
    assert_eq!(a.read(), -2);
    a.set(i32::MAX);
    assert_eq!(a.inc(), i32::MAX);
    assert_eq!(a.read(), i32::MIN);
    assert_eq!(a.dec(), i32::MIN);
    assert_eq!(a.read(), i32::MAX);
}

#[test]
fn messages_below_the_level_are_shown() {
    let mut l = Logger::new();
    assert_eq!(l.prefix(LogLevel::Info), Some("[INFO] "));
    assert_eq!(l.prefix(LogLevel::Debug), None);
    linux_shim::set_log_level(&mut l, LogLevel::Error);
    assert_eq!(l.prefix(LogLevel::Error), Some("[ERR]  "));
    assert_eq!(l.prefix(LogLevel::Warning), None);
    assert_eq!(LogLevel::Debug.number(), 7);
}

#[test]
fn delays_are_counted_in_rounds() {
    assert_eq!(linux_shim::udelay_rounds(3), 3000);
    assert_eq!(linux_shim::mdelay_rounds(2), 2_000_000);
    assert_eq!(linux_shim::ioremap(0xFEB0_0000, 4096), 0xFEB0_0000);
}
