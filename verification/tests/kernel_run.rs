use nonameos::boot;
use nonameos::clock;
use nonameos::drivers;
use nonameos::ipc;
use nonameos::kernel::{Kernel, ASSUMED_MEMORY};
use nonameos::ktest::run;
use nonameos::ktest::{self, BootEventType, BootLog, BootMode, Diagnostics, Health, Severity};
use nonameos::ktest::{Subsystem, Verdict};
use nonameos::kthread;
use nonameos::memory::phys::{self, FrameAllocator};
use nonameos::memory::ram;
use nonameos::scheduler::{self, Scheduler};
use nonameos::syscall::{self, FAILED};
use nonameos::task::{self, Priority, Process, TaskIds, TaskState, Thread};
use nonameos::vfs::{self, InodeType};

const KERNEL_END: usize = 0x20_0000;

fn booted() -> (Box<Kernel>, Vec<u8>) {
    let mut k = Box::new(Kernel::new());
    boot::start(&mut k, KERNEL_END);
    let mut m = vec![0xAAu8; ASSUMED_MEMORY];
    boot::start_threads(&mut k, &mut m, 0x1000, 0x2000, 0x3000);
    (k, m)
}

// Threads.

fn tasks() -> (Box<Scheduler>, TaskIds, Box<FrameAllocator>, Vec<u8>) {
    let mut s = Box::new(Scheduler::new());
    scheduler::init(&mut s);
    let mut a = Box::new(FrameAllocator::new());
    phys::init(&mut a, 4 * 1024 * 1024, 0x10_0000, 0x10_2000);
    (s, TaskIds::new(), a, vec![0xAAu8; 4 * 1024 * 1024])
}

fn state(s: &Scheduler, i: usize) -> TaskState {
    s.threads[i].unwrap().state
}

#[test]
fn a_thread_starts_as_its_process_made_it() {
    let mut t = Thread::new(3, 2, 0x1000, 0x8000);
    assert_eq!((t.tid, t.pid, t.state), (3, 2, TaskState::Created));
    assert_eq!((t.context.rip, t.context.rsp, t.context.rflags), (0x1000, 0x8000, 0x200));
    t.set_name("worker");
    assert_eq!(&t.name[..7], b"worker\0");
    t.set_name("a name that is longer than thirty-one bytes");
    assert_eq!(&t.name[..32], b"a name that is longer than thir\0");
    let mut p = Process::new(2, 0x5000);
    p.set_name("proc");
    assert_eq!((p.pid, p.cr3, p.thread_count), (2, 0x5000, 0));
    let mut ids = TaskIds::new();
    assert_eq!((task::alloc_pid(&mut ids), task::alloc_pid(&mut ids)), (1, 2));
    assert_eq!((task::alloc_tid(&mut ids), task::alloc_tid(&mut ids)), (1, 2));
    assert!(Priority::Idle < Priority::Low && Priority::High < Priority::Realtime);
    assert_eq!(Priority::Realtime.level(), 4);
}

#[test]
fn the_scheduler_starts_with_the_idle_thread() {
    let (s, _, _, _) = tasks();
    assert_eq!(scheduler::thread_count(&s), 1);
    assert_eq!(scheduler::process_count(&s), 1);
    assert_eq!((scheduler::current_pid(&s), scheduler::current_tid(&s)), (0, 0));
    assert_eq!(state(&s, 0), TaskState::Running);
    assert_eq!(s.threads[0].unwrap().priority, Priority::Idle);
    assert_eq!(scheduler::get_thread_name(&s, 0), Some(b"idle".to_vec()));
    assert_eq!(scheduler::get_thread_name(&s, 1), None);
    assert_eq!(scheduler::get_thread_name(&s, 64), None);
}

#[test]
fn a_scheduler_that_was_not_started_does_nothing() {
    let mut s = Box::new(Scheduler::new());
    assert!(scheduler::schedule(&mut s).is_none());
    assert!(scheduler::exit_current(&mut s).is_none());
    assert_eq!(scheduler::current_tid(&s), 0);
    assert_eq!(scheduler::thread_count(&s), 0);
}

#[test]
fn a_new_thread_starts_at_its_entry() {
    let (mut s, mut ids, mut a, mut m) = tasks();
    let before = phys::free_count(&a);
    let t = scheduler::spawn_kernel_thread(&mut s, &mut ids, &mut a, &mut m, 0xABCD, "one");
    assert_eq!(t, Some(1));
    assert_eq!(phys::free_count(&a), before - 4);
    let top = 0x10_2000 + 16_384;
    let th = s.threads[1].unwrap();
    assert_eq!((th.kernel_stack, th.context.rsp), (top as u64, top as u64 - 56));
    assert_eq!((th.state, th.priority), (TaskState::Ready, Priority::Normal));
    assert_eq!(ram::read_u64(&m, top - 8), 0xABCD);
    assert_eq!(ram::read_u64(&m, top - 16), 0);
    assert_eq!(ram::read_u64(&m, top - 56), 0);
    assert_eq!(s.processes[0].unwrap().thread_count, 2);
    let w = scheduler::schedule(&mut s).unwrap();
    assert_eq!((w.from, w.to, w.rsp, w.cr3), (0, 1, top as u64 - 56, None));
    assert_eq!((state(&s, 0), state(&s, 1)), (TaskState::Ready, TaskState::Running));
}

#[test]
fn waiting_threads_take_turns() {
    let (mut s, mut ids, mut a, mut m) = tasks();
    for name in ["a", "b", "c"] {
        scheduler::spawn_kernel_thread(&mut s, &mut ids, &mut a, &mut m, 1, name);
    }
    let mut order = vec![];
    for _ in 0..6 {
        order.push(scheduler::schedule(&mut s).unwrap().to);
    }
    assert_eq!(order, vec![1, 2, 3, 1, 2, 3]);
}

#[test]
fn the_highest_priority_goes_first() {
    let (mut s, mut ids, mut a, mut m) = tasks();
    for (name, p) in [("low", Priority::Low), ("high", Priority::High), ("rt", Priority::Realtime)] {
        scheduler::spawn_kernel_thread_with_priority(
            &mut s, &mut ids, &mut a, &mut m, 1, name, p,
        );
    }
    assert_eq!(scheduler::schedule(&mut s).unwrap().to, 3);
    assert!(scheduler::schedule(&mut s).is_none());
    assert_eq!(scheduler::block_current(&mut s).unwrap().to, 2);
    assert_eq!(scheduler::exit_current(&mut s).unwrap().to, 1);
    assert_eq!(scheduler::exit_current(&mut s).unwrap().to, 0);
    assert_eq!((state(&s, 2), state(&s, 3)), (TaskState::Dead, TaskState::Blocked));
    assert_eq!(scheduler::thread_count(&s), 2);
    scheduler::unblock_thread(&mut s, 2);
    scheduler::unblock_thread(&mut s, 3);
    scheduler::unblock_thread(&mut s, 99);
    assert_eq!((state(&s, 2), state(&s, 3)), (TaskState::Dead, TaskState::Ready));
    assert_eq!(scheduler::schedule(&mut s).unwrap().to, 3);
}

#[test]
fn at_most_one_thread_runs() {
    let (mut s, mut ids, mut a, mut m) = tasks();
    for name in ["a", "b", "c", "d"] {
        scheduler::spawn_kernel_thread(&mut s, &mut ids, &mut a, &mut m, 1, name);
    }
    for step in 0..20 {
        if step % 5 == 3 {
            scheduler::block_current(&mut s);
        } else {
            scheduler::timer_tick(&mut s);
        }
        let running = (0..5).filter(|i| state(&s, *i) == TaskState::Running).count();
        assert_eq!(running, 1);
        if step % 5 == 4 {
            for i in 0..5 {
                scheduler::unblock_thread(&mut s, i);
            }
        }
    }
}

#[test]
fn a_sleep_ends_on_time() {
    let (mut s, mut ids, mut a, mut m) = tasks();
    scheduler::spawn_kernel_thread(&mut s, &mut ids, &mut a, &mut m, 1, "sleeper");
    scheduler::schedule(&mut s);
    assert_eq!(scheduler::sleep_ticks(&mut s, 3).unwrap().to, 0);
    assert!(scheduler::timer_tick(&mut s).is_none());
    assert!(scheduler::timer_tick(&mut s).is_none());
    assert_eq!(state(&s, 1), TaskState::Blocked);
    assert_eq!(scheduler::timer_tick(&mut s).unwrap().to, 1);
    assert_eq!(scheduler::ticks(&s), 3);
}

#[test]
fn the_stack_of_a_thread_is_kept() {
    let (mut s, mut ids, mut a, mut m) = tasks();
    scheduler::spawn_kernel_thread(&mut s, &mut ids, &mut a, &mut m, 1, "a");
    scheduler::save_rsp(&mut s, 1, 0x1234);
    assert_eq!(scheduler::schedule(&mut s).unwrap().rsp, 0x1234);
    scheduler::save_rsp(&mut s, 9, 0x1234);
}

#[test]
fn a_switch_to_another_process_names_its_space() {
    let (mut s, _, _, _) = tasks();
    s.processes[1] = Some(Process::new(7, 0x9000));
    let mut t = Thread::new(5, 7, 0x1000, 0x8000);
    t.state = TaskState::Ready;
    s.threads[4] = Some(t);
    let w = scheduler::schedule(&mut s).unwrap();
    assert_eq!((w.to, w.cr3), (4, Some(0x9000)));
    assert_eq!((scheduler::current_pid(&s), scheduler::current_tid(&s)), (7, 5));
}

#[test]
fn threads_need_a_stack_and_a_slot() {
    let (mut s, mut ids, mut a, mut m) = tasks();
    for n in 1..64u64 {
        let t = scheduler::spawn_kernel_thread(&mut s, &mut ids, &mut a, &mut m, 1, "t");
        assert_eq!(t, Some(n));
    }
    assert_eq!(
        scheduler::spawn_kernel_thread(&mut s, &mut ids, &mut a, &mut m, 1, "t"),
        None
    );
    let (mut s, mut ids, mut a, mut m) = tasks();
    while phys::free_count(&a) > 3 {
        phys::alloc_frame(&mut a);
    }
    assert_eq!(
        scheduler::spawn_kernel_thread(&mut s, &mut ids, &mut a, &mut m, 1, "t"),
        None
    );
    assert_eq!(phys::free_count(&a), 0);
}

#[test]
fn dead_threads_are_reaped_with_their_stacks() {
    let (mut k, mut m) = booted();
    let before = phys::free_count(&k.frames);
    let t = scheduler::spawn_kernel_thread_with_priority(
        &mut k.tasks,
        &mut k.ids,
        &mut k.frames,
        &mut m,
        1,
        "short",
        Priority::Realtime,
    );
    assert_eq!(t, Some(4));
    assert_eq!(phys::free_count(&k.frames), before - 4);
    assert_eq!(scheduler::schedule(&mut k.tasks).unwrap().to, 4);
    assert_eq!(scheduler::exit_current(&mut k.tasks).unwrap().to, 1);
    kthread::kthread_reaper(&mut k, &m);
    assert!(k.tasks.threads[4].is_none());
    assert_eq!(phys::free_count(&k.frames), before);
    assert_eq!(k.tasks.processes[0].unwrap().thread_count, 4);
    assert_eq!(scheduler::thread_count(&k.tasks), 4);
}

#[test]
fn a_dead_thread_that_still_runs_is_not_reaped() {
    let (mut s, mut ids, mut a, mut m) = tasks();
    scheduler::spawn_kernel_thread(&mut s, &mut ids, &mut a, &mut m, 1, "a");
    scheduler::schedule(&mut s);
    s.threads[1].as_mut().unwrap().state = TaskState::Dead;
    scheduler::reap_dead_threads(&mut s, &mut a);
    assert_eq!(state(&s, 1), TaskState::Dead);
}

#[test]
fn threads_are_listed_with_their_state() {
    let (mut s, mut ids, mut a, mut m) = tasks();
    scheduler::spawn_kernel_thread(&mut s, &mut ids, &mut a, &mut m, 1, "one");
    let rows = scheduler::list_threads(&s);
    assert_eq!(rows.len(), 2);
    assert!(rows[0].current && !rows[1].current);
    assert_eq!((rows[1].tid, rows[1].pid), (1, 0));
    assert_eq!(rows[1].name, b"one".to_vec());
    assert_ne!(rows[0].state, rows[1].state);
    assert_ne!(rows[0].priority, rows[1].priority);
}

// Booting and testing.

#[test]
fn a_boot_starts_one_process_and_four_threads() {
    let (k, _) = booted();
    assert_eq!(scheduler::process_count(&k.tasks), 1);
    assert_eq!(scheduler::thread_count(&k.tasks), 4);
    let names: Vec<Vec<u8>> = scheduler::list_threads(&k.tasks).into_iter().map(|r| r.name).collect();
    assert_eq!(
        names,
        vec![b"idle".to_vec(), b"health_mon".to_vec(), b"stats".to_vec(), b"reaper".to_vec()]
    );
    assert_eq!(k.tasks.threads[1].unwrap().priority, Priority::High);
    assert_eq!(phys::total_memory_kb(&k.frames), 64 * 1024);
}

#[test]
fn a_booted_kernel_passes_every_test() {
    let (mut k, mut m) = booted();
    let mut d = Diagnostics::new();
    let r = run::run_all(&mut d, &mut k, &mut m, KERNEL_END).unwrap();
    assert_eq!((r.total, r.passed, r.failed, r.recovered), (19, 19, 0, 0));
    assert_eq!(r.boot_mode, BootMode::Normal);
    assert_eq!(ktest::boot_mode(&d), BootMode::Normal);
    assert_eq!(ktest::degraded_count(&d), 0);
    assert_eq!(ktest::boot_log_count(&d), 19);
    for row in ktest::health_report(&d) {
        assert_eq!((row.status, row.recoveries), (" OK ", 0));
    }
    assert!(ktest::is_subsystem_ok(&d, Subsystem::Vfs));
}

#[test]
fn subsystems_that_were_not_started_are_recovered() {
    let mut k = Box::new(Kernel::new());
    let mut m = vec![0u8; ASSUMED_MEMORY];
    let mut d = Diagnostics::new();
    let r = run::run_all(&mut d, &mut k, &mut m, KERNEL_END).unwrap();
    assert_eq!((r.total, r.passed, r.failed, r.recovered), (19, 19, 0, 3));
    assert_eq!(ktest::health(&d, Subsystem::Memory), Health::Recovered);
    assert_eq!(ktest::health(&d, Subsystem::Vfs), Health::Recovered);
    assert_eq!(ktest::health(&d, Subsystem::Scheduler), Health::Recovered);
    assert_eq!(ktest::health(&d, Subsystem::Ipc), Health::Healthy);
    assert_eq!(ktest::health_report(&d)[1].recoveries, 1);
    assert_eq!(r.boot_mode, BootMode::Normal);
}

#[test]
fn without_memory_the_kernel_halts() {
    let mut k = Box::new(Kernel::new());
    let mut m = vec![0u8; ASSUMED_MEMORY];
    let mut d = Diagnostics::new();
    assert!(run::run_all(&mut d, &mut k, &mut m, ASSUMED_MEMORY).is_none());
    assert_eq!(ktest::health(&d, Subsystem::Memory), Health::Failed);
}

fn concluded(fails: &[usize]) -> (Diagnostics, Option<ktest::TestResults>) {
    let mut d = Diagnostics::new();
    let mut vs = vec![];
    for i in 0..19 {
        let v = if fails.contains(&i) { Verdict::Failed } else { Verdict::Passed };
        ktest::record(&mut d, &mut vs, v);
    }
    let r = ktest::conclude(&mut d, &vs);
    (d, r)
}

#[test]
fn failures_stay_in_their_subsystem() {
    let (d, r) = concluded(&[10]);
    assert_eq!(ktest::health(&d, Subsystem::Ipc), Health::Degraded);
    assert_eq!(ktest::degraded_count(&d), 1);
    assert!(!ktest::is_subsystem_ok(&d, Subsystem::Ipc));
    let r = r.unwrap();
    assert_eq!((r.passed, r.failed, r.boot_mode), (18, 1, BootMode::Normal));
}

#[test]
fn two_degraded_subsystems_mean_safe_mode() {
    let (d, r) = concluded(&[10, 12]);
    assert_eq!(r.unwrap().boot_mode, BootMode::Safe);
    assert_eq!(ktest::boot_mode(&d), BootMode::Safe);
    // 19 tests, two degraded subsystems, and the change of mode.
    assert_eq!(ktest::boot_log_count(&d), 22);
}

#[test]
fn critical_failures_decide_the_boot() {
    assert!(concluded(&[0]).1.is_none());
    assert_eq!(concluded(&[4]).1.unwrap().boot_mode, BootMode::Minimal);
    assert_eq!(concluded(&[14]).1.unwrap().boot_mode, BootMode::Minimal);
    assert_eq!(concluded(&[4, 10, 12]).1.unwrap().boot_mode, BootMode::Minimal);
}

#[test]
fn recovery_is_tried_three_times_at_most() {
    let mut d = Diagnostics::new();
    d.attempts[0] = 3;
    let mut k = Box::new(Kernel::new());
    let mut m = vec![0u8; ASSUMED_MEMORY];
    // The memory is not started, and may not be recovered any more.
    assert!(run::run_all(&mut d, &mut k, &mut m, KERNEL_END).is_none());
    assert_eq!(d.attempts[0], 3);
}

#[test]
fn the_boot_log_keeps_the_last_events() {
    let mut l = BootLog::new();
    for i in 0..70 {
        l.add(1, BootEventType::TestPass, i);
    }
    assert_eq!(l.count, 64);
    assert_eq!(l.events[l.start].test_index, 6);
    assert_eq!(l.events[(l.start + 63) % 64].test_index, 69);
}

#[test]
fn tests_know_their_subsystem() {
    let t = ktest::diag_test(14);
    assert_eq!((t.name, t.subsystem), ("sched::init_state", Subsystem::Scheduler));
    assert_eq!(t.severity, Severity::Critical);
    assert!(t.recovery);
    assert_eq!(ktest::subsystem_name(Subsystem::Drivers.index()), "drivers");
    assert_eq!(ktest::subsystem_name(9), "syscall");
}

#[test]
fn a_running_kernel_is_watched() {
    let (mut k, mut m) = booted();
    let mut d = Diagnostics::new();
    run::run_all(&mut d, &mut k, &mut m, KERNEL_END).unwrap();
    assert_eq!(kthread::kthread_health_monitor(&mut d, &mut k, &m, KERNEL_END), 0);
    vfs::get_dentry_mut(&mut k.vfs, 0).unwrap().active = false;
    while phys::alloc_frame(&mut k.frames).is_some() {}
    assert_eq!(run::runtime_health_check(&mut d, &mut k), 2);
    assert_eq!(ktest::health(&d, Subsystem::Memory), Health::Degraded);
    assert_eq!(ktest::health(&d, Subsystem::Vfs), Health::Degraded);
    // They still fail, and still count.
    assert_eq!(run::runtime_health_check(&mut d, &mut k), 2);
    assert_eq!(ktest::health(&d, Subsystem::Scheduler), Health::Healthy);
}

#[test]
fn what_fails_in_a_running_kernel_is_restored() {
    let (mut k, mut m) = booted();
    let mut d = Diagnostics::new();
    run::run_all(&mut d, &mut k, &mut m, KERNEL_END).unwrap();
    for n in 1..=3u8 {
        vfs::get_dentry_mut(&mut k.vfs, 0).unwrap().active = false;
        assert_eq!(kthread::kthread_health_monitor(&mut d, &mut k, &m, KERNEL_END), 1);
        assert_eq!(ktest::health(&d, Subsystem::Vfs), Health::Recovered);
        assert_eq!(d.attempts[1], n);
        assert!(vfs::path_lookup(&k.vfs, b"/dev").is_some());
    }
    // After three times it stays as it is.
    vfs::get_dentry_mut(&mut k.vfs, 0).unwrap().active = false;
    assert_eq!(kthread::kthread_health_monitor(&mut d, &mut k, &m, KERNEL_END), 1);
    assert_eq!(d.attempts[1], 3);
    assert!(vfs::get_dentry(&k.vfs, 0).is_none());
    while phys::alloc_frame(&mut k.frames).is_some() {}
    assert_eq!(kthread::kthread_health_monitor(&mut d, &mut k, &m, KERNEL_END), 2);
    assert_eq!(ktest::health(&d, Subsystem::Memory), Health::Recovered);
    assert!(phys::free_count(&k.frames) > 0);
}

#[test]
fn a_report_is_written_once_its_file_is_there() {
    let (mut k, mut m) = booted();
    for _ in 0..40 {
        scheduler::timer_tick(&mut k.tasks);
    }
    kthread::kthread_stats(&mut k, &mut m);
    assert!(vfs::path_lookup(&k.vfs, b"/tmp/kstats").is_some());
    kthread::kthread_stats(&mut k, &mut m);
    let free = phys::free_memory_kb(&k.frames);
    let fd = vfs::open(&mut k.vfs, b"/tmp/kstats", 0).unwrap();
    let mut buf = [0u8; 100];
    let n = vfs::read(&mut k.vfs, &m, fd, &mut buf) as usize;
    let want = format!("uptime_s:2 mem:{}/65536KB thr:4 proc:1", free);
    assert_eq!(&buf[..n], want.as_bytes());
}

// System calls.

#[test]
fn system_calls_use_the_segments() {
    let w = syscall::init(0x500, 0xFFFF_8000_0000_1000);
    let pairs: Vec<(u32, u64)> = w.iter().map(|x| (x.msr, x.value)).collect();
    assert_eq!(
        pairs,
        vec![
            (0xC000_0080, 0x501),
            (0xC000_0081, 0x0010_0008_0000_0000),
            (0xC000_0082, 0xFFFF_8000_0000_1000),
            (0xC000_0084, 0x200),
        ]
    );
}

#[test]
fn pointers_of_calls_are_known() {
    assert_eq!(syscall::pointer_of(syscall::SYS_WRITE, 1, 0x400, 9000), Some((0x400, 9000)));
    assert_eq!(syscall::pointer_of(syscall::SYS_WRITE, 5, 0x400, 9000), Some((0x400, 4096)));
    assert_eq!(syscall::pointer_of(syscall::SYS_OPEN, 0x400, 0, 0), Some((0x400, 255)));
    assert_eq!(syscall::pointer_of(syscall::SYS_IPC_REGISTER, 0x400, 50, 0), Some((0x400, 32)));
    assert_eq!(syscall::pointer_of(syscall::SYS_GETPID, 1, 2, 3), None);
}

#[test]
fn what_is_written_to_the_screen_is_handed_out() {
    let (mut k, mut m) = booted();
    let mut user = b"hello".to_vec();
    let r = syscall::syscall_dispatch_inner(&mut k, &mut m, &mut user, syscall::SYS_WRITE, 1, 0, 5);
    assert_eq!(r.value, 5);
    assert_eq!(r.output, b"hello".to_vec());
    assert!(r.switch.is_none());
}

#[test]
fn files_are_used_through_calls() {
    let (mut k, mut m) = booted();
    vfs::create(&mut k.vfs, &mut k.frames, &mut m, b"/tmp", b"f", InodeType::File).unwrap();
    // Number 0 is the keyboard and 1 the screen.
    for _ in 0..2 {
        syscall::sys_open(&mut k, &m, b"/dev\0", 0);
    }
    let fd = syscall::sys_open(&mut k, &m, b"/tmp/f\0rest", 2).value;
    assert_eq!(fd, 2);
    assert_eq!(syscall::sys_write(&mut k, &mut m, b"data!", fd, 4).value, 4);
    vfs::seek(&mut k.vfs, 2, 0);
    let mut user = vec![b'-'; 8];
    assert_eq!(syscall::sys_read(&mut k, &m, &mut user, fd, 8).value, 4);
    assert_eq!(user, b"data----".to_vec());
    assert_eq!(syscall::sys_close(&mut k, &m, fd).value, 0);
    assert_eq!(syscall::sys_read(&mut k, &m, &mut user, fd, 8).value, FAILED);
    assert_eq!(syscall::sys_write(&mut k, &mut m, b"x", fd, 1).value, FAILED);
    assert_eq!(syscall::sys_open(&mut k, &m, b"/none\0", 0).value, FAILED);
    assert_eq!(syscall::sys_read(&mut k, &m, &mut user, 0, 8).value, 0);
}

#[test]
fn sent_data_is_received() {
    let (mut k, mut m) = booted();
    let e = syscall::sys_ipc_register(&mut k, &m, b"srv", 3).value;
    assert_eq!(e, 0);
    assert_eq!(ipc::find_endpoint(&k.ipc, "srv"), Some(0));
    let mut user = vec![0u8; 256];
    assert_eq!(syscall::sys_ipc_recv(&mut k, &m, &mut user, e).value, 0);
    assert_eq!(syscall::sys_ipc_send(&mut k, &m, b"ping", e, 4).value, 0);
    assert_eq!(k.ipc.endpoints[0].queue[0].sender, 0);
    let nr = syscall::SYS_IPC_RECV;
    let r = syscall::syscall_dispatch_inner(&mut k, &mut m, &mut user, nr, e, 0, 0);
    assert_eq!(r.value, 4);
    assert_eq!(&user[..5], b"ping\0");
    assert_eq!(syscall::sys_ipc_send(&mut k, &m, b"ping", 9, 4).value, FAILED);
}

#[test]
fn calls_give_way_to_other_threads() {
    let (mut k, mut m) = booted();
    assert_eq!(syscall::sys_getpid(&k, &m).value, 0);
    let r = syscall::sys_yield(&mut k, &m);
    assert_eq!(r.value, 0);
    assert_eq!(r.switch.unwrap().to, 1);
    let r = syscall::sys_exit(&mut k, &m, 0);
    assert_eq!(r.switch.unwrap().to, 2);
    assert_eq!(scheduler::thread_count(&k.tasks), 3);
    let r = syscall::syscall_dispatch_inner(&mut k, &mut m, &mut [], 99, 0, 0, 0);
    assert_eq!(r.value, FAILED);
}

#[test]
fn a_message_names_its_sender() {
    let (mut k, m) = booted();
    let e = syscall::sys_ipc_register(&mut k, &m, b"srv", 3).value;
    let mut t = k.tasks.threads[0].unwrap();
    t.pid = 7;
    k.tasks.threads[0] = Some(t);
    assert_eq!(syscall::sys_ipc_send(&mut k, &m, b"ping", e, 4).value, 0);
    let got = ipc::receive(&mut k.ipc, 0).unwrap();
    assert_eq!((got.sender, got.opcode, got.payload_len), (7, 0, 4));
    assert_eq!(&got.payload[..4], b"ping");
}

#[test]
fn a_program_makes_a_thread() {
    let (mut k, mut m) = booted();
    let n = scheduler::thread_count(&k.tasks);
    let nr = syscall::SYS_SPAWN;
    let tid = syscall::syscall_dispatch_inner(&mut k, &mut m, &mut [], nr, 0x40_1000, 0, 0).value;
    assert_eq!(scheduler::thread_count(&k.tasks), n + 1);
    let t = k.tasks.threads[n].unwrap();
    assert_eq!((t.tid, t.context.rip), (tid, 0x40_1000));
    assert_eq!(scheduler::get_thread_name(&k.tasks, n), Some(b"spawned".to_vec()));
    k.ids.next_tid = u64::MAX;
    assert_eq!(syscall::sys_spawn(&mut k, &mut m, 0).value, FAILED);
}

#[test]
fn a_program_sleeps() {
    let (mut k, mut m) = booted();
    let nr = syscall::SYS_SLEEP;
    let r = syscall::syscall_dispatch_inner(&mut k, &mut m, &mut [], nr, 5000, 0, 0);
    assert_eq!(r.value, 0);
    assert_eq!(r.switch.unwrap().to, 1);
    assert_eq!(k.tasks.sleep_until[0], 91);
    assert_eq!(k.tasks.threads[0].unwrap().state, TaskState::Blocked);
    assert_eq!((clock::ms_to_ticks(1), clock::ms_to_ticks(55), clock::ms_to_ticks(0)), (1, 2, 0));
    assert_eq!(clock::steps_to_ticks(50_000_000), 91);
    // Without a time it only lets others run.
    let (mut k, m) = booted();
    assert!(syscall::sys_sleep(&mut k, &m, 0).switch.is_some());
    assert_eq!(k.tasks.threads[0].unwrap().state, TaskState::Ready);
    // The clock does not run over.
    let (mut k, m) = booted();
    k.tasks.tick_count = u64::MAX - 5;
    syscall::sys_sleep(&mut k, &m, u64::MAX);
    assert_eq!(k.tasks.sleep_until[0], u64::MAX);
}

#[test]
fn a_program_maps_memory() {
    let (mut k, mut m) = booted();
    // The kernel has no address space of its own.
    assert_eq!(syscall::sys_mmap(&mut k, &mut m, 0x50_0000, 4096).value, FAILED);
    let cr3 = phys::alloc_frame(&mut k.frames).unwrap();
    let mut p = k.tasks.processes[0].unwrap();
    p.cr3 = cr3 as u64;
    k.tasks.processes[0] = Some(p);
    let free = phys::free_count(&k.frames);
    let nr = syscall::SYS_MMAP;
    let r = syscall::syscall_dispatch_inner(&mut k, &mut m, &mut [], nr, 0x50_0000, 5000, 0);
    assert_eq!(r.value, 0x50_0000);
    // Two pages and three tables.
    assert_eq!(phys::free_count(&k.frames), free - 5);
    for (addr, len) in [(0x50_0001, 1), (0, 1), (0x50_0000, 0), (0x7FFF_FFFF_F000, 8192)] {
        assert_eq!(syscall::sys_mmap(&mut k, &mut m, addr, len).value, FAILED);
        assert_eq!(syscall::sys_munmap(&mut k, &mut m, addr, len).value, FAILED);
    }
    let nr = syscall::SYS_MUNMAP;
    let r = syscall::syscall_dispatch_inner(&mut k, &mut m, &mut [], nr, 0x50_0000, 5000, 0);
    assert_eq!(r.value, 0);
    assert_eq!(phys::free_count(&k.frames), free - 3);
    assert_eq!(syscall::sys_munmap(&mut k, &mut m, 0x50_0000, 5000).value, 0);
    assert_eq!(phys::free_count(&k.frames), free - 3);
    while phys::alloc_frame(&mut k.frames).is_some() {}
    assert_eq!(syscall::sys_mmap(&mut k, &mut m, 0x50_0000, 4096).value, FAILED);
}

#[test]
fn a_program_learns_of_devices() {
    let (mut k, mut m) = booted();
    let mut d = drivers::Device::empty();
    d.set_name("disk");
    d.vendor_id = 0x8086;
    d.device_id = 0x100E;
    d.irq = 11;
    d.mmio_base = 0xFEB0_0000;
    let i = drivers::register_device(&mut k.devices, d).unwrap() as u64;
    let mut user = vec![0xEEu8; 60];
    let nr = syscall::SYS_DEVICE_INFO;
    assert_eq!(syscall::pointer_of(nr, i, 0x400, 0), Some((0x400, 56)));
    let r = syscall::syscall_dispatch_inner(&mut k, &mut m, &mut user, nr, i, 0, 0);
    assert_eq!(r.value, 56);
    assert_eq!(&user[..5], b"disk\0");
    assert_eq!(user[32..40], 0x100E_8086u64.to_le_bytes());
    assert_eq!(user[40..48], 11u64.to_le_bytes());
    assert_eq!(user[48..56], 0xFEB0_0000u64.to_le_bytes());
    assert_eq!(user[56..], [0xEE; 4]);
    assert_eq!(syscall::sys_device_info(&k, &m, &mut user, i + 1).value, FAILED);
    assert_eq!(syscall::sys_device_info(&k, &m, &mut user, u64::MAX).value, FAILED);
}

#[test]
fn a_kernel_without_devices_has_none() {
    let k = Box::new(Kernel::new());
    assert_eq!(drivers::device_count(&k.devices), 0);
    assert_eq!(drivers::driver_count(&k.devices), 0);
}
