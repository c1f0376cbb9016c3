//! The diagnostics that run at boot: every subsystem is tested, what fails is
//! recovered where it can be, and the outcome decides how the kernel boots.

use vstd::prelude::*;
use crate::search;

pub mod checks;
pub mod laws;
pub mod run;
pub mod sound;

verus! {

/// How bad it is if a test fails.
#[derive(Debug, Clone, Copy, PartialEq, Eq, Structural)]
pub enum Severity {
    /// Recover; if that does not help, the subsystem has failed.
    Critical,
    /// Recover; if that does not help, the subsystem is degraded.
    Required,
    /// The subsystem is degraded.
    Optional,
}

/// How a subsystem is.
#[derive(Debug, Clone, Copy, PartialEq, Eq, Structural)]
pub enum Health {
    /// Not tested yet.
    Unknown,
    Healthy,
    /// There were problems, and recovering helped.
    Recovered,
    Degraded,
    Failed,
}

/// How the kernel boots.
#[derive(Debug, Clone, Copy, PartialEq, Eq, Structural)]
pub enum BootMode {
    Normal,
    /// Two or more subsystems are degraded.
    Safe,
    /// The scheduler or the file system has failed.
    Minimal,
}

/// What is tested.
#[derive(Debug, Clone, Copy, PartialEq, Eq, Structural)]
pub enum Subsystem {
    Memory,
    Vfs,
    Ipc,
    Drivers,
    Scheduler,
    Syscall,
}

/// How many subsystems there are.
pub const SUBSYSTEM_COUNT: usize = 6;

impl Subsystem {
    /// The place of the subsystem in tables.
    pub open spec fn place(self) -> int {
        match self {
            Subsystem::Memory => 0,
            Subsystem::Vfs => 1,
            Subsystem::Ipc => 2,
            Subsystem::Drivers => 3,
            Subsystem::Scheduler => 4,
            Subsystem::Syscall => 5,
        }
    }

    /// The place of the subsystem in tables.
    pub fn index(self) -> (r: usize)
        ensures
            r == self.place(),
            r < SUBSYSTEM_COUNT,
    {
        match self {
            Subsystem::Memory => 0,
            Subsystem::Vfs => 1,
            Subsystem::Ipc => 2,
            Subsystem::Drivers => 3,
            Subsystem::Scheduler => 4,
            Subsystem::Syscall => 5,
        }
    }
}

/// The name of the subsystem at a place in tables.
pub open spec fn name_at(i: int) -> &'static str {
    if i == 0 {
        "memory"
    } else if i == 1 {
        "vfs"
    } else if i == 2 {
        "ipc"
    } else if i == 3 {
        "drivers"
    } else if i == 4 {
        "scheduler"
    } else {
        "syscall"
    }
}

/// The name of the subsystem at a place in tables.
pub fn subsystem_name(i: usize) -> (r: &'static str)
    ensures
        r == name_at(i as int),
{
    if i == 0 {
        "memory"
    } else if i == 1 {
        "vfs"
    } else if i == 2 {
        "ipc"
    } else if i == 3 {
        "drivers"
    } else if i == 4 {
        "scheduler"
    } else {
        "syscall"
    }
}

/// A test.
#[derive(Debug, Clone, Copy)]
pub struct DiagTest {
    pub name: &'static str,
    pub subsystem: Subsystem,
    pub severity: Severity,
    /// Set if the subsystem can be recovered when the test fails.
    pub recovery: bool,
}

/// How many tests there are.
pub const TEST_COUNT: usize = 19;

/// Test number `i`.
pub open spec fn test_of(i: int) -> DiagTest {
    match i as usize {
        0 => DiagTest {
            name: "phys::alloc_and_free",
            subsystem: Subsystem::Memory,
            severity: Severity::Critical,
            recovery: true,
        },
        1 => DiagTest {
            name: "phys::alloc_returns_aligned",
            subsystem: Subsystem::Memory,
            severity: Severity::Critical,
            recovery: true,
        },
        2 => DiagTest {
            name: "phys::free_restores_count",
            subsystem: Subsystem::Memory,
            severity: Severity::Required,
            recovery: false,
        },
        3 => DiagTest {
            name: "phys::double_free_safe",
            subsystem: Subsystem::Memory,
            severity: Severity::Optional,
            recovery: false,
        },
        4 => DiagTest {
            name: "vfs::root_exists",
            subsystem: Subsystem::Vfs,
            severity: Severity::Critical,
            recovery: true,
        },
        5 => DiagTest {
            name: "vfs::lookup_dev",
            subsystem: Subsystem::Vfs,
            severity: Severity::Required,
            recovery: true,
        },
        6 => DiagTest {
            name: "vfs::lookup_nonexistent",
            subsystem: Subsystem::Vfs,
            severity: Severity::Optional,
            recovery: false,
        },
        7 => DiagTest {
            name: "vfs::create_and_write",
            subsystem: Subsystem::Vfs,
            severity: Severity::Required,
            recovery: false,
        },
        8 => DiagTest {
            name: "vfs::create_and_read",
            subsystem: Subsystem::Vfs,
            severity: Severity::Required,
            recovery: false,
        },
        9 => DiagTest {
            name: "ipc::register_endpoint",
            subsystem: Subsystem::Ipc,
            severity: Severity::Required,
            recovery: false,
        },
        10 => DiagTest {
            name: "ipc::send_receive",
            subsystem: Subsystem::Ipc,
            severity: Severity::Required,
            recovery: false,
        },
        11 => DiagTest {
            name: "ipc::queue_overflow",
            subsystem: Subsystem::Ipc,
            severity: Severity::Optional,
            recovery: false,
        },
        12 => DiagTest {
            name: "drivers::register_device",
            subsystem: Subsystem::Drivers,
            severity: Severity::Required,
            recovery: false,
        },
        13 => DiagTest {
            name: "drivers::driver_match",
            subsystem: Subsystem::Drivers,
            severity: Severity::Optional,
            recovery: false,
        },
        14 => DiagTest {
            name: "sched::init_state",
            subsystem: Subsystem::Scheduler,
            severity: Severity::Critical,
            recovery: true,
        },
        15 => DiagTest {
            name: "sched::thread_count",
            subsystem: Subsystem::Scheduler,
            severity: Severity::Required,
            recovery: false,
        },
        16 => DiagTest {
            name: "shim::kmalloc_kfree",
            subsystem: Subsystem::Syscall,
            severity: Severity::Required,
            recovery: false,
        },
        17 => DiagTest {
            name: "shim::spinlock",
            subsystem: Subsystem::Syscall,
            severity: Severity::Optional,
            recovery: false,
        },
        _ => DiagTest {
            name: "shim::atomic_ops",
            subsystem: Subsystem::Syscall,
            severity: Severity::Optional,
            recovery: false,
        },
    }
}

/// Test number `i`.
pub fn diag_test(i: usize) -> (r: DiagTest)
    requires
        i < TEST_COUNT,
    ensures
        r == test_of(i as int),
{
    match i {
        0 => DiagTest {
            name: "phys::alloc_and_free",
            subsystem: Subsystem::Memory,
            severity: Severity::Critical,
            recovery: true,
        },
        1 => DiagTest {
            name: "phys::alloc_returns_aligned",
            subsystem: Subsystem::Memory,
            severity: Severity::Critical,
            recovery: true,
        },
        2 => DiagTest {
            name: "phys::free_restores_count",
            subsystem: Subsystem::Memory,
            severity: Severity::Required,
            recovery: false,
        },
        3 => DiagTest {
            name: "phys::double_free_safe",
            subsystem: Subsystem::Memory,
            severity: Severity::Optional,
            recovery: false,
        },
        4 => DiagTest {
            name: "vfs::root_exists",
            subsystem: Subsystem::Vfs,
            severity: Severity::Critical,
            recovery: true,
        },
        5 => DiagTest {
            name: "vfs::lookup_dev",
            subsystem: Subsystem::Vfs,
            severity: Severity::Required,
            recovery: true,
        },
        6 => DiagTest {
            name: "vfs::lookup_nonexistent",
            subsystem: Subsystem::Vfs,
            severity: Severity::Optional,
            recovery: false,
        },
        7 => DiagTest {
            name: "vfs::create_and_write",
            subsystem: Subsystem::Vfs,
            severity: Severity::Required,
            recovery: false,
        },
        8 => DiagTest {
            name: "vfs::create_and_read",
            subsystem: Subsystem::Vfs,
            severity: Severity::Required,
            recovery: false,
        },
        9 => DiagTest {
            name: "ipc::register_endpoint",
            subsystem: Subsystem::Ipc,
            severity: Severity::Required,
            recovery: false,
        },
        10 => DiagTest {
            name: "ipc::send_receive",
            subsystem: Subsystem::Ipc,
            severity: Severity::Required,
            recovery: false,
        },
        11 => DiagTest {
            name: "ipc::queue_overflow",
            subsystem: Subsystem::Ipc,
            severity: Severity::Optional,
            recovery: false,
        },
        12 => DiagTest {
            name: "drivers::register_device",
            subsystem: Subsystem::Drivers,
            severity: Severity::Required,
            recovery: false,
        },
        13 => DiagTest {
            name: "drivers::driver_match",
            subsystem: Subsystem::Drivers,
            severity: Severity::Optional,
            recovery: false,
        },
        14 => DiagTest {
            name: "sched::init_state",
            subsystem: Subsystem::Scheduler,
            severity: Severity::Critical,
            recovery: true,
        },
        15 => DiagTest {
            name: "sched::thread_count",
            subsystem: Subsystem::Scheduler,
            severity: Severity::Required,
            recovery: false,
        },
        16 => DiagTest {
            name: "shim::kmalloc_kfree",
            subsystem: Subsystem::Syscall,
            severity: Severity::Required,
            recovery: false,
        },
        17 => DiagTest {
            name: "shim::spinlock",
            subsystem: Subsystem::Syscall,
            severity: Severity::Optional,
            recovery: false,
        },
        _ => DiagTest {
            name: "shim::atomic_ops",
            subsystem: Subsystem::Syscall,
            severity: Severity::Optional,
            recovery: false,
        },
    }
}

/// How often recovering a subsystem is tried.
pub const MAX_RECOVERY_ATTEMPTS: u8 = 3;

/// How many events the boot log holds.
pub const BOOT_LOG_SIZE: usize = 64;

/// What happened during boot.
#[derive(Debug, Clone, Copy, PartialEq, Eq, Structural)]
pub enum BootEventType {
    Nothing,
    TestPass,
    TestFail,
    RecoveryAttempt,
    RecoverySuccess,
    RecoveryFailed,
    SubsystemDegraded,
    SafeModeEntered,
}

/// An event of the boot log.
#[derive(Debug, Clone, Copy, PartialEq, Eq, Structural)]
pub struct BootEvent {
    pub subsystem: u8,
    pub event_type: BootEventType,
    /// The test that it is about.
    pub test_index: u8,
}

impl BootEvent {
    /// No event.
    pub fn empty() -> (r: BootEvent)
        ensures
            r == (BootEvent { subsystem: 0, event_type: BootEventType::Nothing, test_index: 0 }),
    {
        BootEvent { subsystem: 0, event_type: BootEventType::Nothing, test_index: 0 }
    }
}

/// The last events of the boot, in a ring.
pub struct BootLog {
    pub events: [BootEvent; BOOT_LOG_SIZE],
    /// The place of the oldest event.
    pub start: usize,
    pub count: usize,
}

impl View for BootLog {
    type V = Seq<BootEvent>;

    open spec fn view(&self) -> Seq<BootEvent> {
        Seq::new(
            self.count as nat,
            |i: int| self.events@[(self.start + i) % BOOT_LOG_SIZE as int],
        )
    }
}

/// A log with one more event. The oldest one goes if the log is full.
pub open spec fn logged(log: Seq<BootEvent>, e: BootEvent) -> Seq<BootEvent> {
    if log.len() < BOOT_LOG_SIZE {
        log.push(e)
    } else {
        log.subrange(1, log.len() as int).push(e)
    }
}

impl BootLog {
    /// The ring is in order.
    pub open spec fn wf(&self) -> bool {
        self.start < BOOT_LOG_SIZE && self.count <= BOOT_LOG_SIZE
    }

    /// A log without events.
    pub fn new() -> (r: BootLog)
        ensures
            r.wf(),
            r@ == Seq::<BootEvent>::empty(),
    {
        let r = BootLog { events: [BootEvent::empty(); BOOT_LOG_SIZE], start: 0, count: 0 };
        assert(r@ =~= Seq::<BootEvent>::empty());
        r
    }

    /// Adds an event.
    pub fn add(&mut self, subsystem: usize, event_type: BootEventType, test_index: usize)
        requires
            old(self).wf(),
            subsystem < 256,
            test_index < 256,
        ensures
            final(self).wf(),
            final(self)@ == logged(
                old(self)@,
                BootEvent { subsystem: subsystem as u8, event_type, test_index: test_index as u8 },
            ),
    {
        let e = BootEvent { subsystem: subsystem as u8, event_type, test_index: test_index as u8 };
        let ghost log = self@;
        if self.count < BOOT_LOG_SIZE {
            let at: usize = (self.start + self.count) % BOOT_LOG_SIZE;
            self.events[at] = e;
            self.count = self.count + 1;
        } else {
            self.events[self.start] = e;
            self.start = (self.start + 1) % BOOT_LOG_SIZE;
        }
        assert(self@ =~= logged(log, e));
    }
}

/// What the diagnostics know.
pub struct Diagnostics {
    pub health: [Health; SUBSYSTEM_COUNT],
    pub boot_mode: BootMode,
    /// How often recovering each subsystem was tried.
    pub attempts: [u8; SUBSYSTEM_COUNT],
    pub log: BootLog,
}

/// What the diagnostics know, with the log as a sequence.
#[verifier::ext_equal]
pub struct Diag {
    pub health: Seq<Health>,
    pub mode: BootMode,
    pub attempts: Seq<u8>,
    pub log: Seq<BootEvent>,
}

impl View for Diagnostics {
    type V = Diag;

    open spec fn view(&self) -> Diag {
        Diag {
            health: self.health@,
            mode: self.boot_mode,
            attempts: self.attempts@,
            log: self.log@,
        }
    }
}

impl Diagnostics {
    /// Nothing has been tested yet.
    pub fn new() -> (r: Diagnostics)
        ensures
            r.log.wf(),
            r@.mode == BootMode::Normal,
            r@.log.len() == 0,
            forall|i: int| 0 <= i < SUBSYSTEM_COUNT ==> r@.health[i] == Health::Unknown,
            forall|i: int| 0 <= i < SUBSYSTEM_COUNT ==> r@.attempts[i] == 0,
    {
        Diagnostics {
            health: [Health::Unknown; SUBSYSTEM_COUNT],
            boot_mode: BootMode::Normal,
            attempts: [0u8; SUBSYSTEM_COUNT],
            log: BootLog::new(),
        }
    }
}

/// How a subsystem is.
pub fn health(d: &Diagnostics, sub: Subsystem) -> (r: Health)
    ensures
        r == d@.health[sub.place()],
{
    d.health[sub.index()]
}

/// How the kernel boots.
pub fn boot_mode(d: &Diagnostics) -> (r: BootMode)
    ensures
        r == d@.mode,
{
    d.boot_mode
}

/// Whether a subsystem works: it is healthy or was recovered.
pub fn is_subsystem_ok(d: &Diagnostics, sub: Subsystem) -> (r: bool)
    ensures
        r == (d@.health[sub.place()] == Health::Healthy || d@.health[sub.place()]
            == Health::Recovered),
{
    let h: Health = health(d, sub);
    h == Health::Healthy || h == Health::Recovered
}

/// A subsystem in this state is degraded.
pub open spec fn impaired(h: Health) -> bool {
    h == Health::Degraded || h == Health::Failed
}

/// How many of the subsystems are degraded.
pub open spec fn impaired_count(health: Seq<Health>) -> nat {
    search::count(SUBSYSTEM_COUNT as nat, |i: int| impaired(health[i]))
}

/// How many subsystems are degraded or have failed.
pub fn degraded_count(d: &Diagnostics) -> (r: usize)
    ensures
        r == impaired_count(d@.health),
        r <= SUBSYSTEM_COUNT,
{
    let mut count: usize = 0;
    let mut i: usize = 0;
    while i < SUBSYSTEM_COUNT
        invariant
            i <= SUBSYSTEM_COUNT,
            count <= i,
            count == search::count(i as nat, |i: int| impaired(d@.health[i])),
        decreases SUBSYSTEM_COUNT - i,
    {
        if d.health[i] == Health::Degraded || d.health[i] == Health::Failed {
            count = count + 1;
        }
        i = i + 1;
    }
    count
}

/// How many events the boot log holds.
pub fn boot_log_count(d: &Diagnostics) -> (r: usize)
    ensures
        r == d@.log.len(),
{
    d.log.count
}

/// The label of a state in the report.
pub open spec fn health_label(h: Health) -> &'static str {
    match h {
        Health::Unknown => "????",
        Health::Healthy => " OK ",
        Health::Recovered => "RCVR",
        Health::Degraded => "DEGR",
        Health::Failed => "FAIL",
    }
}

/// A line of the report on the subsystems.
#[derive(Debug, Clone, Copy)]
pub struct HealthRow {
    pub status: &'static str,
    pub name: &'static str,
    pub recoveries: u8,
}

/// The report on the subsystems: a line for each, in their order.
pub fn health_report(d: &Diagnostics) -> (r: Vec<HealthRow>)
    ensures
        r@.len() == SUBSYSTEM_COUNT,
        forall|i: int|
            0 <= i < SUBSYSTEM_COUNT ==> #[trigger] r@[i] == (HealthRow {
                status: health_label(d@.health[i]),
                name: name_at(i),
                recoveries: d@.attempts[i],
            }),
{
    let mut rows: Vec<HealthRow> = Vec::new();
    let mut i: usize = 0;
    while i < SUBSYSTEM_COUNT
        invariant
            i <= SUBSYSTEM_COUNT,
            rows@.len() == i,
            forall|j: int|
                0 <= j < i ==> #[trigger] rows@[j] == (HealthRow {
                    status: health_label(d@.health[j]),
                    name: name_at(j),
                    recoveries: d@.attempts[j],
                }),
        decreases SUBSYSTEM_COUNT - i,
    {
        let status: &'static str = match d.health[i] {
            Health::Unknown => "????",
            Health::Healthy => " OK ",
            Health::Recovered => "RCVR",
            Health::Degraded => "DEGR",
            Health::Failed => "FAIL",
        };
        rows.push(HealthRow { status, name: subsystem_name(i), recoveries: d.attempts[i] });
        i = i + 1;
    }
    rows
}

/// What came of a test.
#[derive(Debug, Clone, Copy, PartialEq, Eq, Structural)]
pub enum Verdict {
    Passed,
    /// It failed, and recovering was not tried.
    Failed,
    /// It failed, and passed once the subsystem was recovered.
    Recovered,
    /// It failed, and recovering did not help.
    Unrecovered,
}

/// The test did not pass in the end.
pub open spec fn fails(v: Verdict) -> bool {
    v == Verdict::Failed || v == Verdict::Unrecovered
}

/// Recovering is tried if test `i` fails: it is not optional, there is a way to
/// recover, and it was not tried too often.
pub open spec fn may_recover(i: int, attempts: u8) -> bool {
    &&& test_of(i).severity != Severity::Optional
    &&& test_of(i).recovery
    &&& attempts < MAX_RECOVERY_ATTEMPTS
}

/// An event about test `i`.
pub open spec fn event(i: int, event_type: BootEventType) -> BootEvent {
    BootEvent {
        subsystem: test_of(i).subsystem.place() as u8,
        event_type,
        test_index: i as u8,
    }
}

/// What the diagnostics know once test `i` came out.
pub open spec fn noted(d: Diag, i: int, v: Verdict) -> Diag {
    let s = test_of(i).subsystem.place();
    match v {
        Verdict::Passed => Diag {
            log: logged(d.log, event(i, BootEventType::TestPass)),
            ..d
        },
        Verdict::Failed => Diag {
            log: logged(d.log, event(i, BootEventType::TestFail)),
            ..d
        },
        _ => Diag {
            attempts: d.attempts.update(s, (d.attempts[s] + 1) as u8),
            log: logged(
                logged(
                    logged(d.log, event(i, BootEventType::TestFail)),
                    event(i, BootEventType::RecoveryAttempt),
                ),
                event(
                    i,
                    if v == Verdict::Recovered {
                        BootEventType::RecoverySuccess
                    } else {
                        BootEventType::RecoveryFailed
                    },
                ),
            ),
            ..d
        },
    }
}

/// What the diagnostics know once the tests came out as `vs`.
pub open spec fn all_noted(d: Diag, vs: Seq<Verdict>) -> Diag
    decreases vs.len(),
{
    if vs.len() == 0 {
        d
    } else {
        noted(all_noted(d, vs.drop_last()), vs.len() - 1, vs.last())
    }
}

/// Some test of a subsystem is among the first `n`.
pub open spec fn has_test(n: int, s: int) -> bool {
    exists|i: int| 0 <= i < n && (#[trigger] test_of(i)).subsystem.place() == s
}

/// Some test of a subsystem failed.
pub open spec fn has_failure(vs: Seq<Verdict>, s: int) -> bool {
    exists|i: int|
        0 <= i < vs.len() && (#[trigger] test_of(i)).subsystem.place() == s && fails(vs[i])
}

/// Some critical test of a subsystem failed.
pub open spec fn has_critical_failure(vs: Seq<Verdict>, s: int) -> bool {
    exists|i: int|
        0 <= i < vs.len() && (#[trigger] test_of(i)).subsystem.place() == s
            && test_of(i).severity == Severity::Critical && fails(vs[i])
}

/// How a subsystem is once the tests came out.
pub open spec fn health_after(vs: Seq<Verdict>, attempts: Seq<u8>, s: int) -> Health {
    if !has_test(vs.len() as int, s) {
        Health::Unknown
    } else if has_critical_failure(vs, s) {
        Health::Failed
    } else if has_failure(vs, s) {
        Health::Degraded
    } else if attempts[s] > 0 {
        Health::Recovered
    } else {
        Health::Healthy
    }
}

/// The log once every degraded subsystem among the first `n` is noted in it.
pub open spec fn degraded_logged(log: Seq<BootEvent>, health: Seq<Health>, n: int) -> Seq<BootEvent>
    decreases n,
{
    if n <= 0 {
        log
    } else {
        let before = degraded_logged(log, health, n - 1);
        if health[n - 1] == Health::Degraded {
            logged(
                before,
                BootEvent {
                    subsystem: (n - 1) as u8,
                    event_type: BootEventType::SubsystemDegraded,
                    test_index: 0,
                },
            )
        } else {
            before
        }
    }
}

/// What a run of the tests came to.
#[derive(Debug, Clone, Copy, PartialEq, Eq, Structural)]
pub struct TestResults {
    pub total: usize,
    pub passed: usize,
    pub failed: usize,
    pub recovered: usize,
    pub boot_mode: BootMode,
}

/// How many tests passed in the end.
pub open spec fn passed_count(vs: Seq<Verdict>) -> nat {
    search::count(vs.len(), |i: int| !fails(vs[i]))
}

/// How many tests failed.
pub open spec fn failed_count(vs: Seq<Verdict>) -> nat {
    search::count(vs.len(), |i: int| fails(vs[i]))
}

/// How many tests passed once the subsystem was recovered.
pub open spec fn recovered_count(vs: Seq<Verdict>) -> nat {
    search::count(vs.len(), |i: int| vs[i] == Verdict::Recovered)
}

/// What the diagnostics know and report at the end of a run in which the tests
/// came out as `vs`. There is no report if the memory has failed: then the
/// kernel cannot go on.
pub open spec fn closing(d: Diag, vs: Seq<Verdict>) -> (Diag, Option<TestResults>) {
    let health = Seq::new(SUBSYSTEM_COUNT as nat, |s: int| health_after(vs, d.attempts, s));
    let log = degraded_logged(d.log, health, SUBSYSTEM_COUNT as int);
    let d2 = Diag { health, log, ..d };
    if has_critical_failure(vs, Subsystem::Memory.place()) {
        (d2, None)
    } else {
        let mode = if has_critical_failure(vs, Subsystem::Scheduler.place())
            || has_critical_failure(vs, Subsystem::Vfs.place()) {
            BootMode::Minimal
        } else {
            d.mode
        };
        let d3 = if impaired_count(health) >= 2 && mode == BootMode::Normal {
            Diag {
                mode: BootMode::Safe,
                log: logged(
                    log,
                    BootEvent {
                        subsystem: 0,
                        event_type: BootEventType::SafeModeEntered,
                        test_index: 0,
                    },
                ),
                ..d2
            }
        } else {
            Diag { mode, ..d2 }
        };
        (
            d3,
            Some(
                TestResults {
                    total: vs.len() as usize,
                    passed: passed_count(vs) as usize,
                    failed: failed_count(vs) as usize,
                    recovered: recovered_count(vs) as usize,
                    boot_mode: d3.mode,
                },
            ),
        )
    }
}

/// What a whole run leaves behind and reports.
pub open spec fn concluded(d: Diag, vs: Seq<Verdict>) -> (Diag, Option<TestResults>) {
    closing(all_noted(d, vs), vs)
}

/// Notes what came of the next test.
pub fn record(d: &mut Diagnostics, verdicts: &mut Vec<Verdict>, v: Verdict)
    requires
        old(d).log.wf(),
        old(verdicts)@.len() < TEST_COUNT,
        v == Verdict::Recovered || v == Verdict::Unrecovered ==> may_recover(
            old(verdicts)@.len() as int,
            old(d)@.attempts[test_of(old(verdicts)@.len() as int).subsystem.place()],
        ),
    ensures
        final(d).log.wf(),
        final(d)@ == noted(old(d)@, old(verdicts)@.len() as int, v),
        final(verdicts)@ == old(verdicts)@.push(v),
{
    let i: usize = verdicts.len();
    let t: DiagTest = diag_test(i);
    let s: usize = t.subsystem.index();
    match v {
        Verdict::Passed => {
            d.log.add(s, BootEventType::TestPass, i);
        },
        Verdict::Failed => {
            d.log.add(s, BootEventType::TestFail, i);
        },
        Verdict::Recovered => {
            d.log.add(s, BootEventType::TestFail, i);
            d.attempts[s] = d.attempts[s] + 1;
            d.log.add(s, BootEventType::RecoveryAttempt, i);
            d.log.add(s, BootEventType::RecoverySuccess, i);
        },
        Verdict::Unrecovered => {
            d.log.add(s, BootEventType::TestFail, i);
            d.attempts[s] = d.attempts[s] + 1;
            d.log.add(s, BootEventType::RecoveryAttempt, i);
            d.log.add(s, BootEventType::RecoveryFailed, i);
        },
    }
    verdicts.push(v);
    assert(d@ =~= noted(old(d)@, i as int, v));
}

/// Whether some test of a subsystem is among the first `n`.
fn is_tested(n: usize, s: usize) -> (r: bool)
    requires
        n <= TEST_COUNT,
    ensures
        r == has_test(n as int, s as int),
{
    let mut i: usize = 0;
    while i < n
        invariant
            i <= n,
            n <= TEST_COUNT,
            forall|j: int| 0 <= j < i ==> (#[trigger] test_of(j)).subsystem.place() != s,
        decreases n - i,
    {
        let t: DiagTest = diag_test(i);
        if t.subsystem.index() == s {
            assert(test_of(i as int).subsystem.place() == s);
            return true;
        }
        i = i + 1;
    }
    false
}

/// Whether some test of a subsystem failed, or some critical one.
fn is_failing(verdicts: &Vec<Verdict>, s: usize, critical: bool) -> (r: bool)
    requires
        verdicts@.len() <= TEST_COUNT,
    ensures
        r == (if critical {
            has_critical_failure(verdicts@, s as int)
        } else {
            has_failure(verdicts@, s as int)
        }),
{
    let mut i: usize = 0;
    while i < verdicts.len()
        invariant
            i <= verdicts@.len(),
            verdicts@.len() <= TEST_COUNT,
            forall|j: int|
                0 <= j < i ==> !((#[trigger] test_of(j)).subsystem.place() == s && fails(
                    verdicts@[j],
                ) && (critical ==> test_of(j).severity == Severity::Critical)),
        decreases verdicts@.len() - i,
    {
        let t: DiagTest = diag_test(i);
        let bad: bool = verdicts[i] == Verdict::Failed || verdicts[i] == Verdict::Unrecovered;
        if t.subsystem.index() == s && bad && (!critical || t.severity == Severity::Critical) {
            assert(test_of(i as int).subsystem.place() == s);
            return true;
        }
        i = i + 1;
    }
    false
}

/// Sets how every subsystem is, and logs those that are degraded.
fn update_health(d: &mut Diagnostics, verdicts: &Vec<Verdict>)
    requires
        old(d).log.wf(),
        verdicts@.len() <= TEST_COUNT,
    ensures
        final(d).log.wf(),
        ({
            let health = Seq::new(
                SUBSYSTEM_COUNT as nat,
                |s: int| health_after(verdicts@, old(d)@.attempts, s),
            );
            final(d)@ == (Diag {
                health,
                log: degraded_logged(old(d)@.log, health, SUBSYSTEM_COUNT as int),
                ..old(d)@
            })
        }),
{
    let ghost health = Seq::new(
        SUBSYSTEM_COUNT as nat,
        |s: int| health_after(verdicts@, old(d)@.attempts, s),
    );
    let mut i: usize = 0;
    while i < SUBSYSTEM_COUNT
        invariant
            i <= SUBSYSTEM_COUNT,
            d.log.wf(),
            verdicts@.len() <= TEST_COUNT,
            d@.attempts == old(d)@.attempts,
            d@.mode == old(d)@.mode,
            health == Seq::new(
                SUBSYSTEM_COUNT as nat,
                |s: int| health_after(verdicts@, old(d)@.attempts, s),
            ),
            forall|j: int| 0 <= j < i ==> d@.health[j] == health[j],
            d@.log == degraded_logged(old(d)@.log, health, i as int),
        decreases SUBSYSTEM_COUNT - i,
    {
        if !is_tested(verdicts.len(), i) {
            d.health[i] = Health::Unknown;
        } else if is_failing(verdicts, i, true) {
            d.health[i] = Health::Failed;
        } else if is_failing(verdicts, i, false) {
            d.health[i] = Health::Degraded;
            d.log.add(i, BootEventType::SubsystemDegraded, 0);
        } else if d.attempts[i] > 0 {
            d.health[i] = Health::Recovered;
        } else {
            d.health[i] = Health::Healthy;
        }
        i = i + 1;
    }
    assert(d@.health =~= health);
}

/// How many tests passed, failed, and passed once the subsystem was recovered.
fn tally(verdicts: &Vec<Verdict>) -> (r: (usize, usize, usize))
    ensures
        r.0 == passed_count(verdicts@),
        r.1 == failed_count(verdicts@),
        r.2 == recovered_count(verdicts@),
{
    let mut passed: usize = 0;
    let mut failed: usize = 0;
    let mut recovered: usize = 0;
    let mut i: usize = 0;
    while i < verdicts.len()
        invariant
            i <= verdicts@.len(),
            passed <= i,
            failed <= i,
            recovered <= i,
            passed == search::count(i as nat, |i: int| !fails(verdicts@[i])),
            failed == search::count(i as nat, |i: int| fails(verdicts@[i])),
            recovered == search::count(i as nat, |i: int| verdicts@[i] == Verdict::Recovered),
        decreases verdicts@.len() - i,
    {
        match verdicts[i] {
            Verdict::Passed => {
                passed = passed + 1;
            },
            Verdict::Recovered => {
                passed = passed + 1;
                recovered = recovered + 1;
            },
            _ => {
                failed = failed + 1;
            },
        }
        i = i + 1;
    }
    (passed, failed, recovered)
}

/// Ends a run: sets how the subsystems are and how the kernel boots. See
/// `closing`.
pub fn conclude(d: &mut Diagnostics, verdicts: &Vec<Verdict>) -> (r: Option<TestResults>)
    requires
        old(d).log.wf(),
        verdicts@.len() <= TEST_COUNT,
    ensures
        final(d).log.wf(),
        (final(d)@, r) == closing(old(d)@, verdicts@),
{
    update_health(d, verdicts);
    if is_failing(verdicts, Subsystem::Memory.index(), true) {
        return None;
    }
    if is_failing(verdicts, Subsystem::Scheduler.index(), true) || is_failing(
        verdicts,
        Subsystem::Vfs.index(),
        true,
    ) {
        d.boot_mode = BootMode::Minimal;
    }
    if degraded_count(d) >= 2 && d.boot_mode == BootMode::Normal {
        d.boot_mode = BootMode::Safe;
        d.log.add(Subsystem::Memory.index(), BootEventType::SafeModeEntered, 0);
    }
    let (passed, failed, recovered) = tally(verdicts);
    Some(
        TestResults {
            total: verdicts.len(),
            passed,
            failed,
            recovered,
            boot_mode: d.boot_mode,
        },
    )
}

} // verus!
