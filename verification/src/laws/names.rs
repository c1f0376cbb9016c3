//! Names: what things are called in reports.

use vstd::prelude::*;
use vstd::string::*;
use crate::drivers::linux_shim::{LogLevel, Logger};
use crate::idt;
use crate::idt::{FaultReport, InterruptFrame};
use crate::ktest;
use crate::ktest::{Diagnostics, Health, HealthRow};
use crate::loader;
use crate::win32::error;
use crate::win32::types::NTSTATUS;

verus! {

/// A fault of the processor is reported by its name, and a page fault with its cause: bit 0
/// of the error code tells a missing page from a forbidden use, bit 1 a write from a read,
/// and bit 2 a program from the kernel.
pub proof fn law_faults_are_called_by_their_names(
    n: u64,
    r: &'static str,
    frame: &InterruptFrame,
    report: FaultReport,
)
    requires
        call_ensures(idt::exception_name, (n,), r),
        frame.int_no == n,
        call_ensures(idt::handle_exception, (frame,), report),
    ensures
        report.name == r,
        report.cause is Some <==> n == 14,
        report.cause matches Some(c) ==> {
            let e = frame.error_code;
            &&& e % 2 == 0 ==> c.reason == "page not present"
            &&& e % 2 == 1 ==> c.reason == "protection violation"
            &&& e / 2 % 2 == 1 ==> c.access == ", write"
            &&& e / 2 % 2 == 0 ==> c.access == ", read"
            &&& e / 4 % 2 == 1 ==> c.mode == ", user-mode"
            &&& e / 4 % 2 == 0 ==> c.mode == ", kernel-mode"
        },
        n == 0 ==> r == "Division Error",
        n == 1 ==> r == "Debug",
        n == 2 ==> r == "Non-Maskable Interrupt",
        n == 3 ==> r == "Breakpoint",
        n == 4 ==> r == "Overflow",
        n == 5 ==> r == "Bound Range Exceeded",
        n == 6 ==> r == "Invalid Opcode",
        n == 7 ==> r == "Device Not Available",
        n == 8 ==> r == "Double Fault",
        n == 9 ==> r == "Coprocessor Segment Overrun",
        n == 10 ==> r == "Invalid TSS",
        n == 11 ==> r == "Segment Not Present",
        n == 12 ==> r == "Stack-Segment Fault",
        n == 13 ==> r == "General Protection Fault",
        n == 14 ==> r == "Page Fault",
        n == 16 ==> r == "x87 FPU Error",
        n == 17 ==> r == "Alignment Check",
        n == 18 ==> r == "Machine Check",
        n == 19 ==> r == "SIMD Exception",
        n == 20 ==> r == "Virtualization Exception",
        n == 21 ==> r == "Control Protection",
        n == 30 ==> r == "Security Exception",
        n < 32 && !(n == 0 || n == 1 || n == 2 || n == 3 || n == 4 || n == 5 || n == 6 || n == 7 || n == 8 || n == 9 || n == 10 || n == 11 || n == 12 || n == 13 || n == 14 || n == 16 || n == 17 || n == 18 || n == 19 || n == 20 || n == 21 || n == 30) ==> r == "Reserved",
        n >= 32 ==> r == "Unknown",
{
}

/// A status is called by its name.
pub proof fn law_statuses_are_called_by_their_names(s: NTSTATUS, r: &'static str, severity: &'static str)
    requires
        call_ensures(error::ntstatus_name, (s,), r),
        call_ensures(NTSTATUS::severity_name, (s,), severity),
    ensures
        s.0 < 0x4000_0000 ==> severity@ == "SUCCESS"@,
        0x4000_0000 <= s.0 < 0x8000_0000 ==> severity@ == "INFO"@,
        0x8000_0000 <= s.0 < 0xC000_0000 ==> severity@ == "WARNING"@,
        s.0 >= 0xC000_0000 ==> severity@ == "ERROR"@,
        s.0 == 0x00000000 ==> r@ == "STATUS_SUCCESS"@,
        s.0 == 0x00000103 ==> r@ == "STATUS_PENDING"@,
        s.0 == 0xC0000022 ==> r@ == "STATUS_ACCESS_DENIED"@,
        s.0 == 0xC000000D ==> r@ == "STATUS_INVALID_PARAMETER"@,
        s.0 == 0xC0000017 ==> r@ == "STATUS_NO_MEMORY"@,
        s.0 == 0xC0000034 ==> r@ == "STATUS_OBJECT_NAME_NOT_FOUND"@,
        s.0 == 0xC000003A ==> r@ == "STATUS_OBJECT_PATH_NOT_FOUND"@,
        s.0 == 0xC0000008 ==> r@ == "STATUS_INVALID_HANDLE"@,
        s.0 == 0xC0000002 ==> r@ == "STATUS_NOT_IMPLEMENTED"@,
        s.0 == 0xC0000005 ==> r@ == "STATUS_ACCESS_VIOLATION"@,
        s.0 == 0xC000007B ==> r@ == "STATUS_INVALID_IMAGE_FORMAT"@,
        s.0 == 0xC0000043 ==> r@ == "STATUS_SHARING_VIOLATION"@,
        s.0 == 0xC0000011 ==> r@ == "STATUS_END_OF_FILE"@,
        s.0 == 0x80000005 ==> r@ == "STATUS_BUFFER_OVERFLOW"@,
        s.0 == 0x80000023 ==> r@ == "STATUS_BUFFER_TOO_SMALL"@,
        !(s.0 == 0x00000000 || s.0 == 0x00000103 || s.0 == 0xC0000022 || s.0 == 0xC000000D || s.0 == 0xC0000017 || s.0 == 0xC0000034 || s.0 == 0xC000003A || s.0 == 0xC0000008 || s.0 == 0xC0000002 || s.0 == 0xC0000005 || s.0 == 0xC000007B || s.0 == 0xC0000043 || s.0 == 0xC0000011 || s.0 == 0x80000005 || s.0 == 0x80000023) ==> r@ == "STATUS_UNKNOWN"@,
{
}

/// An image is called by what it runs in.
pub proof fn law_images_are_called_by_their_subsystem(n: u16, r: &'static str)
    requires
        call_ensures(loader::subsystem_name, (n,), r),
    ensures
        n == 1 ==> r@ == "Native"@,
        n == 2 ==> r@ == "GUI"@,
        n == 3 ==> r@ == "Console"@,
        n == 0 || n > 3 ==> r@ == "Unknown"@,
{
}

/// A message is preceded by its level.
pub proof fn law_messages_are_preceded_by_their_level(
    logger: &Logger,
    level: LogLevel,
    r: Option<&'static str>,
)
    requires
        call_ensures(Logger::prefix, (logger, level), r),
    ensures
        r matches Some(p) ==> {
            &&& level == LogLevel::Emergency ==> p@ == "[EMERG]"@
            &&& level == LogLevel::Alert ==> p@ == "[ALERT]"@
            &&& level == LogLevel::Critical ==> p@ == "[CRIT] "@
            &&& level == LogLevel::Error ==> p@ == "[ERR]  "@
            &&& level == LogLevel::Warning ==> p@ == "[WARN] "@
            &&& level == LogLevel::Notice ==> p@ == "[NOTE] "@
            &&& level == LogLevel::Info ==> p@ == "[INFO] "@
            &&& level == LogLevel::Debug ==> p@ == "[DBG]  "@
        },
{
}

/// What a row of the report on the subsystems says.
pub open spec fn row_says(row: HealthRow, h: Health, tries: u8) -> bool {
    &&& row.recoveries == tries
    &&& h == Health::Unknown ==> row.status == "????"
    &&& h == Health::Healthy ==> row.status == " OK "
    &&& h == Health::Recovered ==> row.status == "RCVR"
    &&& h == Health::Degraded ==> row.status == "DEGR"
    &&& h == Health::Failed ==> row.status == "FAIL"
}

/// The report on the subsystems has a row for each, in their order, that says how it is and
/// how often it was restored.
pub proof fn law_report_has_a_row_for_each_subsystem(
    d: &Diagnostics,
    r: Vec<HealthRow>,
    i: usize,
    name: &'static str,
)
    requires
        call_ensures(ktest::health_report, (d,), r),
        i < 6,
        call_ensures(ktest::subsystem_name, (i,), name),
    ensures
        r@.len() == 6,
        row_says(r@[i as int], d.health@[i as int], d.attempts@[i as int]),
        r@[i as int].name == name,
        i == 0 ==> name == "memory",
        i == 1 ==> name == "vfs",
        i == 2 ==> name == "ipc",
        i == 3 ==> name == "drivers",
        i == 4 ==> name == "scheduler",
        i == 5 ==> name == "syscall",
{
    assert(r@[i as int].recoveries == d@.attempts[i as int]);
}

} // verus!
