//! Interrupts: the table of their handlers, and what is done about each.
//!
//! Numbers 0 to 31 are faults of the processor, 32 to 47 come from devices.

use vstd::prelude::*;
use crate::gdt;
use crate::pic;

verus! {

/// Entries of the table.
pub const IDT_SIZE: usize = 256;

/// Bytes of an entry.
pub const IDT_ENTRY_SIZE: u16 = 16;

/// Interrupts that have a handler.
pub const HANDLER_COUNT: usize = 48;

/// The kind of gate that keeps further interrupts off: present, for the kernel.
pub const INTERRUPT_GATE: u8 = 0x8E;

/// The number of the interrupt of a page fault.
pub const PAGE_FAULT: u64 = 14;

/// An entry of the table.
#[derive(Debug, Clone, Copy, PartialEq, Eq, Structural)]
pub struct IdtEntry {
    /// Bits 0 to 15 of the address of the handler.
    pub offset_low: u16,
    /// The code segment.
    pub selector: u16,
    pub ist: u8,
    /// The kind of gate.
    pub type_attr: u8,
    /// Bits 16 to 31 of the address.
    pub offset_mid: u16,
    /// Bits 32 to 63 of the address.
    pub offset_high: u32,
    pub reserved: u32,
}

impl IdtEntry {
    /// An entry without a handler.
    pub open spec fn spec_empty() -> IdtEntry {
        IdtEntry {
            offset_low: 0,
            selector: 0,
            ist: 0,
            type_attr: 0,
            offset_mid: 0,
            offset_high: 0,
            reserved: 0,
        }
    }

    /// An entry for a handler.
    pub open spec fn gate(handler: u64, selector: u16, gate_type: u8) -> IdtEntry {
        IdtEntry {
            offset_low: (handler % 0x1_0000) as u16,
            selector,
            ist: 0,
            type_attr: gate_type,
            offset_mid: (handler / 0x1_0000 % 0x1_0000) as u16,
            offset_high: (handler / 0x1_0000_0000) as u32,
            reserved: 0,
        }
    }

    /// The address of the handler.
    pub open spec fn handler(self) -> int {
        self.offset_low + self.offset_mid * 0x1_0000 + self.offset_high * 0x1_0000_0000
    }

    /// An entry without a handler.
    pub fn empty() -> (r: IdtEntry)
        ensures
            r == IdtEntry::spec_empty(),
    {
        IdtEntry {
            offset_low: 0,
            selector: 0,
            ist: 0,
            type_attr: 0,
            offset_mid: 0,
            offset_high: 0,
            reserved: 0,
        }
    }

    /// Sets the handler.
    pub fn set_handler(&mut self, handler: u64, selector: u16, gate_type: u8)
        ensures
            *final(self) == IdtEntry::gate(handler, selector, gate_type),
    {
        self.offset_low = (handler % 0x1_0000) as u16;
        self.offset_mid = (handler / 0x1_0000 % 0x1_0000) as u16;
        self.offset_high = (handler / 0x1_0000_0000) as u32;
        self.selector = selector;
        self.ist = 0;
        self.type_attr = gate_type;
        self.reserved = 0;
    }
}

/// An entry leads to the handler that was set.
pub proof fn law_gate_leads_to_its_handler(handler: u64, selector: u16, gate_type: u8)
    ensures
        IdtEntry::gate(handler, selector, gate_type).handler() == handler,
{
}

/// Where the table is, as the processor takes it.
#[derive(Debug, Clone, Copy, PartialEq, Eq, Structural)]
pub struct IdtPointer {
    /// Bytes of the table less one.
    pub limit: u16,
    pub base: u64,
}

/// The table.
pub struct Idt {
    pub entries: [IdtEntry; IDT_SIZE],
}

impl Idt {
    /// A table without handlers.
    pub fn new() -> (r: Idt)
        ensures
            forall|i: int| 0 <= i < IDT_SIZE ==> r.entries@[i] == IdtEntry::spec_empty(),
    {
        Idt { entries: [IdtEntry::empty(); IDT_SIZE] }
    }
}

/// From one table to the other the handlers of the first 48 interrupts are set, and the
/// other entries stay.
pub open spec fn handlers_set(t: Seq<IdtEntry>, u: Seq<IdtEntry>, stubs: Seq<u64>) -> bool {
    &&& forall|i: int|
        0 <= i < HANDLER_COUNT ==> #[trigger] u[i] == IdtEntry::gate(
            stubs[i],
            gdt::KERNEL_CODE_SEL,
            INTERRUPT_GATE,
        )
    &&& forall|i: int| HANDLER_COUNT <= i < IDT_SIZE ==> #[trigger] u[i] == t[i]
}

/// Sets the handlers of the first 48 interrupts, and returns what the processor
/// has to load for a table at `base`.
pub fn init(idt: &mut Idt, stubs: &[u64; HANDLER_COUNT], base: u64) -> (r: IdtPointer)
    ensures
        r == (IdtPointer { limit: 4095, base }),
        handlers_set(old(idt).entries@, final(idt).entries@, stubs@),
        forall|i: int|
            0 <= i < HANDLER_COUNT ==> #[trigger] final(idt).entries@[i] == IdtEntry::gate(
                stubs@[i],
                gdt::KERNEL_CODE_SEL,
                INTERRUPT_GATE,
            ),
        forall|i: int|
            HANDLER_COUNT <= i < IDT_SIZE ==> #[trigger] final(idt).entries@[i] == old(
                idt,
            ).entries@[i],
{
    let mut i: usize = 0;
    while i < HANDLER_COUNT
        invariant
            i <= HANDLER_COUNT,
            forall|j: int|
                0 <= j < i ==> #[trigger] idt.entries@[j] == IdtEntry::gate(
                    stubs@[j],
                    gdt::KERNEL_CODE_SEL,
                    INTERRUPT_GATE,
                ),
            forall|j: int|
                i <= j < IDT_SIZE ==> #[trigger] idt.entries@[j] == old(idt).entries@[j],
        decreases HANDLER_COUNT - i,
    {
        let mut e: IdtEntry = idt.entries[i];
        e.set_handler(stubs[i], gdt::KERNEL_CODE_SEL, INTERRUPT_GATE);
        idt.entries[i] = e;
        i = i + 1;
    }
    IdtPointer { limit: IDT_SIZE as u16 * IDT_ENTRY_SIZE - 1, base }
}

/// The registers at an interrupt.
#[derive(Debug, Clone, Copy, PartialEq, Eq, Structural)]
pub struct InterruptFrame {
    pub r15: u64,
    pub r14: u64,
    pub r13: u64,
    pub r12: u64,
    pub r11: u64,
    pub r10: u64,
    pub r9: u64,
    pub r8: u64,
    pub rbp: u64,
    pub rdi: u64,
    pub rsi: u64,
    pub rdx: u64,
    pub rcx: u64,
    pub rbx: u64,
    pub rax: u64,
    /// The number of the interrupt.
    pub int_no: u64,
    pub error_code: u64,
    pub rip: u64,
    pub cs: u64,
    pub rflags: u64,
    pub rsp: u64,
    pub ss: u64,
}

/// A step of handling an interrupt.
#[derive(Debug, Clone, Copy, PartialEq, Eq, Structural)]
pub enum Action {
    /// Report the fault and stop.
    Halt,
    /// Tell the interrupt controller that a line was served.
    EndOfInterrupt(u8),
    /// Give the scheduler a tick.
    Tick,
    /// Take a code from the keyboard.
    ReadKey,
}

/// What is done about an interrupt, in order.
pub open spec fn actions(int_no: u64) -> Seq<Action> {
    if int_no < 32 {
        seq![Action::Halt]
    } else if int_no == 32 {
        seq![Action::EndOfInterrupt(0), Action::Tick]
    } else if int_no == 33 {
        seq![Action::ReadKey, Action::EndOfInterrupt(1)]
    } else if int_no < 48 {
        seq![Action::EndOfInterrupt((int_no - pic::IRQ_OFFSET) as u8)]
    } else {
        seq![]
    }
}

/// What is to be done about an interrupt: a fault stops the kernel, a device is
/// served. Other interrupts are passed over.
pub fn interrupt_dispatch(frame: &InterruptFrame) -> (r: Vec<Action>)
    ensures
        r@ == actions(frame.int_no),
{
    let mut r: Vec<Action> = Vec::new();
    match frame.int_no {
        0..=31 => {
            r.push(Action::Halt);
        },
        32 => {
            r.push(Action::EndOfInterrupt(0));
            r.push(Action::Tick);
        },
        33 => {
            r.push(Action::ReadKey);
            r.push(Action::EndOfInterrupt(1));
        },
        34..=47 => {
            r.push(Action::EndOfInterrupt((frame.int_no - pic::IRQ_OFFSET as u64) as u8));
        },
        _ => {},
    }
    assert(r@ =~= actions(frame.int_no));
    r
}

/// Every line of the interrupt controllers is told to be served, once.
pub proof fn law_every_line_is_served(irq: u8)
    requires
        irq < 16,
    ensures
        ({
            let a = actions((pic::IRQ_OFFSET + irq) as u64);
            exists|i: int|
                0 <= i < a.len() && #[trigger] a[i] == Action::EndOfInterrupt(irq)
                    && forall|j: int| 0 <= j < a.len() && a[j] is EndOfInterrupt ==> j == i
        }),
{
    let a = actions((pic::IRQ_OFFSET + irq) as u64);
    if irq == 1 {
        assert(a[1] == Action::EndOfInterrupt(irq));
    } else {
        assert(a[0] == Action::EndOfInterrupt(irq));
    }
}

/// The name of a fault.
pub open spec fn fault_name(int_no: u64) -> &'static str {
    match int_no {
        0 => "Division Error",
        1 => "Debug",
        2 => "Non-Maskable Interrupt",
        3 => "Breakpoint",
        4 => "Overflow",
        5 => "Bound Range Exceeded",
        6 => "Invalid Opcode",
        7 => "Device Not Available",
        8 => "Double Fault",
        9 => "Coprocessor Segment Overrun",
        10 => "Invalid TSS",
        11 => "Segment Not Present",
        12 => "Stack-Segment Fault",
        13 => "General Protection Fault",
        14 => "Page Fault",
        16 => "x87 FPU Error",
        17 => "Alignment Check",
        18 => "Machine Check",
        19 => "SIMD Exception",
        20 => "Virtualization Exception",
        21 => "Control Protection",
        30 => "Security Exception",
        _ => if int_no < 32 {
            "Reserved"
        } else {
            "Unknown"
        },
    }
}

/// The name of a fault.
pub fn exception_name(int_no: u64) -> (r: &'static str)
    ensures
        r == fault_name(int_no),
{
    match int_no {
        0 => "Division Error",
        1 => "Debug",
        2 => "Non-Maskable Interrupt",
        3 => "Breakpoint",
        4 => "Overflow",
        5 => "Bound Range Exceeded",
        6 => "Invalid Opcode",
        7 => "Device Not Available",
        8 => "Double Fault",
        9 => "Coprocessor Segment Overrun",
        10 => "Invalid TSS",
        11 => "Segment Not Present",
        12 => "Stack-Segment Fault",
        13 => "General Protection Fault",
        14 => "Page Fault",
        16 => "x87 FPU Error",
        17 => "Alignment Check",
        18 => "Machine Check",
        19 => "SIMD Exception",
        20 => "Virtualization Exception",
        21 => "Control Protection",
        30 => "Security Exception",
        _ => if int_no < 32 {
            "Reserved"
        } else {
            "Unknown"
        },
    }
}

/// Why a page could not be used.
#[derive(Debug, Clone, Copy)]
pub struct PageFaultCause {
    pub reason: &'static str,
    pub access: &'static str,
    pub mode: &'static str,
}

/// What the error code of a page fault says.
pub open spec fn fault_cause(error_code: u64) -> PageFaultCause {
    PageFaultCause {
        reason: if error_code % 2 == 0 {
            "page not present"
        } else {
            "protection violation"
        },
        access: if error_code / 2 % 2 == 1 {
            ", write"
        } else {
            ", read"
        },
        mode: if error_code / 4 % 2 == 1 {
            ", user-mode"
        } else {
            ", kernel-mode"
        },
    }
}

/// What is reported of a fault beside the registers.
#[derive(Debug, Clone, Copy)]
pub struct FaultReport {
    pub name: &'static str,
    /// For a page fault, its cause.
    pub cause: Option<PageFaultCause>,
}

/// What is reported of a fault.
pub fn handle_exception(frame: &InterruptFrame) -> (r: FaultReport)
    ensures
        r == (FaultReport {
            name: fault_name(frame.int_no),
            cause: if frame.int_no == PAGE_FAULT {
                Some(fault_cause(frame.error_code))
            } else {
                None
            },
        }),
{
    let name: &'static str = exception_name(frame.int_no);
    let cause: Option<PageFaultCause> = if frame.int_no == PAGE_FAULT {
        let reason: &'static str = if frame.error_code % 2 == 0 {
            "page not present"
        } else {
            "protection violation"
        };
        let access: &'static str = if frame.error_code / 2 % 2 == 1 {
            ", write"
        } else {
            ", read"
        };
        let mode: &'static str = if frame.error_code / 4 % 2 == 1 {
            ", user-mode"
        } else {
            ", kernel-mode"
        };
        Some(PageFaultCause { reason, access, mode })
    } else {
        None
    };
    FaultReport { name, cause }
}

} // verus!
