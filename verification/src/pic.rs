//! The two interrupt controllers: which writes to their ports set them up.
//!
//! Lines 0 to 7 belong to the first controller, 8 to 15 to the second one, which
//! is connected to line 2 of the first.

use vstd::prelude::*;

verus! {

pub const PIC1_COMMAND: u16 = 0x20;

pub const PIC1_DATA: u16 = 0x21;

pub const PIC2_COMMAND: u16 = 0xA0;

pub const PIC2_DATA: u16 = 0xA1;

/// A port that nobody uses: a write to it takes a while.
pub const WAIT_PORT: u16 = 0x80;

/// Start to set a controller up.
pub const ICW1_INIT: u8 = 0x11;

pub const ICW4_8086: u8 = 0x01;

/// An interrupt was served.
pub const PIC_EOI: u8 = 0x20;

/// The interrupt that line 0 becomes.
pub const IRQ_OFFSET: u8 = 32;

/// A write to a port.
#[derive(Debug, Clone, Copy, PartialEq, Eq, Structural)]
pub struct PortWrite {
    pub port: u16,
    pub value: u8,
}

/// A write to a port.
pub open spec fn port(port: u16, value: u8) -> PortWrite {
    PortWrite { port, value }
}

/// The writes that set the controllers up: lines 0 to 15 become interrupts 32 to
/// 47, and every line is off.
pub open spec fn setup() -> Seq<PortWrite> {
    seq![
        port(PIC1_COMMAND, ICW1_INIT),
        port(WAIT_PORT, 0),
        port(PIC2_COMMAND, ICW1_INIT),
        port(WAIT_PORT, 0),
        port(PIC1_DATA, 32),
        port(WAIT_PORT, 0),
        port(PIC2_DATA, 40),
        port(WAIT_PORT, 0),
        port(PIC1_DATA, 0x04),
        port(WAIT_PORT, 0),
        port(PIC2_DATA, 0x02),
        port(WAIT_PORT, 0),
        port(PIC1_DATA, ICW4_8086),
        port(WAIT_PORT, 0),
        port(PIC2_DATA, ICW4_8086),
        port(WAIT_PORT, 0),
        port(PIC1_DATA, 0xFF),
        port(PIC2_DATA, 0xFF),
    ]
}

/// Adds a write and a pause.
fn send(writes: &mut Vec<PortWrite>, port: u16, value: u8)
    ensures
        final(writes)@ == old(writes)@.push(self::port(port, value)).push(
            self::port(WAIT_PORT, 0),
        ),
{
    writes.push(PortWrite { port, value });
    writes.push(PortWrite { port: WAIT_PORT, value: 0 });
}

/// The writes that set the controllers up. See `setup`.
pub fn init() -> (r: Vec<PortWrite>)
    ensures
        r@ == setup(),
{
    let mut w: Vec<PortWrite> = Vec::new();
    send(&mut w, PIC1_COMMAND, ICW1_INIT);
    send(&mut w, PIC2_COMMAND, ICW1_INIT);
    send(&mut w, PIC1_DATA, IRQ_OFFSET);
    send(&mut w, PIC2_DATA, IRQ_OFFSET + 8);
    send(&mut w, PIC1_DATA, 0x04);
    send(&mut w, PIC2_DATA, 0x02);
    send(&mut w, PIC1_DATA, ICW4_8086);
    send(&mut w, PIC2_DATA, ICW4_8086);
    w.push(PortWrite { port: PIC1_DATA, value: 0xFF });
    w.push(PortWrite { port: PIC2_DATA, value: 0xFF });
    assert(w@ =~= setup());
    w
}

/// A mask with bit `k` cleared.
pub open spec fn cleared(mask: u8, k: u8) -> u8 {
    mask & !(1u8 << k)
}

/// The writes that turn a line on, given what the two masks hold. For a line of
/// the second controller, the line that connects it is turned on too.
pub fn unmask(irq: u8, mask1: u8, mask2: u8) -> (r: Vec<PortWrite>)
    requires
        irq < 16,
    ensures
        r@ == (if irq < 8 {
            seq![port(PIC1_DATA, cleared(mask1, irq))]
        } else {
            seq![
                port(PIC1_DATA, cleared(mask1, 2)),
                port(PIC2_DATA, cleared(mask2, (irq - 8) as u8)),
            ]
        }),
{
    let mut w: Vec<PortWrite> = Vec::new();
    if irq < 8 {
        w.push(PortWrite { port: PIC1_DATA, value: mask1 & !(1u8 << irq) });
    } else {
        let k: u8 = irq - 8;
        w.push(PortWrite { port: PIC1_DATA, value: mask1 & !(1u8 << 2u8) });
        w.push(PortWrite { port: PIC2_DATA, value: mask2 & !(1u8 << k) });
    }
    assert(w@ =~= (if irq < 8 {
        seq![port(PIC1_DATA, cleared(mask1, irq))]
    } else {
        seq![
            port(PIC1_DATA, cleared(mask1, 2)),
            port(PIC2_DATA, cleared(mask2, (irq - 8) as u8)),
        ]
    }));
    w
}

/// The write that turns a line off, given what the mask of its controller holds.
pub fn mask(irq: u8, current: u8) -> (r: PortWrite)
    requires
        irq < 16,
    ensures
        r == (if irq < 8 {
            port(PIC1_DATA, current | (1u8 << irq))
        } else {
            port(PIC2_DATA, current | (1u8 << ((irq - 8) as u8)))
        }),
{
    if irq < 8 {
        PortWrite { port: PIC1_DATA, value: current | (1u8 << irq) }
    } else {
        let k: u8 = irq - 8;
        PortWrite { port: PIC2_DATA, value: current | (1u8 << k) }
    }
}

/// The writes that tell the controllers that a line was served: the first one
/// always, the second one before it for its own lines.
pub fn send_eoi(irq: u8) -> (r: Vec<PortWrite>)
    ensures
        r@ == (if irq >= 8 {
            seq![port(PIC2_COMMAND, PIC_EOI), port(PIC1_COMMAND, PIC_EOI)]
        } else {
            seq![port(PIC1_COMMAND, PIC_EOI)]
        }),
{
    let mut w: Vec<PortWrite> = Vec::new();
    if irq >= 8 {
        w.push(PortWrite { port: PIC2_COMMAND, value: PIC_EOI });
    }
    w.push(PortWrite { port: PIC1_COMMAND, value: PIC_EOI });
    assert(w@ =~= (if irq >= 8 {
        seq![port(PIC2_COMMAND, PIC_EOI), port(PIC1_COMMAND, PIC_EOI)]
    } else {
        seq![port(PIC1_COMMAND, PIC_EOI)]
    }));
    w
}

/// Turning a line on or off touches no other line of the controller, and turning
/// it on undoes turning it off.
pub proof fn law_masks_are_set_line_by_line(mask: u8, k: u8, j: u8)
    by (bit_vector)
    requires
        k < 8,
        j < 8,
    ensures
        (mask & !(1u8 << k)) & (1u8 << k) == 0,
        (mask | (1u8 << k)) & (1u8 << k) != 0,
        j != k ==> (mask & !(1u8 << k)) & (1u8 << j) == mask & (1u8 << j),
        j != k ==> (mask | (1u8 << k)) & (1u8 << j) == mask & (1u8 << j),
        mask & (1u8 << k) == 0 ==> (mask | (1u8 << k)) & !(1u8 << k) == mask,
{
}

} // verus!
