//! Remapping of the two interrupt controllers: a fixed sequence of port
//! writes.

use vstd::prelude::*;
use crate::port::PortOp;

verus! {

pub const PIC_EOI: u8 = 0x20;

pub const PIC_UNMASK: u8 = 0x00;

pub const PIC_MASK: u8 = 0xFF;

pub const PIC_MASTER_COMMAND: u16 = 0x20;

pub const PIC_MASTER_DATA: u16 = 0x21;

pub const PIC_SLAVE_COMMAND: u16 = 0xA0;

pub const PIC_SLAVE_DATA: u16 = 0xA1;

pub const PIC_ICW1_ICW4: u8 = 0x01;

pub const PIC_ICW1_INIT: u8 = 0x10;

pub const PIC_ICW2_MASTER_OFF: u8 = 0x20;

pub const PIC_ICW2_SLAVE_OFF: u8 = 0x28;

pub const PIC_ICW3_CASCADE: u8 = 0x02;

pub const PIC_ICW3_IRQ2_SLAVE: u8 = 0x04;

pub const PIC_ICW4_8086: u8 = 0x01;

/// Port that is written to let the controller settle.
pub const WAIT_PORT: u16 = 0x80;

/// A write of `val` to `addr`, and the write that lets it settle.
pub open spec fn settled_write(addr: u16, val: u8) -> Seq<PortOp> {
    seq![PortOp::Write { port: addr, value: val }, PortOp::Write { port: WAIT_PORT, value: 0 }]
}

/// The four initialisation words of one controller.
pub open spec fn controller_words(command: u16, data: u16, offset: u8, wiring: u8) -> Seq<PortOp> {
    settled_write(command, 0x11) + settled_write(data, offset) + settled_write(data, wiring)
        + settled_write(data, PIC_ICW4_8086)
}

/// The whole remapping: master, slave, then both unmasked.
pub open spec fn remap_ops() -> Seq<PortOp> {
    controller_words(
        PIC_MASTER_COMMAND,
        PIC_MASTER_DATA,
        PIC_ICW2_MASTER_OFF,
        PIC_ICW3_IRQ2_SLAVE,
    ) + controller_words(PIC_SLAVE_COMMAND, PIC_SLAVE_DATA, PIC_ICW2_SLAVE_OFF, PIC_ICW3_CASCADE)
        + settled_write(PIC_MASTER_DATA, PIC_UNMASK) + settled_write(PIC_SLAVE_DATA, PIC_UNMASK)
}

/// The pair of interrupt controllers.
pub struct PIC;

impl PIC {
    /// The port writes that move the interrupts of both controllers behind
    /// the processor's own and unmask them.
    pub fn remap() -> (ops: Vec<PortOp>)
        ensures
            ops@ == remap_ops(),
    {
        let mut ops: Vec<PortOp> = Vec::new();
        PIC::remap_master(&mut ops);
        PIC::remap_slave(&mut ops);
        PIC::enable(&mut ops);
        assert(ops@ =~= remap_ops());
        ops
    }

    fn remap_master(ops: &mut Vec<PortOp>)
        ensures
            final(ops)@ == old(ops)@ + controller_words(
                PIC_MASTER_COMMAND,
                PIC_MASTER_DATA,
                PIC_ICW2_MASTER_OFF,
                PIC_ICW3_IRQ2_SLAVE,
            ),
    {
        PIC::outb_wait(ops, PIC_MASTER_COMMAND, PIC_ICW1_INIT + PIC_ICW1_ICW4);
        PIC::outb_wait(ops, PIC_MASTER_DATA, PIC_ICW2_MASTER_OFF);
        PIC::outb_wait(ops, PIC_MASTER_DATA, PIC_ICW3_IRQ2_SLAVE);
        PIC::outb_wait(ops, PIC_MASTER_DATA, PIC_ICW4_8086);
        assert(ops@ =~= old(ops)@ + controller_words(
            PIC_MASTER_COMMAND,
            PIC_MASTER_DATA,
            PIC_ICW2_MASTER_OFF,
            PIC_ICW3_IRQ2_SLAVE,
        ));
    }

    fn remap_slave(ops: &mut Vec<PortOp>)
        ensures
            final(ops)@ == old(ops)@ + controller_words(
                PIC_SLAVE_COMMAND,
                PIC_SLAVE_DATA,
                PIC_ICW2_SLAVE_OFF,
                PIC_ICW3_CASCADE,
            ),
    {
        PIC::outb_wait(ops, PIC_SLAVE_COMMAND, PIC_ICW1_INIT + PIC_ICW1_ICW4);
        PIC::outb_wait(ops, PIC_SLAVE_DATA, PIC_ICW2_SLAVE_OFF);
        PIC::outb_wait(ops, PIC_SLAVE_DATA, PIC_ICW3_CASCADE);
        PIC::outb_wait(ops, PIC_SLAVE_DATA, PIC_ICW4_8086);
        assert(ops@ =~= old(ops)@ + controller_words(
            PIC_SLAVE_COMMAND,
            PIC_SLAVE_DATA,
            PIC_ICW2_SLAVE_OFF,
            PIC_ICW3_CASCADE,
        ));
    }

    fn enable(ops: &mut Vec<PortOp>)
        ensures
            final(ops)@ == old(ops)@ + settled_write(PIC_MASTER_DATA, PIC_UNMASK) + settled_write(
                PIC_SLAVE_DATA,
                PIC_UNMASK,
            ),
    {
        PIC::outb_wait(ops, PIC_MASTER_DATA, PIC_UNMASK);
        PIC::outb_wait(ops, PIC_SLAVE_DATA, PIC_UNMASK);
    }

    fn outb_wait(ops: &mut Vec<PortOp>, addr: u16, val: u8)
        ensures
            final(ops)@ == old(ops)@ + settled_write(addr, val),
    {
        ops.push(PortOp::Write { port: addr, value: val });
        ops.push(PortOp::Write { port: WAIT_PORT, value: 0x00 });
        assert(ops@ =~= old(ops)@ + settled_write(addr, val));
    }
}

} // verus!
