//! Polling UART transmitter.

use vstd::prelude::*;
use crate::device::{DeviceInfo, DeviceWrite};
use crate::port::PortOp;

verus! {

pub const SERIAL0: u16 = 0x03F8;

pub const SERIAL1: u16 = 0x02F8;

pub const SERIAL2: u16 = 0x03E8;

pub const SERIAL3: u16 = 0x02E8;

/// Bit of the line status register that says the transmit holding register
/// is empty.
pub const TRANSMIT_EMPTY: u8 = 0x20;

/// The writes that set a UART up: interrupts off, divisor latch open, divisor
/// 3, interrupts off, 8-N-1 framing, FIFO control, modem control.
pub open spec fn setup_ops(port: u16) -> Seq<PortOp> {
    seq![
        PortOp::Write { port: (port + 1) as u16, value: 0x00 },
        PortOp::Write { port: (port + 3) as u16, value: 0x80 },
        PortOp::Write { port, value: 0x03 },
        PortOp::Write { port: (port + 1) as u16, value: 0x00 },
        PortOp::Write { port: (port + 3) as u16, value: 0x03 },
        PortOp::Write { port: (port + 2) as u16, value: 0xC7 },
        PortOp::Write { port: (port + 4) as u16, value: 0x03 },
    ]
}

/// Sending one byte: wait on the line status register until the transmit
/// holding register is empty, then write the byte to the data register.
pub open spec fn send_ops(port: u16, b: u8) -> Seq<PortOp> {
    seq![
        PortOp::Await { port: (port + 5) as u16, mask: TRANSMIT_EMPTY },
        PortOp::Write { port, value: b },
    ]
}

/// What a serial device is: its base port and the port operations issued so
/// far.
pub struct Line {
    pub port: u16,
    pub ops: Seq<PortOp>,
}

impl Line {
    /// The line after `b` was sent.
    pub open spec fn sent(self, b: u8) -> Line {
        Line { ops: self.ops + send_ops(self.port, b), ..self }
    }
}

/// Serial device.
pub struct SerialDevice {
    port: u16,
    ops: Vec<PortOp>,
}

impl View for SerialDevice {
    type V = Line;

    closed spec fn view(&self) -> Line {
        Line { port: self.port, ops: self.ops@ }
    }
}

impl SerialDevice {
    /// The registers of the UART lie inside the port space.
    pub open spec fn wf(&self) -> bool {
        self@.port <= 0xFFFA
    }

    /// A serial device on the UART at `port`, with the writes that set the
    /// UART up issued.
    pub fn new(port: u16) -> (d: SerialDevice)
        requires
            port <= 0xFFFA,
        ensures
            d.wf(),
            d@ == (Line { port, ops: setup_ops(port) }),
    {
        let mut device = SerialDevice { port, ops: Vec::new() };
        device.initialize();
        assert(device@.ops =~= setup_ops(port));
        device
    }

    /// Issues the writes that set the UART up.
    pub fn initialize(&mut self)
        requires
            old(self).wf(),
        ensures
            final(self).wf(),
            final(self)@ == (Line { ops: old(self)@.ops + setup_ops(old(self)@.port), ..old(self)@ }),
    {
        self.ops.push(PortOp::Write { port: self.port + 1, value: 0x00 });
        self.ops.push(PortOp::Write { port: self.port + 3, value: 0x80 });
        self.ops.push(PortOp::Write { port: self.port, value: 0x03 });
        self.ops.push(PortOp::Write { port: self.port + 1, value: 0x00 });
        self.ops.push(PortOp::Write { port: self.port + 3, value: 0x03 });
        self.ops.push(PortOp::Write { port: self.port + 2, value: 0xC7 });
        self.ops.push(PortOp::Write { port: self.port + 4, value: 0x03 });
        assert(self@.ops =~= old(self)@.ops + setup_ops(old(self)@.port));
    }

    /// Issues the wait for the transmit holding register to be empty.
    pub fn await_ready_state(&mut self)
        requires
            old(self).wf(),
        ensures
            final(self).wf(),
            final(self)@ == (Line {
                ops: old(self)@.ops.push(
                    PortOp::Await { port: (old(self)@.port + 5) as u16, mask: TRANSMIT_EMPTY },
                ),
                ..old(self)@
            }),
    {
        self.ops.push(PortOp::Await { port: self.port + 5, mask: TRANSMIT_EMPTY });
    }

    /// Sends one byte: the wait, then the write to the data register.
    pub fn write_byte(&mut self, b: u8)
        requires
            old(self).wf(),
        ensures
            final(self).wf(),
            final(self)@ == old(self)@.sent(b),
    {
        self.await_ready_state();
        self.ops.push(PortOp::Write { port: self.port, value: b });
        assert(self@.ops =~= old(self)@.ops + send_ops(old(self)@.port, b));
    }

    /// Whether the device meets its invariant, for callers that have no proof
    /// of it.
    pub fn in_order(&self) -> (ok: bool)
        ensures
            ok == self.wf(),
    {
        self.port <= 0xFFFA
    }

    /// Hands over the port operations issued since the last call, in order,
    /// for the hardware to receive them.
    pub fn take_port_ops(&mut self) -> (ops: Vec<PortOp>)
        ensures
            ops@ == old(self)@.ops,
            final(self)@ == (Line { ops: Seq::empty(), ..old(self)@ }),
    {
        let mut ops: Vec<PortOp> = Vec::new();
        std::mem::swap(&mut ops, &mut self.ops);
        ops
    }
}

impl DeviceWrite for SerialDevice {
    type State = Line;

    open spec fn state(&self) -> Line {
        self@
    }

    open spec fn wf(&self) -> bool {
        self@.port <= 0xFFFA
    }

    open spec fn step(s: Line, b: u8) -> Line {
        s.sent(b)
    }

    fn write_byte(&mut self, _dev: &DeviceInfo, b: u8) {
        SerialDevice::write_byte(self, b);
    }
}

} // verus!
