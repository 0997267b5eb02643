//! Port operations that a device asks the kernel to perform.

use vstd::prelude::*;

verus! {

/// One operation on the CPU's 16-bit I/O port space.
#[derive(Clone, Copy, Debug, PartialEq, Eq, Structural)]
pub enum PortOp {
    /// Write `value` to `port`.
    Write { port: u16, value: u8 },
    /// Read `port` again and again until a bit of `mask` is set in what was read.
    Await { port: u16, mask: u8 },
}

/// Whether a byte read from a port ends a wait on `mask`.
pub open spec fn mask_met(mask: u8, status: u8) -> bool {
    status & mask != 0
}

impl PortOp {
    /// Decides, for a byte just read from the awaited port, whether the wait is
    /// over. A write is never held up.
    pub fn satisfied_by(&self, status: u8) -> (done: bool)
        ensures
            done == match *self {
                PortOp::Write { .. } => true,
                PortOp::Await { mask, .. } => mask_met(mask, status),
            },
    {
        match *self {
            PortOp::Write { .. } => true,
            PortOp::Await { mask, .. } => status & mask != 0,
        }
    }
}

} // verus!
