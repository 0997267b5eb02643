//! Runtime core of a freestanding kernel: a grow-and-reuse heap allocator and
//! a device layer with a VGA text console and a polling serial transmitter.
//!
//! Hardware is never touched here. Devices record the port operations they
//! want performed, in order, and the surrounding kernel carries them out.

pub mod port;
pub mod console;
pub mod heap;
pub mod device;
pub mod serial;
pub mod terminal;
pub mod pic;
