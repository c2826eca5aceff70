//! A verified CHIP-8 interpreter core: a 4KB byte memory, sixteen 8-bit
//! registers, a 16-level call stack, a 64x32 monochrome framebuffer, two
//! countdown timers and a 16-key pad, driven by a fetch-decode-execute loop.
//!
//! The decoder is a pure function from a 16-bit opcode to a tagged
//! instruction; the executor applies a decoded instruction to the machine
//! state and either advances the program counter or surfaces a `Fault`.

use vstd::prelude::*;

pub mod decode;
pub mod laws;
pub mod machine;

verus! {

/// A fault surfaced to the caller of `Simulator::step`. Every fault is
/// terminal for that one `step` call only: the machine state is left exactly
/// as it was before the call, and the caller decides the recovery policy.
#[derive(Clone, Copy, Debug, PartialEq, Eq, Structural)]
pub enum Fault {
    /// The fetched opcode matches no instruction pattern; carries the raw opcode.
    UnknownOpcode(u16),
    /// A `CALL` was executed with 16 return addresses already on the stack.
    StackOverflow,
    /// A `RET` was executed with no active call frame.
    StackUnderflow,
    /// An index-register-relative access (or an opcode fetch) runs past address 4095.
    MemoryOutOfBounds,
}

/// The error returned by `Simulator::load_program` when the program does not
/// fit into the 3584 bytes of memory above the program start address.
#[derive(Clone, Copy, Debug, PartialEq, Eq, Structural)]
pub struct ProgramTooLarge;

} // verus!
