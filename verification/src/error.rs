//! The machine's fault taxonomy.

use vstd::prelude::*;

verus! {

/// Faults raised by the virtual machine.
///
/// Loading a too-large program image and an out-of-range keypad index are
/// recoverable; every other variant is a fatal execution fault that aborts
/// the current step and must be surfaced by the driving loop.
#[derive(Clone, Copy, Debug, PartialEq, Eq, Structural)]
pub enum VmError {
    /// A program image that does not fit in memory behind the load address.
    RomTooLarge,
    /// A keypad index at or above `KEYS_COUNT`.
    InvalidKeyIndex,
    /// A call opcode with the return-address stack already full.
    StackOverflow,
    /// A return opcode with the return-address stack empty.
    StackUnderflow,
    /// A memory access beyond `RAM_SIZE`, or a register-transfer opcode that
    /// runs past the flag-storage bank.
    MemoryOutOfBounds,
    /// An audio buffer that runs past the end of memory.
    AudioOutOfBounds,
    /// An opcode that neither an active extension nor the base table accepts.
    UnknownOpcode,
    /// The explicit exit opcode of an extension: a deliberate, fatal halt.
    Exit,
}

} // verus!
