use vstd::prelude::*;

verus! {

/// A recoverable fault raised by the machine.
#[derive(Debug, Clone, Copy, PartialEq, Eq, Structural)]
pub enum Chip8Error {
    /// An access to an address outside the 4096-byte memory.
    AddressingFault { addr: usize },
    /// An instruction word that names no instruction, with the address it was fetched from.
    UnknownOpcode { pc: u16, instruction: u16 },
    /// A key instruction naming a key code above 0xF, with the address it
    /// was fetched from.
    KeyOutOfRange { pc: u16, key: u8 },
    /// A return with an empty call stack.
    StackUnderflow,
    /// A call when the call stack already holds its maximum depth.
    StackOverflow,
}

} // verus!
