//! The conditions that end emulation.

use vstd::prelude::*;

verus! {

/// A fatal condition. The machine that reports one is left as it was before
/// the failing operation.
#[derive(Clone, Copy, Debug, PartialEq, Eq, Structural)]
pub enum ChipError {
    /// The program does not fit between 0x200 and the end of memory.
    RomTooLarge { len: usize },
    /// A call was made with all 15 return slots in use.
    StackOverflow { opcode: u16, pc: u16 },
    /// A return was made with no call pending.
    StackUnderflow { opcode: u16, pc: u16 },
    /// The program counter does not address two bytes of memory, or a skip or
    /// a rewind would take it out of its 16 bits.
    PcOutOfBounds { pc: u16 },
    /// An instruction addressed memory through the index register past the
    /// last byte.
    MemoryOutOfBounds { opcode: u16, index: u16 },
}

} // verus!
