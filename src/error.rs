use vstd::prelude::*;

verus! {

/// Why a load or an instruction cycle failed. A failed operation leaves the
/// machine unchanged.
#[derive(Clone, Copy, Debug, PartialEq, Eq, Structural)]
pub enum Chip8Error {
    /// The program does not fit in memory above the load address.
    RomTooLarge,
    /// A call with all stack slots in use.
    StackOverflow,
    /// A return with no pending return address.
    StackUnderflow,
    /// An instruction fetch or a memory access past the end of memory.
    AddressOutOfRange,
    /// A key instruction whose register holds a value above the highest key.
    KeyOutOfRange,
}

} // verus!
