use vstd::prelude::*;

verus! {

/// A failure raised while a machine executes bytecode.
#[derive(Debug, Clone, Copy, PartialEq, Eq, Structural)]
pub enum MachineError {
    /// The fetched opcode word does not name any instruction.
    InvalidOpcode,
    /// A pop was attempted on an empty operand stack.
    StackUnderflow,
    /// A push would grow the stack past its reserved region.
    StackOverflow,
    /// A memory access named an address outside the address space.
    AddressOutOfRange,
    /// The cycle limit was exhausted before the program halted.
    HangingProgram,
}

} // verus!
