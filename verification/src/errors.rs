use vstd::prelude::*;

verus! {

/// A failure surfaced by the virtual machine core.  The core never
/// retries: every failure is returned to the caller of the cycle,
/// which decides whether to halt the run or report it.
#[derive(Clone, Copy, Debug, PartialEq, Eq, Structural)]
pub enum EmulationError {
    /// No instruction family or second-level code matches the fetched
    /// word; carries the raw opcode value.
    UnknownOpcode(u16),
    /// A return instruction was executed with an empty call stack.
    StackUnderflow,
    /// A memory access fell outside addresses 0..=4095.
    AddressOutOfRange,
}

} // verus!
