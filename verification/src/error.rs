use vstd::prelude::*;

verus! {

/// Errors surfaced by the grid builder, the compiler and the executors.
#[derive(Debug, Clone, Copy, PartialEq, Eq, Structural)]
pub enum VmError {
    /// A pixel outside the 20-color palette, in strict mode.
    InvalidColor(u8, u8, u8),
    DivisionByZero,
    EmptyStack,
    StackUnderflow,
    InvalidInput,
    OutOfBounds,
    Halted,
    /// The watchdog step limit was exceeded; carries the step count.
    ExecutionTimeout(usize),
}

} // verus!
