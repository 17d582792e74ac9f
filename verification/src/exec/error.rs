//! What can end a run before the program does.

use vstd::prelude::*;

verus! {

/// The kinds of failure of a running program. Each ends the run.
#[derive(Debug, Clone, Copy, PartialEq, Eq, Structural)]
pub enum ErrorKind {
    /// A variable was read before anything was assigned to it.
    NameError,
    /// A value is not of the kind the statement asks for.
    TypeError,
    /// The divisor of a division is zero.
    DivisionByZero,
    /// A jump leads outside the program.
    InvalidJumpTarget,
    /// `NEXT` without its `FOR`, or a loop whose step is zero.
    LoopStackError,
    /// The user answered `STOP` to an `INPUT`.
    UserAbort,
    /// The console could not be read.
    IOError,
}

/// A failure together with the index of the statement that caused it.
#[derive(Debug, Clone, Copy, PartialEq, Eq, Structural)]
pub struct RunError {
    pub index: usize,
    pub kind: ErrorKind,
}

} // verus!
