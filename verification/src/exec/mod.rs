//! Running a program.

pub mod console;
pub mod error;
pub mod execute;
pub mod semantics;
pub mod state;
pub mod theorems;
pub mod value;

pub use console::ConsoleOp;
pub use error::{ErrorKind, RunError};
pub use execute::{answer, execute, step, take_answer, End, Flow, Pending, Run, Status};
pub use state::{LoopState, State, Variables};
pub use value::Value;
