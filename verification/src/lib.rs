//! An interpreter for a small line-numbered BASIC dialect.
//!
//! [`parser`] turns source text into statements, [`exec`] runs them;
//! [`precedence`] shows that arithmetic is read and evaluated by the usual
//! rules, and [`text`] holds what all of them say about characters and
//! numbers in writing. Every function carries a contract over the
//! mathematical models defined beside it; what rests on code that was not
//! verified is marked as trusted where it is declared.

pub mod exec;
pub mod parser;
pub mod precedence;
pub mod text;
