//! A deterministic Turing-machine interpreter.
//!
//! A [`TuringMachine`] is an immutable transition table over two symbol
//! alphabets; a [`TMExecution`] is one run of such a machine on an encoded
//! input word, advanced step by step until it accepts, rejects, or exhausts
//! an optional time or space budget.

pub mod execution;
pub mod laws;
pub mod machine;
pub mod model;
pub mod render;

pub use execution::{HeadOverflowFault, TMClock, TMExecution, TMStatus};
pub use machine::{State, Symbol, Transition, TuringMachine, UnknownSymbolError};
