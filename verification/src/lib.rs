//! A deterministic multi-tape Turing machine: a parser for a small
//! line-oriented machine-description language, and an execution engine
//! that applies transitions across all tapes in lock-step.

pub mod machine;
pub mod parser;
pub mod text;

pub use machine::{Move, RuntimeError, State, Tape, Transition, TuringMachine};
pub use parser::{ParseError, ParseErrorKind};
