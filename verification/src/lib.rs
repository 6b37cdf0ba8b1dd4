//! An interpreter for a minimal tape language: a parser that turns program
//! text into a tree with explicit loops, and a machine that walks the tree.
//!
//! [`AST::from_string`] parses a program. [`MachineState::run`] executes a
//! tree to its end, reading from and writing to [`Channels`] that hold the
//! bytes in memory; the number of loop repetitions is bounded by a budget.
//! [`Walk`] executes the same tree one step at a time, for callers that
//! feed input and take output away while the program runs.
//!
//! What the functions do is stated over mathematical forms of the data:
//! `ast::Tree` for a program, `machine::Tape` for the machine,
//! `channels::Streams` for the channels, and `semantics::execute` for the
//! meaning of a program.

pub mod ast;
pub mod channels;
pub mod dump;
pub mod machine;
pub mod operation;
pub mod render;
pub mod semantics;
pub mod walk;

pub use ast::AST;
pub use channels::Channels;
pub use machine::{MachineState, RunError};
pub use operation::{Computation, Direction, Operation};
pub use walk::Walk;
