//! An interpreter for block-based Scratch programs, verified with Verus.
//!
//! The program is handed over as a [`program::Program`], a table of blocks
//! whose references are indices into that table. Values are produced and
//! combined through the [`value::ScratchValue`] trait, and everything the
//! program reads from or writes to the outside world goes through a
//! [`state::State`] implementation supplied by the caller.

pub mod builder;
pub mod calls;
pub mod default_state;
pub mod error;
pub mod frames;
mod interpreter;
pub mod laws;
pub mod block_laws;
pub mod limits;
pub mod program;
pub mod semantics;
pub mod stack;
pub mod steps;
pub mod state;
pub mod value;

pub use builder::{Interpreter, Report};
pub use error::RunError;
pub use limits::Limits;
pub use stack::{Stack, StackItem};
pub use state::{OutputKind, State};
