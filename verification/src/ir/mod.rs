//! The shared representation of a program.

pub mod diagnostic;
pub mod flow;
pub mod ids;
pub mod ipc;
pub mod layout;
pub mod lookup;
pub mod program;
pub mod symbol;
pub mod types;
