//! From a syntax tree to functions, variables, calls and flows.

pub mod members;
pub mod moves;
pub mod nodes;
pub mod objects;
pub mod state;
pub mod types;
pub mod exprs;
pub mod flows;
pub mod accesses;
pub mod bodies;
pub mod calls;
pub mod decls;
pub mod unit;
pub mod later;
pub mod laws;
pub mod shapes;
pub mod written;
