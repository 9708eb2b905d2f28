//! The C preprocessor.

pub mod arithmetic;
pub mod builtins;
pub mod compose;
pub mod condition;
pub mod directives;
pub mod engine;
pub mod laws;
pub mod lexer;
pub mod line_map;
pub mod macros;
pub mod meaning;
pub mod options;
pub mod run;
pub mod semantics;
pub mod state;
pub mod steps;
pub mod substitute;
pub mod token;
pub mod words;
