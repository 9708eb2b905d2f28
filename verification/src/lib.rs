//! Call-graph and pointer analysis for C and C++ sources.
//!
//! The crate holds the analysis itself: the preprocessor, the reading of syntax
//! trees, their lowering to an intermediate representation, the merging of
//! translation units, the points-to solver, the rows that an export writes and
//! the words that a command line uses. Reading files and talking to a database
//! happen around it.

pub mod analysis;
pub mod cli;
pub mod collections;
pub mod entries;
pub mod export;
pub mod index;
pub mod ir;
pub mod paths;
pub mod preproc;
pub mod text;
