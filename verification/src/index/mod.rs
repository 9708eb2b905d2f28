//! From source files to a program.

pub mod brought;
pub mod builds;
pub mod carried;
pub mod contents;
pub mod discover;
pub mod files;
pub mod includes;
pub mod laws;
pub mod lower;
pub mod merge;
pub mod names;
pub mod parse;
pub mod project;
pub mod references;
pub mod repeats;
pub mod sources;
pub mod stand_ins;
pub mod syntax;
