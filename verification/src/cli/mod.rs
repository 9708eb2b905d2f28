//! What the command line decides: how a run is configured, what it reports,
//! and what is asked of a database.

pub mod configure;
pub mod inspect;
pub mod laws;
pub mod pattern;
pub mod summary;
pub mod walk;
