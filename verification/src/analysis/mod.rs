//! Which values pointers may hold, and which functions calls may reach.

pub mod arguments;
pub mod bridges;
pub mod calls;
pub mod constraints;
pub mod edges;
pub mod ending;
pub mod fields;
pub mod flows;
pub mod growth;
pub mod held;
pub mod laws;
pub mod models;
pub mod nodes;
pub mod pag;
pub mod places;
pub mod progress;
pub mod results;
pub mod solver;
pub mod state;
pub mod targets;
pub mod wiring;
