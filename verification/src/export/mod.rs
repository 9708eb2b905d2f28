//! What an analysis leaves in a database: rows, table by table.

pub mod edges;
pub mod flow_graph;
pub mod laws;
pub mod options;
pub mod rows;
pub mod tables;
pub mod telling;
