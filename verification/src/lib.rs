//! Verified core of a small garden sprinkler controller: the switch state
//! machine, the status log and its readers, the graph data builder and the
//! request router of its web interface.

pub mod text;
pub mod status;
pub mod graph;
pub mod route;
pub mod switch;
pub mod store;
