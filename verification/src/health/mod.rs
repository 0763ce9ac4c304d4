//! Health of a session: what sensors report, and the summary of it all.
pub mod performance;
pub mod sensors;
pub mod snapshot_collector;
