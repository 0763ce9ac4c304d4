//! The running process: its PID file and its metrics.
pub mod metric_names;
pub mod metrics;
pub mod pidfile;
