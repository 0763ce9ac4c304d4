//! The graphics pipeline channel.
pub mod video_handler;
