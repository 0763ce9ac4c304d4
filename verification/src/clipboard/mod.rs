//! Clipboard exchange between the Linux desktop and the remote client.
pub mod convert;
pub mod file_transfer;
pub mod image;
pub mod jpeg;
pub mod manager;
pub mod text;
