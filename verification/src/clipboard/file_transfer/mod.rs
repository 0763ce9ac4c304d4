//! Files on their way between the two clipboards.
pub mod contents;
pub mod descriptors;
pub mod fuse_backend;
pub mod mounts;
pub mod staging_backend;
pub mod strategy;
