//! Sessions on Mutter's own interfaces.
pub mod clipboard;
