//! Verified core of a remote desktop server for Linux desktops.
#![allow(unused_imports)]

pub mod clipboard;
pub mod egfx;
pub mod gui;
pub mod health;
pub mod mutter;
pub mod numbers;
pub mod paths;
pub mod runtime;
pub mod server;
pub mod strings;
pub mod text_map;
pub mod third_party;
pub mod transport;
pub mod words;
