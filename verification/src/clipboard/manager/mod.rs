//! The state that clipboard requests share, and the handlers that work on it.
pub mod cache;
pub mod rdp_ingress;
