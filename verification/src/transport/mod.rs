//! How connections reach the server.
pub mod proxy_auth;
pub mod socket_activation;
