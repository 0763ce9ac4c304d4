//! The graphical front end's view of the server.
pub mod server_connection;
pub mod server_process;
