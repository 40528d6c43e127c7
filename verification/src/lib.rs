//! A small command-driven file-sharing protocol: the client's input handling
//! and authentication decisions, the server's command dispatch, directory
//! navigation and the chunking of file transfers.
pub mod text;
pub mod server;
pub mod client;
