pub mod client;
pub mod connection;
pub mod serialization;
pub mod server;
