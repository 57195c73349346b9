//! Talking to plugins over a local socket: the request and reply types, the
//! client side that builds requests, and the server side that answers them
//! from the database.

pub mod types;
pub mod client;
pub mod server;
