//! Reading a server's event stream.
pub mod chat;
pub mod laws;
pub mod think;
