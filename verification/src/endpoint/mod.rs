//! What the service's endpoints are asked, and how their answers read.
pub mod chat;
pub mod laws;
pub mod models;
