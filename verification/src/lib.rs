//! The logic of a streaming chat-completions client: turning a conversation into a request, turning
//! the server's event stream into response events, and reading a list of models.
//!
//! Nothing here performs I/O. A caller sends what the library builds and hands back what arrived.
pub mod endpoint;
pub mod headers;
pub mod json;
pub mod openai_models;
pub mod protocol;
pub mod request;
pub mod sse;
pub mod text;
pub mod views;
