//! The thread-based server API: its errors and callback responses.
pub mod error;
pub mod gen_server;
