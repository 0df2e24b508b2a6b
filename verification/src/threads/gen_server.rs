//! Callback responses of thread-based servers, shared with the async ones.
pub use crate::gen_server::{CallResponse, CastResponse, InfoResponse, InitResult};
