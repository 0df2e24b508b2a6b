//! Errors of the synchronous server API.
pub mod error;
