//! Errors of talking to a thread-based server.
use vstd::prelude::*;

verus! {

/// Errors of talking to a thread-based server.
#[derive(Debug, Clone, Copy, PartialEq, Eq, Structural)]
pub enum GenServerError {
    /// A callback failed while handling the request.
    Callback,
    /// The server's initialization failed.
    Initialization,
    /// The server is gone.
    Server,
}

} // verus!
