//! Errors of talking to a server through the synchronous API.
use vstd::prelude::*;

verus! {

/// Errors of talking to a server through the synchronous API.
#[derive(Debug, Clone, Copy, PartialEq, Eq, Structural)]
pub enum GenServerError {
    /// A callback failed while handling the request.
    CallbackError,
    /// The server is gone.
    ServerError,
}

} // verus!
