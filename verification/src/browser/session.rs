//! Requests to the K-Ruoka API and the errors it answers with.

use vstd::prelude::*;

use crate::http::Method;

verus! {

/// What can go wrong in a K-Ruoka call.
#[derive(Debug)]
pub enum ApiError {
    /// The stored sign-in is no longer valid.
    AuthExpired,
    /// The call was refused before anything was sent; the text says why.
    InvalidRequest(String),
    /// Anything else, with the text that describes it.
    Other(String),
}

/// One call of the K-Ruoka API.
pub struct KrRequest {
    pub method: Method,
    /// Path and query, below the site's origin.
    pub path: String,
    pub body: Option<serde_json::Value>,
}

}
