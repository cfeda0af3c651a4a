//! The byte-fetch contract the core consumes. The transfer itself is host
//! I/O; the library fixes the error taxonomy and how a response's status
//! decides between bytes and failure.

use vstd::prelude::*;

verus! {

/// Failure of a plain byte download. Foreign error values arrive as their
/// rendered text.
#[derive(Debug)]
pub enum HttpError {
    /// Transport failure: rendered cause and the requested URL.
    RequestError(String, String),
    /// The server answered with a non-success HTTP status.
    StatusCodeError(u16),
    /// The request could not even be built: rendered cause.
    RequestBuildError(String),
}

/// Decides what a finished transfer yields: a success status hands the
/// body through unchanged, any other status is a `StatusCodeError`.
pub fn classify_download(status: u16, body: Vec<u8>) -> (r: Result<Vec<u8>, HttpError>)
    ensures
        200 <= status < 300 ==> (r matches Ok(b) && b@ == body@),
        !(200 <= status < 300) ==> (r matches Err(HttpError::StatusCodeError(c))
            && c == status),
{
    if 200 <= status && status < 300 {
        Ok(body)
    } else {
        Err(HttpError::StatusCodeError(status))
    }
}

} // verus!
