//! Decisions of the local REST surface: what status a queueing request
//! answers with, and which origins and methods the cross-origin policy
//! admits. The HTTP server itself is the host application's.

use vstd::prelude::*;
use vstd::string::StringExecFns;

verus! {

/// The status code the map-queueing endpoint answers with: 204 when the
/// request entered the download queue, 500 when it could not be sent.
pub fn queue_accept_status(accepted: bool) -> (r: u16)
    ensures
        accepted ==> r == 204,
        !accepted ==> r == 500,
{
    if accepted {
        204
    } else {
        500
    }
}

/// The web origins the cross-origin policy admits, in order.
pub fn allowed_origins() -> (r: Vec<String>)
    ensures
        r@.len() == 3,
        r@[0]@ == "https://beatsaver.com"@,
        r@[1]@ == "http://beatsaver.com"@,
        r@[2]@ == "https://scoresaber.com"@,
{
    let mut v: Vec<String> = Vec::new();
    v.push(String::from_str("https://beatsaver.com"));
    v.push(String::from_str("http://beatsaver.com"));
    v.push(String::from_str("https://scoresaber.com"));
    v
}

/// The methods the cross-origin policy admits, in order.
pub fn allowed_methods() -> (r: Vec<String>)
    ensures
        r@.len() == 2,
        r@[0]@ == "GET"@,
        r@[1]@ == "POST"@,
{
    let mut v: Vec<String> = Vec::new();
    v.push(String::from_str("GET"));
    v.push(String::from_str("POST"));
    v
}

/// The local address the daemon serves on.
pub fn daemon_port() -> (r: u16)
    ensures
        r == 2706,
{
    2706
}

} // verus!
