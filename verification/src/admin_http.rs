//! The blocking HTTPS transport for hosted administration requests carries
//! a planned request and hands back the status and body it observed; the
//! exchange itself is the application's. What the library fixes is the
//! transport's identity and the bounds it puts on a request.
use vstd::prelude::*;

verus! {

/// `ureq`-backed hosted administration transport for desktop, hosted web and CLI.
#[derive(Debug, Clone, Copy, Default)]
pub struct HttpHostedAdminTransport;

impl HttpHostedAdminTransport {
    pub fn new() -> (r: Self)
        ensures
            r == HttpHostedAdminTransport,
    {
        HttpHostedAdminTransport
    }
}

/// The connect and read timeout for a planned request: its seconds, kept
/// between one second and two minutes.
pub fn request_timeout_seconds(timeout_seconds: u64) -> (r: u64)
    ensures
        r == if timeout_seconds < 1 {
            1
        } else if timeout_seconds > 120 {
            120
        } else {
            timeout_seconds
        },
{
    if timeout_seconds < 1 {
        1
    } else if timeout_seconds > 120 {
        120
    } else {
        timeout_seconds
    }
}

} // verus!
