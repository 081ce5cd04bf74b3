//! Error and response shapes of the hub's HTTP surface.

use vstd::prelude::*;
use crate::msg::SignalMsg;

verus! {

/// Relies on `str`'s `PartialEq`: two string slices are equal exactly
/// when they hold the same characters.
pub assume_specification[ <str as PartialEq<str>>::eq ](a: &str, b: &str) -> (r: bool)
    ensures
        r == (a@ == b@),
;

/// Failure of reading a message out of wire text.
#[derive(Debug)]
pub enum ParseError {
    /// The inbound text was empty.
    TextEmpty,
    /// Any other parse failure: the underlying error message and the
    /// offending text.
    Parse(String, String),
}

/// Error answers of the HTTP surface.
pub enum ApiError {
    BadRequest,
    Forbidden,
    Unauthorised,
    InternalServerError,
    CONFLICT,
    TokenInvalid,
}

/// Success answers of the HTTP surface.
pub enum ApiResponse {
    OK,
    Signals(Vec<SignalMsg>),
    SignalVersion(i32),
    Count(String),
    Version(String),
    Info(Info),
}

/// A snapshot of the process for the observability surface. The fields are
/// plain values; collecting them is the caller's business.
pub struct Info {
    pub version: String,
    pub current_connections: usize,
    pub rate_limit: usize,
    pub security_enabled: bool,
    pub cpu_usage: i32,
    pub internal_ip: String,
    pub memory: u64,
    pub cert_infos: Option<Vec<CertInfo>>,
}

/// One TLS certificate's name and expiry, as shown by the observability
/// surface.
pub struct CertInfo {
    pub name: String,
    pub expire_at: String,
}

} // verus!
