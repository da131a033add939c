//! Error types for the benchmark library.
//!
//! Every failure of an individual lookup is recorded as a measurement and
//! never aborts a run; these types cover input validation and the pure
//! parsing helpers.

use vstd::prelude::*;

verus! {

/// DNS-related errors.
#[derive(Debug, Clone)]
pub enum DnsError {
    /// Resolution timed out.
    Timeout,
    /// No response was received from the server.
    NoResponse,
    /// Any other resolver-reported failure.
    ResolutionFailed(String),
    /// A server address could not be parsed.
    InvalidAddress(String),
    /// The custom servers file could not be used.
    CustomFileError { path: String, message: String },
    /// A line of the custom servers file is not `name;address:port`.
    InvalidLineFormat { line: usize },
}

/// Platform detection errors.
#[derive(Debug, Clone)]
pub enum PlatformError {
    /// System DNS detection failed.
    SystemDnsDetection(String),
    /// Gateway detection failed.
    GatewayDetection(String),
    /// The platform is not supported.
    UnsupportedPlatform,
    /// An external command could not be run.
    CommandFailed { command: String, message: String },
    /// Command output could not be parsed.
    ParseError(String),
}

/// Main error type of the library.
#[derive(Debug, Clone)]
pub enum Error {
    /// DNS resolution or server-list error.
    Dns(DnsError),
    /// Platform detection error.
    Platform(PlatformError),
    /// An argument had an invalid value.
    InvalidArgument(String),
}

} // verus!
