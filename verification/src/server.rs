//! Server configuration: the command-line options and the shared state handed
//! to every handler.

use vstd::prelude::*;

verus! {

/// The command-line options of the server. Paths are carried as plain
/// strings; the launcher canonicalizes the shared directory before the
/// handlers see it.
#[derive(Debug)]
pub struct Args {
    /// The directory to share.
    pub path: String,
    /// The port the server listens on.
    pub port: u16,
    /// Maximum upload size, in megabytes.
    pub max_upload_size: u64,
    /// Whether to serve HTTPS.
    pub tls: bool,
    /// Optional certificate file.
    pub cert: Option<String>,
    /// Optional private key file.
    pub key: Option<String>,
    /// Optional Basic-auth user.
    pub username: Option<String>,
    /// Optional Basic-auth password.
    pub password: Option<String>,
}

/// Shared, read-only state of the running server.
#[derive(Debug)]
pub struct AppState {
    /// The canonicalized root path every request is resolved against.
    pub base_path: String,
    /// Maximum upload size, in bytes.
    pub max_upload_size: u64,
}

/// Converts the configured megabyte ceiling to bytes; `None` exactly when the
/// multiplication would overflow.
pub fn max_upload_bytes(mb: u64) -> (r: Option<u64>)
    ensures
        r matches Some(b) ==> b == mb * 1048576,
        r is Some <==> mb * 1048576 <= u64::MAX,
{
    if mb <= u64::MAX / 1048576 {
        proof {
            assert(mb * 1048576 <= (u64::MAX / 1048576) * 1048576 <= u64::MAX) by (nonlinear_arith)
                requires
                    mb <= u64::MAX / 1048576,
            ;
        }
        Some(mb * 1048576)
    } else {
        proof {
            assert(mb * 1048576 > u64::MAX) by (nonlinear_arith)
                requires
                    mb > u64::MAX / 1048576,
            ;
        }
        None
    }
}

impl AppState {
    /// Builds the shared state from the canonical root and the configured
    /// upload ceiling in megabytes; `None` when the ceiling overflows.
    pub fn new(base_path: String, max_upload_size_mb: u64) -> (r: Option<AppState>)
        ensures
            r matches Some(s) ==> s.base_path@ == base_path@ && s.max_upload_size
                == max_upload_size_mb * 1048576,
            r is Some <==> max_upload_size_mb * 1048576 <= u64::MAX,
    {
        match max_upload_bytes(max_upload_size_mb) {
            Some(bytes) => Some(AppState { base_path, max_upload_size: bytes }),
            None => None,
        }
    }
}

} // verus!
