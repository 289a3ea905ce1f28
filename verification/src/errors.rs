//! The error taxonomy of the server core.

use vstd::prelude::*;

verus! {

/// What went wrong while parsing a request or serving a file route.
///
/// Parse-time failures (`InvalidRequest`, `MalformedHeader`,
/// `InvalidContentLength`) abort the connection with a 400 response.
/// File-route failures map to a status code: `FileNotFound` to 404,
/// everything else to 400.
#[derive(Clone, Copy, Debug, PartialEq, Eq, Structural)]
pub enum HttpError {
    /// An I/O operation failed for a reason the server does not distinguish.
    Io,
    /// The request line did not split into exactly three tokens.
    InvalidRequest,
    /// The resolved path escapes the configured root directory.
    PathTraversal,
    /// The requested file does not exist.
    FileNotFound,
    /// The requested file exists but cannot be accessed.
    PermissionDenied,
    /// The `Content-Length` header value is not a non-negative integer
    /// that fits in `usize`.
    InvalidContentLength,
    /// A header line contains no colon.
    MalformedHeader,
    /// No served-files root directory was configured.
    DirectoryNotSpecified,
}

/// The outcome kind of a filesystem operation, as the caller saw it.
///
/// The library never touches the filesystem itself: callers perform the
/// operation and report which kind of outcome it had, and the library
/// decides what follows from it.
#[derive(Clone, Copy, Debug, PartialEq, Eq, Structural)]
pub enum FsErrorKind {
    /// The path does not exist.
    NotFound,
    /// Access to the path was denied.
    PermissionDenied,
    /// Any other failure.
    Other,
}

} // verus!
