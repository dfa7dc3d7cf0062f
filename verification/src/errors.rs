//! The error taxonomy of the session manager.

use vstd::prelude::*;
use vstd::string::*;

verus! {

/// Everything that can go wrong while creating or operating a session.
///
/// `PtyOpenError` and `SpawnError` arise while a session is being created;
/// `SessionNotFound` when an operation names an id that is not registered;
/// `IoError` when the OS write or resize call fails (typically a broken
/// pipe after the child exited); `WaitError` when the child's exit status
/// could not be obtained.
#[derive(Debug)]
pub enum PtyError {
    PtyOpenError(String),
    SpawnError(String),
    SessionNotFound(String),
    IoError(String),
    WaitError,
}

/// The human-readable message each error renders to.
pub open spec fn spec_message(e: PtyError) -> Seq<char> {
    match e {
        PtyError::PtyOpenError(d) => "Failed to create PTY: "@ + d@,
        PtyError::SpawnError(d) => "Failed to spawn command: "@ + d@,
        PtyError::SessionNotFound(id) => "Session not found: "@ + id@,
        PtyError::IoError(d) => d@,
        PtyError::WaitError => "Failed to obtain exit status"@,
    }
}

impl PtyError {
    /// Renders the error as the message the caller-facing operations return.
    pub fn message(&self) -> (m: String)
        ensures
            m@ == spec_message(*self),
    {
        match self {
            PtyError::PtyOpenError(d) => String::from_str("Failed to create PTY: ").concat(d.as_str()),
            PtyError::SpawnError(d) => String::from_str("Failed to spawn command: ").concat(d.as_str()),
            PtyError::SessionNotFound(id) => String::from_str("Session not found: ").concat(id.as_str()),
            PtyError::IoError(d) => d.clone(),
            PtyError::WaitError => String::from_str("Failed to obtain exit status"),
        }
    }
}

/// The error a failed pty write reports.
pub fn write_failure(detail: &str) -> (e: PtyError)
    ensures
        e matches PtyError::IoError(m) && m@ == "Failed to write to PTY: "@ + detail@,
{
    PtyError::IoError(String::from_str("Failed to write to PTY: ").concat(detail))
}

/// The error a failed pty flush reports.
pub fn flush_failure(detail: &str) -> (e: PtyError)
    ensures
        e matches PtyError::IoError(m) && m@ == "Failed to flush PTY: "@ + detail@,
{
    PtyError::IoError(String::from_str("Failed to flush PTY: ").concat(detail))
}

/// The error a failed window-size change reports.
pub fn resize_failure(detail: &str) -> (e: PtyError)
    ensures
        e matches PtyError::IoError(m) && m@ == "Failed to resize PTY: "@ + detail@,
{
    PtyError::IoError(String::from_str("Failed to resize PTY: ").concat(detail))
}

} // verus!
