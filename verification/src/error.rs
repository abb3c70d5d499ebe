//! Errors of the cache protocol: a kind for each failure the protocol
//! distinguishes, with a human-readable reason string.

use vstd::prelude::*;
use crate::text::push_char;

verus! {

pub const REM_00001: &'static str = "REM_00001: A run mode must be specified. One of [server, client] expected";

pub const REM_00002: &'static str = "REM_00002: Unexpected argument encountered";

pub const REM_00003: &'static str = "REM_00003: IO operation failed";

pub const REM_00004: &'static str = "REM_00004: Failed to parse integer value from string";

pub const REM_00005: &'static str = "REM_00005: Invalid key";

pub const REM_00006: &'static str = "REM_00006: Value is not valid UTF-8 text";

pub const REM_00007: &'static str = "REM_00007: Empty cache operation";

/// The failures the protocol distinguishes.
#[derive(Clone, Copy, Debug, PartialEq, Eq, Structural)]
pub enum RemErrorKind {
    /// The cache directory cannot be provided.
    StorageUnavailable,
    /// Any other filesystem or network failure.
    IoFailure,
    /// A malformed length prefix, a non-UTF-8 payload, or an empty operation.
    InvalidFraming,
    /// An unrecognized primitive command, carrying the offending character.
    InvalidCommand(char),
    /// A read miss.
    KeyNotFound,
}

/// Simple error structure used when errors occur during a cache operation.
#[derive(Debug)]
pub struct RemError {
    pub kind: RemErrorKind,
    pub reason: String,
}

impl RemError {
    /// A general failure with the given reason.
    pub fn with_reason(reason: String) -> (r: RemError)
        ensures
            r.kind == RemErrorKind::IoFailure,
            r.reason == reason,
    {
        RemError { kind: RemErrorKind::IoFailure, reason }
    }

    /// A general failure with the given literal reason.
    pub fn with_reason_str(reason: &str) -> (r: RemError)
        ensures
            r.kind == RemErrorKind::IoFailure,
            r.reason@ == reason@,
    {
        RemError { kind: RemErrorKind::IoFailure, reason: reason.to_owned() }
    }

    /// The cache directory cannot be provided.
    pub fn storage_unavailable(reason: &str) -> (r: RemError)
        ensures
            r.kind == RemErrorKind::StorageUnavailable,
            r.reason@ == reason@,
    {
        RemError { kind: RemErrorKind::StorageUnavailable, reason: reason.to_owned() }
    }

    /// A frame that cannot be decoded.
    pub fn invalid_framing(reason: &str) -> (r: RemError)
        ensures
            r.kind == RemErrorKind::InvalidFraming,
            r.reason@ == reason@,
    {
        RemError { kind: RemErrorKind::InvalidFraming, reason: reason.to_owned() }
    }

    /// An unrecognized primitive command character.
    pub fn invalid_command(cmd: char) -> (r: RemError)
        ensures
            r.kind == RemErrorKind::InvalidCommand(cmd),
            r.reason@ == "Invalid cache command "@.push(cmd),
    {
        let mut reason = "Invalid cache command ".to_owned();
        push_char(&mut reason, cmd);
        RemError { kind: RemErrorKind::InvalidCommand(cmd), reason }
    }

    /// A read of a key that is in neither the memory map nor the mirror.
    pub fn key_not_found() -> (r: RemError)
        ensures
            r.kind == RemErrorKind::KeyNotFound,
            r.reason@ == REM_00005@,
    {
        RemError { kind: RemErrorKind::KeyNotFound, reason: REM_00005.to_owned() }
    }

    /// The reason string.
    pub fn description(&self) -> (r: &str)
        ensures
            r@ == self.reason@,
    {
        self.reason.as_str()
    }
}

} // verus!
