//! The failures the store reports to its callers. None is fatal; none is
//! retried internally.

use vstd::prelude::*;

verus! {

/// What a store operation can fail with.
///
/// `ReadFailure` and `WriteFailure` are raised by the caller that performs
/// the actual file access; `ParseFailure` by `load_history` on malformed
/// persisted content; `MonitoringDisabled` by `add` when the monitoring flag is off.
#[derive(Clone, Copy, Debug, PartialEq, Eq, Structural)]
pub enum StoreError {
    ReadFailure,
    ParseFailure,
    WriteFailure,
    MonitoringDisabled,
}

impl StoreError {
    /// A human-readable description, for the calling surface to display.
    pub fn message(&self) -> (r: &'static str)
        ensures
            *self is MonitoringDisabled ==> r@ == "Monitoring is disabled"@,
    {
        match self {
            StoreError::ReadFailure => "Failed to read history file",
            StoreError::ParseFailure => "Failed to parse history",
            StoreError::WriteFailure => "Failed to write history file",
            StoreError::MonitoringDisabled => "Monitoring is disabled",
        }
    }
}

} // verus!
