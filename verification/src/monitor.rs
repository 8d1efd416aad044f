//! The monitoring flag: a single toggleable boolean deciding whether the
//! store accepts new captures.

use vstd::prelude::*;

verus! {

/// The value a toggle moves the monitoring flag to.
pub open spec fn toggled(b: bool) -> bool {
    !b
}

/// The monitoring flag starts enabled and is flipped by `toggle`; `add` consults it
/// before accepting a capture.
pub struct MonitoringFlag {
    pub enabled: bool,
}

impl MonitoringFlag {
    /// Monitoring defaults to enabled at process start.
    pub fn new() -> (r: MonitoringFlag)
        ensures
            r.enabled,
    {
        MonitoringFlag { enabled: true }
    }

    /// Current value; no side effects.
    pub fn status(&self) -> (r: bool)
        ensures
            r == self.enabled,
    {
        self.enabled
    }

    /// Flips the value and returns the new one.
    pub fn toggle(&mut self) -> (r: bool)
        ensures
            final(self).enabled == toggled(old(self).enabled),
            r == final(self).enabled,
    {
        self.enabled = !self.enabled;
        self.enabled
    }
}

/// Two consecutive toggles return the monitoring flag to its original value.
pub proof fn lemma_toggle_pairing(b: bool)
    ensures
        toggled(toggled(b)) == b,
{
}

} // verus!
