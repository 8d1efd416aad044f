//! The source of entry timestamps.

use vstd::prelude::*;

verus! {

/// Relies on chrono's `Local::now` and `DateTime::format`: the current
/// local time rendered as `YYYY-MM-DD HH:MM:SS`. Nothing is assumed of the
/// value — it depends on the clock.
#[verifier::external_body]
pub fn now_timestamp() -> String {
    chrono::Local::now().format("%Y-%m-%d %H:%M:%S").to_string()
}

} // verus!
