//! The defaults of the daemon's options.
use vstd::prelude::*;

verus! {

/// Seconds to wait after content changes before regenerating.
pub const REGENERATE_DELAY_SECS: u64 = 300;

/// Lines of buffer to capture for title generation.
pub const CAPTURE_LINES: usize = 250;

/// Lines of buffer to hash for change detection.
pub const HASH_LINES: usize = 50;

/// How often to poll panes for changes, in seconds.
pub const POLL_INTERVAL_SECS: u64 = 5;

/// The model to use.
pub const MODEL: &'static str = "haiku";

/// The defaults fit each other: what is hashed lies within what is captured, and a change is polled
/// many times before the delay has passed. Five minutes of quiet come before a new title, and a
/// look every five seconds; fifty of two hundred and fifty lines decide whether content changed.
pub proof fn law_defaults_fit_each_other()
    ensures
        REGENERATE_DELAY_SECS == 60 * POLL_INTERVAL_SECS == 300,
        CAPTURE_LINES == 5 * HASH_LINES == 250,
        MODEL@ == "haiku"@,
{
}

} // verus!
