//! Tunables for the capture trigger.

use crate::time::Duration;
use vstd::prelude::*;

verus! {

/// Configuration of a capture. [`Config::default`] holds sensible values.
#[derive(Debug, Clone)]
pub struct Config {
    /// Maximum time between the first and second `C` press to count as a "double C".
    pub double_tap_window: Duration,
    /// After a trigger, poll up to this long for the clipboard change counter to
    /// advance (= a fresh copy landed) before reading.
    pub clipboard_change_timeout: Duration,
    /// Interval between clipboard change-counter polls.
    pub clipboard_poll_step: Duration,
    /// After a trigger fires, ignore further triggers for this long.
    pub trigger_cooldown: Duration,
    /// Foreground apps to skip capturing, matched case-insensitively as a substring
    /// of the executable name or full path (privacy, e.g. password managers).
    pub denylist_exec_substrings: Vec<String>,
    /// When the clipboard holds file references, the maximum number of paths kept.
    pub max_files: usize,
}

impl Default for Config {
    fn default() -> (r: Config)
        ensures
            r.double_tap_window@ == 400_000_000,
            r.double_tap_window.millis() == 400,
            r.clipboard_change_timeout@ == 400_000_000,
            r.clipboard_change_timeout.millis() == 400,
            r.clipboard_poll_step@ == 20_000_000,
            r.clipboard_poll_step.millis() == 20,
            r.trigger_cooldown@ == 350_000_000,
            r.trigger_cooldown.millis() == 350,
            r.denylist_exec_substrings@.len() == 0,
            r.max_files == 50,
    {
        Config {
            double_tap_window: Duration::from_millis(400),
            clipboard_change_timeout: Duration::from_millis(400),
            clipboard_poll_step: Duration::from_millis(20),
            trigger_cooldown: Duration::from_millis(350),
            denylist_exec_substrings: Vec::new(),
            max_files: 50,
        }
    }
}

} // verus!
