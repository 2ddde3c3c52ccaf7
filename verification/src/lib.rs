//! Turns a global **Ctrl/Cmd + C + C** gesture into a structured capture: the
//! clipboard content plus the foreground app.
//!
//! Hold the platform modifier and press `C` twice quickly. This library decides:
//! when the gesture is complete ([`detector`], [`throttle`], [`listener`],
//! [`listener_macos`]), which apps are skipped, how long to wait and what to take
//! from the clipboard ([`capture`], [`clipboard`]), and how the GNOME Shell
//! extension is installed, enabled and listened to ([`gnome`]). Key hooks,
//! windows, the clipboard, D-Bus and the file system are left to the caller.

use vstd::prelude::*;

pub mod capture;
pub mod clipboard;
pub mod config;
pub mod detector;
pub mod event;
pub mod gnome;
pub mod list;
pub mod listener;
pub mod listener_macos;
pub mod path;
pub mod rich;
pub mod text;
pub mod throttle;
pub mod time;

pub use config::Config;
pub use event::{CaptureEvent, Captured, RichFormat};
pub use time::Duration;

verus! {

/// How the trigger settled, reported once the backend has probed its
/// environment.
///
/// Treat the **latest** report as current. On most platforms exactly one status
/// arrives shortly after the start; a [`TriggerStatus::Failed`] report can follow
/// later if the listener dies. GUI hosts should surface
/// [`TriggerStatus::GnomeExtensionAwaitingLogin`] and
/// [`TriggerStatus::UnsupportedSession`] to the user: in both states the trigger
/// is silently inactive.
#[non_exhaustive]
#[derive(Debug, Clone, PartialEq, Eq)]
pub enum TriggerStatus {
    /// The trigger is armed and watching for the gesture.
    Listening,
    /// Linux, GNOME Wayland: the Shell extension is installed and enabled but
    /// not loaded; GNOME Shell only loads new extensions at login. The trigger
    /// stays inactive until the user logs out and back in (and the host
    /// application starts again).
    GnomeExtensionAwaitingLogin,
    /// Linux, GNOME Wayland: an older extension version is loaded and the
    /// trigger **is** active; the updated version takes over at the next
    /// login.
    GnomeExtensionOutdated {
        /// The version currently loaded by GNOME Shell.
        loaded: u64,
        /// The version this crate installed on disk.
        embedded: u64,
    },
    /// Linux: this session offers no unprivileged capture path (a non-GNOME
    /// Wayland compositor). The trigger is inactive.
    UnsupportedSession,
    /// The listener could not start or died; the trigger is inactive.
    Failed {
        /// Human-readable diagnostic.
        message: String,
    },
}

impl TriggerStatus {
    /// The trigger watches for the gesture in this state.
    pub open spec fn active(self) -> bool {
        self is Listening || self is GnomeExtensionOutdated
    }

    /// The report tells what failed and why.
    pub open spec fn tells(self, failure: Failure, error: Seq<char>) -> bool {
        self matches TriggerStatus::Failed { message } && message@ == failure.text() + ": "@ + error
    }

    /// The report of a failure; `error` says why.
    pub fn failed(failure: Failure, error: &str) -> (r: TriggerStatus)
        ensures
            r.tells(failure, error@),
            r matches TriggerStatus::Failed { message } && message@ == failure.text() + ": "@
                + error@,
            !r.active(),
    {
        TriggerStatus::Failed { message: failure.name().to_owned().concat(": ").concat(error) }
    }
}

/// What can fail in a listener.
#[derive(Debug, Clone, Copy, PartialEq, Eq, Structural)]
pub enum Failure {
    /// Installing the GNOME Shell extension.
    Install,
    /// Listening to the session bus.
    Bus,
    /// Listening to the keyboard.
    Keys,
}

impl Failure {
    /// The failure in words.
    pub open spec fn text(self) -> Seq<char> {
        match self {
            Failure::Install => "failed to install the GNOME Shell extension"@,
            Failure::Bus => "GNOME Wayland D-Bus listener failed"@,
            Failure::Keys => "rdev::listen failed"@,
        }
    }

    /// The failure in words.
    pub fn name(self) -> (r: &'static str)
        ensures
            r@ == self.text(),
    {
        match self {
            Failure::Install => "failed to install the GNOME Shell extension",
            Failure::Bus => "GNOME Wayland D-Bus listener failed",
            Failure::Keys => "rdev::listen failed",
        }
    }
}

/// A report of a failure names what failed and holds the whole reason behind it,
/// whatever the reason; the trigger is not active then.
pub proof fn law_failure_is_told_in_full(status: TriggerStatus, failure: Failure, error: Seq<char>)
    requires
        status.tells(failure, error),
    ensures
        !status.active(),
        status matches TriggerStatus::Failed { message } && message@ == match failure {
            Failure::Install => "failed to install the GNOME Shell extension"@,
            Failure::Bus => "GNOME Wayland D-Bus listener failed"@,
            Failure::Keys => "rdev::listen failed"@,
        } + seq![':', ' '] + error,
{
    reveal_strlit(": ");
    assert(": "@ =~= seq![':', ' ']);
}

/// Errors from starting a capture.
#[derive(Debug)]
#[non_exhaustive]
pub enum Error {
    /// The OS key listener could not be installed (e.g. missing macOS Input
    /// Monitoring permission).
    ListenerInit(String),
}

impl Error {
    /// The error in words.
    pub open spec fn text(self) -> Seq<char> {
        "failed to initialize the key listener: "@ + self->0@
    }

    /// The error in words.
    pub fn message(&self) -> (r: String)
        ensures
            r@ == self.text(),
            r@ == "failed to initialize the key listener: "@ + self->0@,
    {
        match self {
            Error::ListenerInit(msg) => "failed to initialize the key listener: ".to_owned().concat(
                msg.as_str(),
            ),
        }
    }
}

/// An error in words ends with its whole reason, whatever the reason: two errors
/// read alike exactly when their reasons do.
pub proof fn law_error_holds_its_reason(a: Error, b: Error)
    ensures
        a.text() == "failed to initialize the key listener: "@ + a->0@,
        a.text() == b.text() <==> a->0@ == b->0@,
{
    let n = "failed to initialize the key listener: "@.len() as int;
    assert(a.text().skip(n) =~= a->0@);
    assert(b.text().skip(n) =~= b->0@);
}

/// Handle representing a running capture. The listener runs for the process
/// lifetime; there is no stop. Hold it to document intent and to keep the API
/// stable if teardown is added later.
#[must_use]
pub struct Capture {
    _private: (),
}

impl Capture {
    /// The handle of a capture whose listener was installed, or the error that
    /// its installation ended with.
    pub fn started(install: Result<(), Error>) -> (r: Result<Capture, Error>)
        ensures
            r is Ok <==> install is Ok,
            r matches Err(e) ==> install == Err::<(), Error>(e),
    {
        match install {
            Ok(()) => Ok(Capture { _private: () }),
            Err(e) => Err(e),
        }
    }
}

} // verus!
