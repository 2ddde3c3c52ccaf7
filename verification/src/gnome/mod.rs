//! GNOME Wayland backend.
//!
//! GNOME's Wayland compositor (Mutter) exposes no unprivileged API for global
//! key listening or background clipboard reads. The only unprivileged vantage
//! point is inside the compositor itself, so this backend ships a small GNOME
//! Shell extension that does the detection and clipboard reading in-process,
//! and hands each capture over on the session bus:
//!
//! - [`session`]: which backend a session needs.
//! - [`installer`]: writing the extension, whose script is in [`script`].
//! - [`enabler`]: enabling the extension, with [`gvariant`] for the settings.
//! - [`listener`]: turning the extension's captures into events.
//!
//! The gesture here is "two explicit copies within the double-tap window" (key
//! events are unobservable), which is what Ctrl+C+C produces. A single copy
//! never fires.

pub mod enabler;
pub mod gvariant;
pub mod installer;
pub mod listener;
pub mod script;
pub mod session;
pub mod uri_list;
