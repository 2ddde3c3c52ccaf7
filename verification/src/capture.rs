//! A capture: on a trigger, look at the foreground window, wait for the
//! clipboard to change (= the fresh copy landed), read it, and build a
//! [`CaptureEvent`].
//!
//! - Image is delivered as PNG-encoded bytes.
//! - Files are delivered as normalized filesystem paths.
//! - Audio/Video are not on the clipboard as media, only as file references.
//!
//! Looking at windows, sleeping and reading the clipboard are left to the
//! caller: [`CaptureRun`] says what to do next and takes what came back.

use crate::clipboard::{Answer, ClipboardRead, Offer, ReadReply, ReadRequest, Reading};
use crate::config::Config;
use crate::event;
use crate::event::{CaptureEvent, Captured, Content};
use crate::text;
use crate::time::Duration;
use vstd::prelude::*;

verus! {

/// Foreground application context captured alongside the clipboard. The default
/// is all-empty, which is used when the active window cannot be read.
#[derive(Debug, Clone)]
pub struct Foreground {
    pub app_name: String,
    pub exec_name: String,
    pub exec_path: String,
    pub window_title: String,
    pub process_id: u32,
    pub url: Option<String>,
}

impl Default for Foreground {
    fn default() -> (r: Foreground)
        ensures
            r.app_name@.len() == 0,
            r.exec_name@.len() == 0,
            r.exec_path@.len() == 0,
            r.window_title@.len() == 0,
            r.process_id == 0,
            r.url is None,
    {
        Foreground {
            app_name: String::new(),
            exec_name: String::new(),
            exec_path: String::new(),
            window_title: String::new(),
            process_id: 0,
            url: None,
        }
    }
}

/// The active window, as the windowing system describes it.
#[derive(Debug, Clone)]
pub struct ActiveWindow {
    /// Name of the application.
    pub name: String,
    /// File name of its executable.
    pub exec_name: String,
    /// Full path of its executable.
    pub path: String,
    /// Title of the window.
    pub title: String,
    /// Process id of the application.
    pub process_id: u32,
}

/// `fg` is the context of the active window and of the browser URL that was found
/// for it.
pub open spec fn shows(fg: Foreground, window: Option<ActiveWindow>, url: Option<String>) -> bool {
    match window {
        Some(w) => {
            &&& fg.app_name == w.name
            &&& fg.exec_name == w.exec_name
            &&& fg.exec_path == w.path
            &&& fg.window_title == w.title
            &&& fg.process_id == w.process_id
            &&& fg.url == match url {
                Some(u) if text::trimmed(u@).len() > 0 => Some(u),
                _ => None,
            }
        },
        None => {
            &&& fg.app_name@.len() == 0
            &&& fg.exec_name@.len() == 0
            &&& fg.exec_path@.len() == 0
            &&& fg.window_title@.len() == 0
            &&& fg.process_id == 0
            &&& fg.url is None
        },
    }
}

/// The foreground context of the active window and of the browser URL that was
/// found for it. A blank URL counts as none. Without a window the context is
/// empty, whatever the URL.
pub fn foreground_of(window: Option<ActiveWindow>, url: Option<String>) -> (r: Foreground)
    ensures
        shows(r, window, url),
        match window {
            Some(w) => {
                &&& r.app_name == w.name
                &&& r.exec_name == w.exec_name
                &&& r.exec_path == w.path
                &&& r.window_title == w.title
                &&& r.process_id == w.process_id
                &&& r.url == match url {
                    Some(u) if text::trimmed(u@).len() > 0 => Some(u),
                    _ => None,
                }
            },
            None => {
                &&& r.app_name@.len() == 0
                &&& r.exec_name@.len() == 0
                &&& r.exec_path@.len() == 0
                &&& r.window_title@.len() == 0
                &&& r.process_id == 0
                &&& r.url is None
            },
        },
{
    match window {
        Some(w) => {
            let url: Option<String> = match url {
                Some(u) => if text::is_blank(u.as_str()) {
                    None
                } else {
                    Some(u)
                },
                None => None,
            };
            Foreground {
                app_name: w.name,
                exec_name: w.exec_name,
                exec_path: w.path,
                window_title: w.title,
                process_id: w.process_id,
                url,
            }
        },
        None => Foreground::default(),
    }
}

/// A denylist entry that is not empty occurs in the executable name or path,
/// case aside.
pub open spec fn denied(name: Seq<char>, path: Seq<char>, denylist: Seq<Seq<char>>) -> bool {
    exists|k: int|
        0 <= k < denylist.len() && denied_by(name, path, #[trigger] denylist[k])
}

/// The denylist entry `needle` is not empty and occurs in the executable name
/// or path, case aside.
pub open spec fn denied_by(name: Seq<char>, path: Seq<char>, needle: Seq<char>) -> bool {
    &&& needle.len() > 0
    &&& in_either(text::caseless(name), text::caseless(path), text::caseless(needle))
}

/// `needle` occurs in the name or the path.
pub open spec fn in_either(name: Seq<char>, path: Seq<char>, needle: Seq<char>) -> bool {
    text::occurs(name, needle) || text::occurs(path, needle)
}

/// A foreground app is not captured: it is the process `own_pid`, or denied.
pub open spec fn skips(fg: Foreground, denylist: Seq<Seq<char>>, own_pid: u32) -> bool {
    fg.process_id == own_pid || denied(fg.exec_name@, fg.exec_path@, denylist)
}

/// Whether `needle` occurs in the name or the path, all three in their caseless
/// form.
pub fn found_in_either(name: &[char], path: &[char], needle: &[char]) -> (r: bool)
    ensures
        r == in_either(name@, path@, needle@),
{
    text::contains(name, needle) || text::contains(path, needle)
}

/// Whether a denylist entry that is not empty occurs in the executable name or
/// path, case aside.
pub fn is_denied(name: &str, path: &str, denylist: &[String]) -> (r: bool)
    ensures
        r == denied(name@, path@, event::texts(denylist@)),
{
    let ghost list = event::texts(denylist@);
    let caseless_name: Vec<char> = text::caseless_chars_of(name);
    let caseless_path: Vec<char> = text::caseless_chars_of(path);
    for i in 0..denylist.len()
        invariant
            list == event::texts(denylist@),
            caseless_name@ == text::caseless(name@),
            caseless_path@ == text::caseless(path@),
            forall|k: int| 0 <= k < i ==> !denied_by(name@, path@, #[trigger] list[k]),
    {
        let needle: Vec<char> = text::caseless_chars_of(denylist[i].as_str());
        assert(list[i as int] == denylist@[i as int]@);
        if !denylist[i].as_str().is_empty() && found_in_either(
            &caseless_name,
            &caseless_path,
            &needle,
        ) {
            assert(denied_by(name@, path@, list[i as int]));
            return true;
        }
    }
    false
}

/// Whether to skip capturing this foreground app: it's us (the process
/// `own_pid`), or it matches the privacy denylist (substring of the executable
/// name or full path).
pub fn should_skip(fg: &Foreground, denylist: &[String], own_pid: u32) -> (r: bool)
    ensures
        r == skips(*fg, event::texts(denylist@), own_pid),
{
    fg.process_id == own_pid || is_denied(fg.exec_name.as_str(), fg.exec_path.as_str(), denylist)
}

/// The time since the Unix epoch in milliseconds, the low 64 bits of their
/// number; 0 for a clock that stands before the epoch.
pub open spec fn epoch_millis(since_epoch: Option<Duration>) -> nat {
    match since_epoch {
        Some(d) => d.millis() % 0x1_0000_0000_0000_0000,
        None => 0,
    }
}

/// The time since the Unix epoch in milliseconds, the low 64 bits of their
/// number; 0 for a clock that stands before the epoch.
pub fn now_millis(since_epoch: Option<Duration>) -> (r: u64)
    ensures
        r == epoch_millis(since_epoch),
        match since_epoch {
            Some(d) => r == d.millis() % 0x1_0000_0000_0000_0000,
            None => r == 0,
        },
{
    match since_epoch {
        Some(d) => d.as_millis_u64(),
        None => 0,
    }
}

/// `e` is the event of a content captured from a foreground app at a time.
pub open spec fn is_event(
    e: CaptureEvent,
    fg: Foreground,
    content: Content,
    timestamp_ms: u64,
) -> bool {
    &&& e.timestamp_ms == timestamp_ms
    &&& e.app_name == fg.app_name
    &&& e.exec_name == fg.exec_name
    &&& e.exec_path == fg.exec_path
    &&& e.window_title == fg.window_title
    &&& e.url == fg.url
    &&& e.process_id == fg.process_id
    &&& e.content@ == content
}

/// The event of a content captured from a foreground app.
pub fn build_event(fg: Foreground, content: Captured, timestamp_ms: u64) -> (r: CaptureEvent)
    ensures
        is_event(r, fg, content@, timestamp_ms),
        r.content == content,
{
    CaptureEvent {
        timestamp_ms,
        app_name: fg.app_name,
        exec_name: fg.exec_name,
        exec_path: fg.exec_path,
        window_title: fg.window_title,
        url: fg.url,
        process_id: fg.process_id,
        content,
    }
}

/// How many polls of `step` milliseconds fit into `timeout` milliseconds, at
/// least one. A step of less than a millisecond counts as one.
pub open spec fn poll_steps(timeout: nat, step: nat) -> nat {
    if step == 0 {
        at_least_one(timeout)
    } else {
        at_least_one(timeout / step)
    }
}

/// A number, or one for none.
pub open spec fn at_least_one(n: nat) -> nat {
    if n == 0 {
        1
    } else {
        n
    }
}

/// Number of poll iterations that fit into `clipboard_change_timeout`, stepping
/// by `clipboard_poll_step`, both in whole milliseconds. Always >= 1 (so the
/// clipboard is read at least once) and divide-by-zero-safe when the step is zero.
pub fn poll_step_count(config: &Config) -> (r: u128)
    ensures
        r == poll_steps(
            config.clipboard_change_timeout.millis(),
            config.clipboard_poll_step.millis(),
        ),
{
    let step: u128 = config.clipboard_poll_step.as_millis();
    let steps: u128 = config.clipboard_change_timeout.as_millis() / if step == 0 {
        1
    } else {
        step
    };
    if steps == 0 {
        1
    } else {
        steps
    }
}

/// What a capture goes by.
pub ghost struct RunSettings {
    pub denylist: Seq<Seq<char>>,
    pub own_pid: u32,
    /// The clipboard change counter when the trigger fired; 0 where it could not
    /// be read.
    pub baseline: u64,
    /// The polls after which the clipboard is read, changed or not.
    pub steps: nat,
    pub max_files: nat,
}

impl RunSettings {
    /// The settings of a capture under `config`.
    pub open spec fn of(config: Config, baseline: u64, own_pid: u32) -> RunSettings {
        RunSettings {
            denylist: event::texts(config.denylist_exec_substrings@),
            own_pid,
            baseline,
            steps: poll_steps(
                config.clipboard_change_timeout.millis(),
                config.clipboard_poll_step.millis(),
            ),
            max_files: config.max_files as nat,
        }
    }
}

/// The clipboard change counter has moved from `baseline` to `count`. A counter
/// of 0 could not be read and says nothing.
pub open spec fn changed(baseline: u64, count: u64) -> bool {
    baseline != 0 && count != 0 && count != baseline
}

/// Whether the clipboard change counter has moved from `baseline` to `count`. A
/// counter of 0 could not be read: it never counts as a change, so that the wait
/// falls back to its timeout.
pub fn has_changed(baseline: u64, count: u64) -> (r: bool)
    ensures
        r == changed(baseline, count),
{
    baseline != 0 && count != 0 && count != baseline
}

/// How far a capture has come.
pub ghost enum RunState {
    /// The foreground app is not known yet.
    Foreground,
    /// Waiting for the clipboard to change, for at most `remaining` more polls.
    Waiting { fg: Foreground, remaining: nat },
    /// Reading the clipboard.
    Reading { fg: Foreground, reading: Reading },
    /// The foreground app is not captured.
    Skipped,
}

impl RunState {
    /// The state once the foreground app is known.
    pub open spec fn after_foreground(self, settings: RunSettings, fg: Foreground) -> RunState {
        match self {
            RunState::Foreground => if skips(fg, settings.denylist, settings.own_pid) {
                RunState::Skipped
            } else {
                RunState::Waiting { fg, remaining: settings.steps }
            },
            _ => self,
        }
    }

    /// The state after a poll that found the change counter at `count`.
    pub open spec fn after_count(self, settings: RunSettings, count: u64) -> RunState {
        match self {
            RunState::Waiting { fg, remaining } => if changed(settings.baseline, count)
                || remaining <= 1 {
                RunState::Reading { fg, reading: Reading::Connect }
            } else {
                RunState::Waiting { fg, remaining: (remaining - 1) as nat }
            },
            _ => self,
        }
    }

    /// The state after polls that found the change counter at `counts`.
    pub open spec fn after_counts(self, settings: RunSettings, counts: Seq<u64>) -> RunState
        decreases counts.len(),
    {
        if counts.len() == 0 {
            self
        } else {
            self.after_counts(settings, counts.drop_last()).after_count(settings, counts.last())
        }
    }

    /// The state after a reply of the clipboard.
    pub open spec fn after_reply(self, settings: RunSettings, answer: Answer) -> RunState {
        match self {
            RunState::Reading { fg, reading } => RunState::Reading {
                fg,
                reading: reading.after(settings.max_files, answer),
            },
            _ => self,
        }
    }

    /// What is to be done next, with a poll every `step`.
    pub open spec fn request(self, step: Duration) -> CaptureRequest {
        match self {
            RunState::Foreground => CaptureRequest::Foreground,
            RunState::Waiting { .. } => CaptureRequest::Poll { step },
            RunState::Reading { fg, reading } => match reading.request() {
                Some(request) => CaptureRequest::Clipboard(request),
                None => CaptureRequest::Finish,
            },
            RunState::Skipped => CaptureRequest::Finish,
        }
    }
}

/// What a capture needs done next.
#[derive(Debug, Clone, Copy)]
pub enum CaptureRequest {
    /// Look at the foreground window and report it to [`CaptureRun::on_foreground`].
    Foreground,
    /// Sleep for `step`, then report the clipboard change counter to
    /// [`CaptureRun::on_count`].
    Poll { step: Duration },
    /// Ask the clipboard and report its reply to [`CaptureRun::on_reply`].
    Clipboard(ReadRequest),
    /// Nothing: take the event with [`CaptureRun::finish`].
    Finish,
}

enum Stage {
    Foreground,
    Waiting { fg: Foreground, remaining: u128 },
    Reading { fg: Foreground, read: ClipboardRead },
    Skipped,
}

/// One capture, from a trigger to its event.
pub struct CaptureRun {
    config: Config,
    baseline: u64,
    own_pid: u32,
    stage: Stage,
}

impl View for CaptureRun {
    type V = RunState;

    closed spec fn view(&self) -> RunState {
        match self.stage {
            Stage::Foreground => RunState::Foreground,
            Stage::Waiting { fg, remaining } => RunState::Waiting {
                fg,
                remaining: remaining as nat,
            },
            Stage::Reading { fg, read } => RunState::Reading { fg, reading: read@ },
            Stage::Skipped => RunState::Skipped,
        }
    }
}

impl CaptureRun {
    /// A read keeps as many paths as the configuration says.
    #[verifier::type_invariant]
    spec fn wf(self) -> bool {
        self.stage matches Stage::Reading { fg, read } ==> read.max_files()
            == self.config.max_files as nat
    }

    /// What the capture goes by.
    pub closed spec fn settings(self) -> RunSettings {
        RunSettings::of(self.config, self.baseline, self.own_pid)
    }

    /// The time between two polls.
    pub closed spec fn poll_step(self) -> Duration {
        self.config.clipboard_poll_step
    }

    /// A capture that a trigger just fired: `baseline` is the clipboard change
    /// counter at that moment, `own_pid` the id of this process.
    pub fn new(config: Config, baseline: u64, own_pid: u32) -> (r: CaptureRun)
        ensures
            r@ == RunState::Foreground,
            r.settings() == RunSettings::of(config, baseline, own_pid),
            r.poll_step() == config.clipboard_poll_step,
    {
        CaptureRun { config, baseline, own_pid, stage: Stage::Foreground }
    }

    /// What to do next.
    pub fn request(&self) -> (r: CaptureRequest)
        ensures
            r == self@.request(self.poll_step()),
    {
        match &self.stage {
            Stage::Foreground => CaptureRequest::Foreground,
            Stage::Waiting { .. } => CaptureRequest::Poll { step: self.config.clipboard_poll_step },
            Stage::Reading { fg, read } => match read.request() {
                Some(request) => CaptureRequest::Clipboard(request),
                None => CaptureRequest::Finish,
            },
            Stage::Skipped => CaptureRequest::Finish,
        }
    }

    /// Takes the foreground app. One that is to be skipped ends the capture
    /// before the clipboard is touched.
    pub fn on_foreground(self, fg: Foreground) -> (r: CaptureRun)
        ensures
            r@ == self@.after_foreground(self.settings(), fg),
            r.settings() == self.settings(),
            r.poll_step() == self.poll_step(),
    {
        proof {
            use_type_invariant(&self);
        }
        let CaptureRun { config, baseline, own_pid, stage } = self;
        let stage: Stage = match stage {
            Stage::Foreground => if should_skip(&fg, &config.denylist_exec_substrings, own_pid) {
                Stage::Skipped
            } else {
                Stage::Waiting { fg, remaining: poll_step_count(&config) }
            },
            other => other,
        };
        CaptureRun { config, baseline, own_pid, stage }
    }

    /// Takes the clipboard change counter that a poll found; 0 where it could not
    /// be read.
    pub fn on_count(self, count: u64) -> (r: CaptureRun)
        ensures
            r@ == self@.after_count(self.settings(), count),
            r.settings() == self.settings(),
            r.poll_step() == self.poll_step(),
    {
        proof {
            use_type_invariant(&self);
        }
        let CaptureRun { config, baseline, own_pid, stage } = self;
        let stage: Stage = match stage {
            Stage::Waiting { fg, remaining } => if has_changed(baseline, count) || remaining <= 1 {
                Stage::Reading { fg, read: ClipboardRead::new(config.max_files) }
            } else {
                Stage::Waiting { fg, remaining: remaining - 1 }
            },
            other => other,
        };
        CaptureRun { config, baseline, own_pid, stage }
    }

    /// Takes the clipboard's reply.
    pub fn on_reply(self, reply: ReadReply) -> (r: CaptureRun)
        ensures
            r@ == self@.after_reply(self.settings(), reply@),
            r.settings() == self.settings(),
            r.poll_step() == self.poll_step(),
    {
        proof {
            use_type_invariant(&self);
        }
        let CaptureRun { config, baseline, own_pid, stage } = self;
        let stage: Stage = match stage {
            Stage::Reading { fg, read } => Stage::Reading { fg, read: read.on_reply(reply) },
            other => other,
        };
        CaptureRun { config, baseline, own_pid, stage }
    }

    /// The event, where the clipboard was read to the end.
    pub fn finish(self, timestamp_ms: u64) -> (r: Option<CaptureEvent>)
        ensures
            match self@ {
                RunState::Reading { fg, reading: Reading::Done(content) } => r matches Some(e)
                    && is_event(e, fg, content, timestamp_ms),
                _ => r is None,
            },
    {
        let CaptureRun { config, baseline, own_pid, stage } = self;
        match stage {
            Stage::Reading { fg, read } => match read.content() {
                Some(content) => Some(build_event(fg, content, timestamp_ms)),
                None => None,
            },
            _ => None,
        }
    }
}

/// This process is always skipped, whatever the denylist.
pub proof fn law_own_process_is_skipped(fg: Foreground, denylist: Seq<Seq<char>>)
    ensures
        skips(fg, denylist, fg.process_id),
{
}

/// Without an entry that is not empty, the denylist denies nothing.
pub proof fn law_empty_entries_deny_nothing(
    name: Seq<char>,
    path: Seq<char>,
    denylist: Seq<Seq<char>>,
)
    requires
        forall|k: int| 0 <= k < denylist.len() ==> (#[trigger] denylist[k]).len() == 0,
    ensures
        !denied(name, path, denylist),
{
}

/// An entry that stands in the executable name or path, as it is or with ASCII
/// letters in the other case, denies the app, and a longer denylist denies no
/// less.
pub proof fn law_entry_in_name_or_path_denies(
    name: Seq<char>,
    path: Seq<char>,
    denylist: Seq<Seq<char>>,
    needle: Seq<char>,
)
    requires
        needle.len() > 0,
    ensures
        denylist.contains(needle) && in_either(name, path, needle) ==> denied(name, path, denylist),
        denylist.contains(needle) && in_either(
            text::lowered(name),
            text::lowered(path),
            text::lowered(needle),
        ) ==> denied(name, path, denylist),
        denied(name, path, denylist) ==> denied(name, path, denylist.push(needle)),
{
    let (low_name, low_path, low_needle) = (
        text::lowered(name),
        text::lowered(path),
        text::lowered(needle),
    );
    if text::occurs(name, needle) {
        text::lemma_occurs_lowered(name, needle);
    }
    if text::occurs(path, needle) {
        text::lemma_occurs_lowered(path, needle);
    }
    if denylist.contains(needle) && in_either(low_name, low_path, low_needle) {
        let k = choose|k: int| 0 <= k < denylist.len() && denylist[k] == needle;
        if text::occurs(low_name, low_needle) {
            text::lemma_occurs_caseless(low_name, low_needle);
        } else {
            text::lemma_occurs_caseless(low_path, low_needle);
        }
        text::lemma_caseless_lowered(name);
        text::lemma_caseless_lowered(path);
        text::lemma_caseless_lowered(needle);
        assert(denied_by(name, path, denylist[k]));
    }
    if denied(name, path, denylist) {
        let k = choose|k: int|
            0 <= k < denylist.len() && denied_by(name, path, #[trigger] denylist[k]);
        assert(denylist.push(needle)[k] == denylist[k]);
    }
}

/// The denylist goes by caseless forms alone: a name, a path and entries that
/// differ only in case are denied alike. Making ASCII capitals small is one such
/// difference.
pub proof fn law_denylist_ignores_case(
    name: Seq<char>,
    path: Seq<char>,
    denylist: Seq<Seq<char>>,
    other_name: Seq<char>,
    other_path: Seq<char>,
    other_list: Seq<Seq<char>>,
)
    requires
        text::caseless(name) == text::caseless(other_name),
        text::caseless(path) == text::caseless(other_path),
        denylist.len() == other_list.len(),
        forall|k: int|
            0 <= k < denylist.len() ==> text::caseless(#[trigger] denylist[k]) == text::caseless(
                other_list[k],
            ) && (denylist[k].len() == 0 <==> other_list[k].len() == 0),
    ensures
        denied(name, path, denylist) == denied(other_name, other_path, other_list),
        denied(name, path, denylist) == denied(
            text::lowered(name),
            text::lowered(path),
            denylist.map_values(|n: Seq<char>| text::lowered(n)),
        ),
{
    lemma_denied_alike(name, path, denylist, other_name, other_path, other_list);
    let lower = denylist.map_values(|n: Seq<char>| text::lowered(n));
    text::lemma_caseless_lowered(name);
    text::lemma_caseless_lowered(path);
    assert forall|k: int| 0 <= k < denylist.len() implies text::caseless(#[trigger] denylist[k])
        == text::caseless(lower[k]) && (denylist[k].len() == 0 <==> lower[k].len() == 0) by {
        text::lemma_caseless_lowered(denylist[k]);
    }
    lemma_denied_alike(name, path, denylist, text::lowered(name), text::lowered(path), lower);
}

proof fn lemma_denied_alike(
    name: Seq<char>,
    path: Seq<char>,
    denylist: Seq<Seq<char>>,
    other_name: Seq<char>,
    other_path: Seq<char>,
    other_list: Seq<Seq<char>>,
)
    requires
        text::caseless(name) == text::caseless(other_name),
        text::caseless(path) == text::caseless(other_path),
        denylist.len() == other_list.len(),
        forall|k: int|
            0 <= k < denylist.len() ==> text::caseless(#[trigger] denylist[k]) == text::caseless(
                other_list[k],
            ) && (denylist[k].len() == 0 <==> other_list[k].len() == 0),
    ensures
        denied(name, path, denylist) == denied(other_name, other_path, other_list),
{
    if denied(name, path, denylist) {
        let k = choose|k: int|
            0 <= k < denylist.len() && denied_by(name, path, #[trigger] denylist[k]);
        assert(denied_by(other_name, other_path, other_list[k]));
    }
    if denied(other_name, other_path, other_list) {
        let k = choose|k: int|
            0 <= k < other_list.len() && denied_by(other_name, other_path, #[trigger] other_list[k]);
        assert(denied_by(name, path, denylist[k]));
    }
}

/// Among ASCII texts the denylist looks for an entry with all capitals made small.
pub proof fn law_ascii_entry_is_looked_for_in_small_letters(
    name: Seq<char>,
    path: Seq<char>,
    needle: Seq<char>,
)
    requires
        vstd::utf8::is_ascii_chars(name),
        vstd::utf8::is_ascii_chars(path),
        vstd::utf8::is_ascii_chars(needle),
    ensures
        denied_by(name, path, needle) <==> needle.len() > 0 && in_either(
            text::lowered(name),
            text::lowered(path),
            text::lowered(needle),
        ),
{
    text::lemma_caseless_ascii(name);
    text::lemma_caseless_ascii(path);
    text::lemma_caseless_ascii(needle);
}

/// The clipboard of an app that is to be skipped is never asked for anything:
/// the capture is over at once, stays so whatever is reported to it, and has
/// no clipboard request.
pub proof fn law_skipped_app_is_never_read(
    settings: RunSettings,
    fg: Foreground,
    count: u64,
    answer: Answer,
    step: Duration,
)
    requires
        skips(fg, settings.denylist, settings.own_pid),
    ensures
        RunState::Foreground.after_foreground(settings, fg) == RunState::Skipped,
        RunState::Skipped.after_foreground(settings, fg) == RunState::Skipped,
        RunState::Skipped.after_count(settings, count) == RunState::Skipped,
        RunState::Skipped.after_reply(settings, answer) == RunState::Skipped,
        RunState::Skipped.request(step) == CaptureRequest::Finish,
{
}

/// There is always a poll, and there are as many as fit into the timeout: one
/// more would not.
pub proof fn law_polls_fill_the_timeout(timeout: nat, step: nat)
    ensures
        poll_steps(timeout, step) >= 1,
        step == 0 && timeout > 0 ==> poll_steps(timeout, step) == timeout,
        0 < step <= timeout ==> poll_steps(timeout, step) * step <= timeout < (poll_steps(
            timeout,
            step,
        ) + 1) * step,
        timeout < step ==> poll_steps(timeout, step) == 1,
{
    if 0 < step {
        let n = timeout / step;
        assert(n * step <= timeout < (n + 1) * step) by (nonlinear_arith)
            requires
                n == timeout / step,
                step > 0,
        ;
        if timeout < step {
            assert(n == 0) by (nonlinear_arith)
                requires
                    n * step <= timeout,
                    timeout < step,
                    n >= 0,
            ;
        } else {
            assert(n > 0) by (nonlinear_arith)
                requires
                    timeout < (n + 1) * step,
                    step <= timeout,
                    n >= 0,
            ;
        }
    }
}

/// A capture waits exactly as long as no poll found the change counter changed
/// and polls are left. Then it reads: at the first poll that found a change, and
/// at the last poll in any case, so never before the first.
pub proof fn law_wait_ends_with_change_or_timeout(
    settings: RunSettings,
    fg: Foreground,
    counts: Seq<u64>,
)
    requires
        settings.steps >= 1,
    ensures
        ({
            let start = RunState::Waiting { fg, remaining: settings.steps };
            let end = start.after_counts(settings, counts);
            let still = counts.len() < settings.steps && forall|i: int|
                0 <= i < counts.len() ==> !changed(settings.baseline, #[trigger] counts[i]);
            &&& still ==> end == RunState::Waiting {
                fg,
                remaining: (settings.steps - counts.len()) as nat,
            }
            &&& !still ==> end == RunState::Reading { fg, reading: Reading::Connect }
        }),
    decreases counts.len(),
{
    if counts.len() > 0 {
        let before = counts.drop_last();
        law_wait_ends_with_change_or_timeout(settings, fg, before);
        assert(forall|i: int| 0 <= i < before.len() ==> before[i] == counts[i]);
        assert(counts.last() == counts[counts.len() - 1]);
        if (forall|i: int|
            0 <= i < before.len() ==> !changed(settings.baseline, #[trigger] before[i])) && !changed(
            settings.baseline,
            counts.last(),
        ) {
            assert forall|i: int| 0 <= i < counts.len() implies !changed(
                settings.baseline,
                #[trigger] counts[i],
            ) by {
                if i < before.len() {
                    assert(!changed(settings.baseline, before[i]));
                }
            }
        }
    }
}

/// A counter that could not be read, when the trigger fired or at every poll,
/// only makes the wait last until its timeout.
pub proof fn law_unreadable_counter_waits_for_the_timeout(
    settings: RunSettings,
    fg: Foreground,
    counts: Seq<u64>,
)
    requires
        settings.steps >= 1,
        settings.baseline == 0 || forall|i: int| 0 <= i < counts.len() ==> #[trigger] counts[i] == 0,
    ensures
        ({
            let end = (RunState::Waiting { fg, remaining: settings.steps }).after_counts(
                settings,
                counts,
            );
            if counts.len() < settings.steps {
                end is Waiting
            } else {
                end == RunState::Reading { fg, reading: Reading::Connect }
            }
        }),
{
    law_wait_ends_with_change_or_timeout(settings, fg, counts);
}

/// The state of a capture that reads a clipboard, after `n` of its replies.
pub open spec fn run_after_replies(
    settings: RunSettings,
    fg: Foreground,
    offer: Offer,
    n: nat,
) -> RunState
    decreases n,
{
    if n == 0 {
        RunState::Reading { fg, reading: Reading::Connect }
    } else {
        let before = run_after_replies(settings, fg, offer, (n - 1) as nat);
        match before {
            RunState::Reading { fg, reading } => match reading.request() {
                Some(request) => before.after_reply(settings, offer.answer(request)),
                None => before,
            },
            _ => before,
        }
    }
}

proof fn lemma_run_reads(settings: RunSettings, fg: Foreground, offer: Offer, n: nat)
    ensures
        run_after_replies(settings, fg, offer, n) == (RunState::Reading {
            fg,
            reading: offer.reading_after(settings.max_files, n),
        }),
    decreases n,
{
    if n > 0 {
        lemma_run_reads(settings, fg, offer, (n - 1) as nat);
    }
}

/// A capture of an app that is not skipped ends with what the clipboard has to
/// offer, the first on the list of priorities, and with the foreground app
/// that was reported.
pub proof fn law_capture_ends_with_the_selected_content(
    settings: RunSettings,
    fg: Foreground,
    offer: Offer,
    step: Duration,
)
    requires
        !skips(fg, settings.denylist, settings.own_pid),
    ensures
        RunState::Foreground.after_foreground(settings, fg) == (RunState::Waiting {
            fg,
            remaining: settings.steps,
        }),
        run_after_replies(settings, fg, offer, 6) == (RunState::Reading {
            fg,
            reading: Reading::Done(offer.selected(settings.max_files)),
        }),
        run_after_replies(settings, fg, offer, 6).request(step) == CaptureRequest::Finish,
{
    lemma_run_reads(settings, fg, offer, 6);
    crate::clipboard::law_read_takes_the_first_that_is_there(offer, settings.max_files);
}

/// An app is skipped exactly when it is this process or denied by its executable
/// name or path. Its name, its window title and its URL do not matter: two apps
/// with the same process, executable name and path are skipped alike.
pub proof fn law_only_process_name_and_path_count(
    fg: Foreground,
    other: Foreground,
    denylist: Seq<Seq<char>>,
    own_pid: u32,
)
    requires
        fg.process_id == other.process_id,
        fg.exec_name@ == other.exec_name@,
        fg.exec_path@ == other.exec_path@,
    ensures
        skips(fg, denylist, own_pid) == skips(other, denylist, own_pid),
        denied(fg.exec_name@, fg.exec_path@, denylist) ==> skips(fg, denylist, own_pid),
        fg.process_id == own_pid ==> skips(fg, denylist, own_pid),
        fg.process_id != own_pid && !denied(fg.exec_name@, fg.exec_path@, denylist) ==> !skips(
            fg,
            denylist,
            own_pid,
        ),
{
}

/// An entry stands in a text, case aside: the text is made of something, of what
/// differs from the entry only in case, and of something else, all in caseless
/// form.
pub open spec fn stands_caseless(s: Seq<char>, entry: Seq<char>) -> bool {
    exists|a: Seq<char>, b: Seq<char>| #[trigger] (a + text::caseless(entry) + b)
        == text::caseless(s)
}

/// A name and a path are denied exactly when an entry that is not empty stands in
/// one of them, case aside, wherever the entry stands in the denylist.
pub proof fn law_denied_exactly_when_listed(
    name: Seq<char>,
    path: Seq<char>,
    denylist: Seq<Seq<char>>,
)
    ensures
        denied(name, path, denylist) <==> exists|k: int|
            0 <= k < denylist.len() && (#[trigger] denylist[k]).len() > 0 && (stands_caseless(
                name,
                denylist[k],
            ) || stands_caseless(path, denylist[k])),
{
    assert forall|k: int| 0 <= k < denylist.len() implies denied_by(
        name,
        path,
        #[trigger] denylist[k],
    ) == (denylist[k].len() > 0 && (stands_caseless(name, denylist[k]) || stands_caseless(
        path,
        denylist[k],
    ))) by {
        let needle = text::caseless(denylist[k]);
        text::law_occurs_where_it_was_put(seq![], needle, seq![], text::caseless(name), 0);
        text::law_occurs_where_it_was_put(seq![], needle, seq![], text::caseless(path), 0);
    }
    if denied(name, path, denylist) {
        let k = choose|k: int|
            0 <= k < denylist.len() && denied_by(name, path, #[trigger] denylist[k]);
        assert(denylist[k].len() > 0);
    }
    if exists|k: int|
        0 <= k < denylist.len() && (#[trigger] denylist[k]).len() > 0 && (stands_caseless(
            name,
            denylist[k],
        ) || stands_caseless(path, denylist[k])) {
        let k = choose|k: int|
            0 <= k < denylist.len() && (#[trigger] denylist[k]).len() > 0 && (stands_caseless(
                name,
                denylist[k],
            ) || stands_caseless(path, denylist[k]));
        assert(denied_by(name, path, denylist[k]));
    }
}

/// An app is skipped exactly when it is this process, or an entry that is not empty
/// stands in its executable name or in its path, case aside, wherever the entry
/// stands in the denylist.
pub proof fn law_skipped_exactly_when_own_or_listed(
    fg: Foreground,
    denylist: Seq<Seq<char>>,
    own_pid: u32,
)
    ensures
        skips(fg, denylist, own_pid) <==> fg.process_id == own_pid || exists|k: int|
            0 <= k < denylist.len() && (#[trigger] denylist[k]).len() > 0 && (stands_caseless(
                fg.exec_name@,
                denylist[k],
            ) || stands_caseless(fg.exec_path@, denylist[k])),
{
    law_denied_exactly_when_listed(fg.exec_name@, fg.exec_path@, denylist);
}

/// An app whose executable name or path holds an entry, with whatever before and
/// behind it and in whatever case of its ASCII letters, is skipped, whatever else
/// is on the denylist and whatever else is known of the app.
pub proof fn law_app_with_an_entry_in_it_is_skipped(
    fg: Foreground,
    before: Seq<char>,
    found: Seq<char>,
    behind: Seq<char>,
    denylist: Seq<Seq<char>>,
    k: int,
    own_pid: u32,
)
    requires
        0 <= k < denylist.len(),
        denylist[k].len() > 0,
        text::lowered(found) == text::lowered(denylist[k]),
        fg.exec_name@ == before + found + behind || fg.exec_path@ == before + found + behind,
    ensures
        skips(fg, denylist, own_pid),
{
    let all = before + found + behind;
    text::lemma_caseless_lowered(found);
    text::lemma_caseless_lowered(denylist[k]);
    text::law_caseless_character_by_character(before + found, behind, 'a');
    text::law_caseless_character_by_character(before, found, 'a');
    assert(text::caseless(all) == text::caseless(before) + text::caseless(denylist[k])
        + text::caseless(behind));
    text::law_occurs_where_it_was_put(
        text::caseless(before),
        text::caseless(denylist[k]),
        text::caseless(behind),
        seq![],
        0,
    );
    assert(denied_by(fg.exec_name@, fg.exec_path@, denylist[k]));
}

/// The counter has changed exactly when both readings worked and differ, however
/// far apart they are and whichever is the higher.
pub proof fn law_any_other_reading_is_a_change(a: u64, b: u64)
    ensures
        changed(a, b) == changed(b, a),
        !changed(a, a),
        !changed(a, 0),
        a != 0 && b != 0 && a != b ==> changed(a, b),
{
}

/// A capture goes by its configuration as it is: the denylist entry by entry, the
/// cap on files, the poll step and the timeout in milliseconds, the counter when it
/// was triggered and the own process.
pub proof fn law_capture_goes_by_its_configuration(config: Config, baseline: u64, own_pid: u32)
    ensures
        ({
            let s = RunSettings::of(config, baseline, own_pid);
            let list = config.denylist_exec_substrings@;
            let timeout = config.clipboard_change_timeout.millis();
            let step = config.clipboard_poll_step.millis();
            &&& s.denylist.len() == list.len()
            &&& forall|k: int| 0 <= k < list.len() ==> #[trigger] s.denylist[k] == list[k]@
            &&& s.own_pid == own_pid
            &&& s.baseline == baseline
            &&& s.max_files == config.max_files
            &&& s.steps >= 1
            &&& step == 0 && timeout > 0 ==> s.steps == timeout
            &&& 0 < step <= timeout ==> s.steps * step <= timeout < (s.steps + 1) * step
            &&& timeout < step ==> s.steps == 1
        }),
{
    law_polls_fill_the_timeout(
        config.clipboard_change_timeout.millis(),
        config.clipboard_poll_step.millis(),
    );
}

/// A capture asks for the foreground app first, then for polls at the given step,
/// then for what its read asks for, and is over once the read knows its content or
/// the app is skipped. What was not asked for changes nothing.
pub proof fn law_capture_asks_in_order(
    settings: RunSettings,
    fg: Foreground,
    other: Foreground,
    remaining: nat,
    reading: Reading,
    step: Duration,
    count: u64,
    answer: Answer,
)
    ensures
        RunState::Foreground.request(step) == CaptureRequest::Foreground,
        (RunState::Waiting { fg, remaining }).request(step) == (CaptureRequest::Poll { step }),
        reading.request() matches Some(r) ==> (RunState::Reading { fg, reading }).request(step)
            == CaptureRequest::Clipboard(r),
        reading.request() is None <==> (RunState::Reading { fg, reading }).request(step)
            == CaptureRequest::Finish,
        RunState::Skipped.request(step) == CaptureRequest::Finish,
        RunState::Foreground.after_count(settings, count) == RunState::Foreground,
        RunState::Foreground.after_reply(settings, answer) == RunState::Foreground,
        (RunState::Waiting { fg, remaining }).after_foreground(settings, other)
            == (RunState::Waiting { fg, remaining }),
        (RunState::Waiting { fg, remaining }).after_reply(settings, answer) == (RunState::Waiting {
            fg,
            remaining,
        }),
        (RunState::Reading { fg, reading }).after_foreground(settings, other)
            == (RunState::Reading { fg, reading }),
        (RunState::Reading { fg, reading }).after_count(settings, count) == (RunState::Reading {
            fg,
            reading,
        }),
        (RunState::Reading { fg, reading }).after_reply(settings, answer) == (RunState::Reading {
            fg,
            reading: reading.after(settings.max_files, answer),
        }),
{
}

/// An event holds all that was known of the app and all that was captured, each
/// under its own name.
pub proof fn law_event_holds_what_was_known(
    e: CaptureEvent,
    fg: Foreground,
    content: Content,
    timestamp_ms: u64,
)
    requires
        is_event(e, fg, content, timestamp_ms),
    ensures
        e.timestamp_ms == timestamp_ms,
        e.app_name@ == fg.app_name@,
        e.exec_name@ == fg.exec_name@,
        e.exec_path@ == fg.exec_path@,
        e.window_title@ == fg.window_title@,
        e.url is Some <==> fg.url is Some,
        e.url matches Some(u) ==> u@ == fg.url->0@,
        e.process_id == fg.process_id,
        e.content@ == content,
{
}

/// From its start to its end: the capture of an app that is neither this process
/// nor denied, on a clipboard that changes or does not, reads the clipboard once
/// the wait is over and ends with what the clipboard delivers to a read, and with
/// the app that was reported. Text that stands there alone arrives whole.
pub proof fn law_capture_from_start_to_end(
    config: Config,
    baseline: u64,
    own_pid: u32,
    fg: Foreground,
    counts: Seq<u64>,
    offer: Offer,
    step: Duration,
)
    requires
        fg.process_id != own_pid,
        config.denylist_exec_substrings@.len() == 0,
        counts.len() > 0,
        changed(baseline, counts.last()) || counts.len() >= RunSettings::of(
            config,
            baseline,
            own_pid,
        ).steps,
    ensures
        ({
            let s = RunSettings::of(config, baseline, own_pid);
            let waiting = RunState::Foreground.after_foreground(s, fg);
            let end = run_after_replies(s, fg, offer, 6);
            &&& waiting.request(step) == CaptureRequest::Poll { step }
            &&& waiting.after_counts(s, counts) == run_after_replies(s, fg, offer, 0)
            &&& end.request(step) == CaptureRequest::Finish
            &&& end == (RunState::Reading {
                fg,
                reading: offer.reading_after(config.max_files as nat, 6),
            })
        }),
{
    let s = RunSettings::of(config, baseline, own_pid);
    law_polls_fill_the_timeout(
        config.clipboard_change_timeout.millis(),
        config.clipboard_poll_step.millis(),
    );
    assert(!skips(fg, s.denylist, own_pid));
    law_wait_ends_with_change_or_timeout(s, fg, counts);
    assert(counts.last() == counts[counts.len() - 1]);
    law_capture_ends_with_the_selected_content(s, fg, offer, step);
    lemma_run_reads(s, fg, offer, 6);
}

/// The context of a window holds all that the windowing system says of it, each
/// under its own name, and the whole URL wherever it has a character other than
/// white space; without a window it is empty.
pub proof fn law_foreground_shows_the_window(
    fg: Foreground,
    window: ActiveWindow,
    url: Option<String>,
    none: Foreground,
)
    requires
        shows(fg, Some(window), url),
        shows(none, None, url),
    ensures
        fg.app_name@ == window.name@,
        fg.exec_name@ == window.exec_name@,
        fg.exec_path@ == window.path@,
        fg.window_title@ == window.title@,
        fg.process_id == window.process_id,
        url matches Some(u) && !text::all_white(u@) ==> fg.url is Some && fg.url->0@ == url->0@,
        (url matches Some(u) ==> text::all_white(u@)) ==> fg.url is None,
        none.app_name@.len() == 0 && none.exec_name@.len() == 0 && none.exec_path@.len() == 0
            && none.window_title@.len() == 0 && none.process_id == 0 && none.url is None,
{
    if let Some(u) = url {
        text::law_only_white_space_trims_to_nothing(u@);
    }
}

/// A timestamp counts the whole milliseconds since the epoch, for as long as 64 bits
/// hold them, and one millisecond later it is one higher; before the epoch it is 0.
pub proof fn law_timestamp_counts_milliseconds(now: Duration, later: Duration)
    ensures
        now.millis() <= u64::MAX ==> epoch_millis(Some(now)) * 1_000_000 <= now@ < (epoch_millis(
            Some(now),
        ) + 1) * 1_000_000,
        later@ == now@ + 1_000_000 && later.millis() <= u64::MAX ==> epoch_millis(Some(later))
            == epoch_millis(Some(now)) + 1,
        epoch_millis(None) == 0,
{
}

} // verus!
