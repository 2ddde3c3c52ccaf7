//! macOS key listener: decides what the events of a passive event tap mean. The
//! tap itself is left to the caller.

use crate::config::Config;
use crate::detector::{Phase, TapState};
use crate::listener;
use crate::listener::{Key, KeyEvent, KeyListener, ListenerState};
use crate::time::Duration;
use crate::Error;
use vstd::prelude::*;

verus! {

/// The virtual key code of `C`.
pub const KEY_C: i64 = 8;

/// An event of the tap.
#[derive(Debug, Clone, Copy, PartialEq, Eq, Structural)]
pub enum TapEvent {
    /// A key went down.
    KeyDown {
        /// Its virtual key code.
        keycode: i64,
        /// Whether the Command key is held.
        command: bool,
        /// The event's auto-repeat field; not zero for a repeat.
        autorepeat: i64,
    },
    /// A key came up.
    KeyUp {
        /// Its virtual key code.
        keycode: i64,
        /// Whether the Command key is held.
        command: bool,
    },
    /// macOS disabled the tap because it was slow.
    DisabledByTimeout,
    /// macOS disabled the tap because of what the user did.
    DisabledByUserInput,
    /// Anything else.
    Other,
}

/// What an event of the tap asks for.
#[derive(Debug, Clone, Copy, PartialEq, Eq, Structural)]
pub enum TapAction {
    /// Nothing.
    Ignore,
    /// Enable the tap again.
    EnableTap,
    /// Start a capture; it is in flight until [`KeyListener::capture_finished`].
    Capture,
}

/// The state with the modifier that an event reports.
pub open spec fn with_command(s: ListenerState, command: bool) -> ListenerState {
    ListenerState { tap: s.tap.with_modifier(command), ..s }
}

/// What an event asks for.
pub open spec fn action(s: ListenerState, event: TapEvent, now: Duration) -> TapAction {
    match event {
        TapEvent::DisabledByTimeout => TapAction::EnableTap,
        TapEvent::DisabledByUserInput => TapAction::EnableTap,
        TapEvent::KeyDown { keycode, command, autorepeat } => if keycode == KEY_C && with_command(
            s,
            command,
        ).captures(now, autorepeat != 0) {
            TapAction::Capture
        } else {
            TapAction::Ignore
        },
        _ => TapAction::Ignore,
    }
}

/// The state after an event.
pub open spec fn after(s: ListenerState, event: TapEvent, now: Duration) -> ListenerState {
    match event {
        TapEvent::KeyDown { keycode, command, autorepeat } => if keycode == KEY_C {
            with_command(s, command).after_down(now, autorepeat != 0)
        } else {
            s
        },
        TapEvent::KeyUp { keycode, command } => if keycode == KEY_C {
            ListenerState { tap: with_command(s, command).tap.after_up(), ..s }
        } else {
            s
        },
        _ => s,
    }
}

/// Feed an event of the tap at `now`, a time since any fixed moment. The
/// modifier is read off each event of `C`.
pub fn on_tap_event(listener: &mut KeyListener, event: TapEvent, now: Duration) -> (r: TapAction)
    ensures
        r == action(old(listener)@, event, now),
        final(listener)@ == after(old(listener)@, event, now),
{
    match event {
        TapEvent::DisabledByTimeout | TapEvent::DisabledByUserInput => TapAction::EnableTap,
        TapEvent::KeyDown { keycode, command, autorepeat } => {
            if keycode != KEY_C {
                return TapAction::Ignore;
            }
            listener.set_modifier(command);
            if listener.on_c_down(now, autorepeat != 0) {
                TapAction::Capture
            } else {
                TapAction::Ignore
            }
        },
        TapEvent::KeyUp { keycode, command } => {
            if keycode == KEY_C {
                listener.set_modifier(command);
                listener.on_c_up();
            }
            TapAction::Ignore
        },
        TapEvent::Other => TapAction::Ignore,
    }
}

/// What installing the tap needs done next.
#[derive(Debug, Clone, Copy, PartialEq, Eq, Structural)]
pub enum TapStep {
    /// Create the event tap.
    CreateTap,
    /// Create the run loop source of the tap.
    CreateSource,
    /// Remember the tap's port and get the current run loop.
    GetRunLoop,
    /// Add the source to the run loop and enable the tap: it is installed.
    Attach,
}

/// Why a step of the installation is not possible.
pub open spec fn step_failure(step: TapStep) -> Seq<char> {
    match step {
        TapStep::CreateTap =>
            "could not create CGEventTap \u{2014} grant Input Monitoring to the host app (during development, that is your terminal)"@,
        TapStep::CreateSource => "could not create run loop source for the tap"@,
        TapStep::GetRunLoop => "could not get the current run loop"@,
        TapStep::Attach => seq![],
    }
}

/// The step behind one that was tried, or the error that ends the installation.
pub fn next_step(step: TapStep, done: bool) -> (r: Result<TapStep, Error>)
    ensures
        match step {
            TapStep::CreateTap if done => r == Ok::<TapStep, Error>(TapStep::CreateSource),
            TapStep::CreateSource if done => r == Ok::<TapStep, Error>(TapStep::GetRunLoop),
            TapStep::GetRunLoop if done => r == Ok::<TapStep, Error>(TapStep::Attach),
            TapStep::Attach => r == Ok::<TapStep, Error>(TapStep::Attach),
            _ => r matches Err(Error::ListenerInit(message)) && message@ == step_failure(step),
        },
{
    match step {
        TapStep::CreateTap => if done {
            Ok(TapStep::CreateSource)
        } else {
            Err(
                Error::ListenerInit(
                    "could not create CGEventTap \u{2014} grant Input Monitoring to the host app (during development, that is your terminal)".to_owned(),
                ),
            )
        },
        TapStep::CreateSource => if done {
            Ok(TapStep::GetRunLoop)
        } else {
            Err(
                Error::ListenerInit("could not create run loop source for the tap".to_owned()),
            )
        },
        TapStep::GetRunLoop => if done {
            Ok(TapStep::Attach)
        } else {
            Err(Error::ListenerInit("could not get the current run loop".to_owned()))
        },
        TapStep::Attach => Ok(TapStep::Attach),
    }
}

/// A tap that macOS disabled is enabled again, and nothing is forgotten.
pub proof fn law_disabled_tap_is_enabled_again(s: ListenerState, now: Duration)
    ensures
        action(s, TapEvent::DisabledByTimeout, now) == TapAction::EnableTap,
        action(s, TapEvent::DisabledByUserInput, now) == TapAction::EnableTap,
        after(s, TapEvent::DisabledByTimeout, now) == s,
        after(s, TapEvent::DisabledByUserInput, now) == s,
{
}

/// A capture starts only on a key-down of `C` with Command held that is no
/// repeat, and keys other than `C` change nothing.
pub proof fn law_only_command_c_captures(s: ListenerState, event: TapEvent, now: Duration)
    ensures
        action(s, event, now) == TapAction::Capture ==> (event matches TapEvent::KeyDown {
            keycode,
            command,
            autorepeat,
        } && keycode == KEY_C && command && autorepeat == 0),
        (event matches TapEvent::KeyDown { keycode, .. } && keycode != KEY_C) ==> after(
            s,
            event,
            now,
        ) == s,
        (event matches TapEvent::KeyUp { keycode, .. } && keycode != KEY_C) ==> after(s, event, now)
            == s,
{
}

/// An event of `C` without Command, a press or a release, starts nothing and
/// forgets the tap in progress.
pub proof fn law_c_without_command_resets(s: ListenerState, event: TapEvent, now: Duration)
    requires
        is_plain_c(event),
    ensures
        action(s, event, now) == TapAction::Ignore,
        after(s, event, now).tap == TapState::start(s.tap.window),
        after(s, event, now).throttle == s.throttle,
{
}

/// The state of a listener after a sequence of tap events and, behind some of
/// them, the end of a capture.
pub open spec fn after_all(
    s: ListenerState,
    events: Seq<(TapEvent, Duration)>,
    finished: Set<int>,
) -> ListenerState
    decreases events.len(),
{
    if events.len() == 0 {
        s
    } else {
        let n = events.len() - 1;
        let next = after(after_all(s, events.drop_last(), finished), events[n].0, events[n].1);
        if finished.contains(n) {
            next.after_capture()
        } else {
            next
        }
    }
}

/// A key-down of `C` with Command held that is no repeat.
pub open spec fn is_press(event: TapEvent) -> bool {
    event matches TapEvent::KeyDown { keycode, command, autorepeat } && keycode == KEY_C && command
        && autorepeat == 0
}

/// An event of `C` without Command.
pub open spec fn is_plain_c(event: TapEvent) -> bool {
    match event {
        TapEvent::KeyDown { keycode, command, .. } => keycode == KEY_C && !command,
        TapEvent::KeyUp { keycode, command } => keycode == KEY_C && !command,
        _ => false,
    }
}

/// `C` was pressed with Command at position `i` and time `at`, and no event of `C`
/// without Command came behind.
pub open spec fn pressed(events: Seq<(TapEvent, Duration)>, i: int, at: u64) -> bool {
    &&& 0 <= i < events.len()
    &&& is_press(events[i].0)
    &&& listener::low_millis(events[i].1) == at
    &&& forall|k: int| i < k < events.len() ==> !is_plain_c((#[trigger] events[k]).0)
}

/// A press at `i` that came up again at `j`.
pub open spec fn released(events: Seq<(TapEvent, Duration)>, i: int, j: int, at: u64) -> bool {
    &&& pressed(events, i, at)
    &&& i < j < events.len()
    &&& events[j].0 == (TapEvent::KeyUp { keycode: KEY_C, command: true })
}

/// What the tap has seen when the detector says that a tap is in progress.
proof fn lemma_tap_history(config: Config, events: Seq<(TapEvent, Duration)>, finished: Set<int>)
    ensures
        ({
            let s = after_all(ListenerState::start(config), events, finished);
            &&& s.tap.window == listener::low_millis(config.double_tap_window)
            &&& s.tap.phase matches Phase::FirstDown { at } ==> exists|i: int|
                pressed(events, i, at)
            &&& s.tap.phase matches Phase::FirstReleased { at } ==> exists|i: int, j: int|
                released(events, i, j, at)
        }),
    decreases events.len(),
{
    if events.len() > 0 {
        let before = events.drop_last();
        let n = before.len() as int;
        lemma_tap_history(config, before, finished);
        let s = after_all(ListenerState::start(config), before, finished);
        let next = after_all(ListenerState::start(config), events, finished);
        assert(next.tap == after(s, events[n].0, events[n].1).tap);
        assert forall|i: int, at: u64|
            pressed(before, i, at) && !is_plain_c(events[n].0) implies pressed(events, i, at) by {
            assert forall|k: int| i < k < events.len() implies !is_plain_c(
                (#[trigger] events[k]).0,
            ) by {
                if k < n {
                    assert(before[k] == events[k]);
                }
            }
        }
        match next.tap.phase {
            Phase::Idle => {},
            Phase::FirstDown { at } => {
                if s.tap.phase == next.tap.phase {
                    let i = choose|i: int| pressed(before, i, at);
                    if is_plain_c(events[n].0) {
                        assert(next.tap.phase is Idle);
                    }
                    assert(pressed(events, i, at));
                } else {
                    assert(pressed(events, n, at));
                }
            },
            Phase::FirstReleased { at } => {
                if s.tap.phase == next.tap.phase {
                    let (i, j) = choose|i: int, j: int| released(before, i, j, at);
                    assert(pressed(events, i, at));
                    assert(events[j] == before[j]);
                    assert(released(events, i, j, at));
                } else {
                    let i = choose|i: int| pressed(before, i, at);
                    assert(pressed(events, i, at));
                    assert(released(events, i, n, at));
                }
            },
        }
    }
}

/// Whatever the tap reports, a capture starts only on a press of `C` with
/// Command, after an earlier such press and a release of `C`, with at most the
/// window between the presses and no event of `C` without Command since the first.
pub proof fn law_capture_needs_two_command_presses(
    config: Config,
    events: Seq<(TapEvent, Duration)>,
    finished: Set<int>,
    event: TapEvent,
    now: Duration,
)
    requires
        action(after_all(ListenerState::start(config), events, finished), event, now)
            == TapAction::Capture,
    ensures
        is_press(event),
        exists|i: int, j: int, at: u64|
            released(events, i, j, at) && listener::low_millis(now) - at <= listener::low_millis(
                config.double_tap_window,
            ),
{
    lemma_tap_history(config, events, finished);
    let s = after_all(ListenerState::start(config), events, finished);
    let at = s.tap.phase->FirstReleased_at;
    let (i, j) = choose|i: int, j: int| released(events, i, j, at);
    assert(released(events, i, j, at));
}

/// From any state without a tap in progress, whatever the times: a press, a
/// release and a press of `C` with Command held, no repeats, ask for a capture
/// exactly when the presses are at most the window apart and the throttle admits
/// the second, that is, no capture is in flight and the last one was started at
/// least the cooldown ago. Until then nothing is asked for.
pub proof fn law_command_c_c_starts_a_capture(
    s: ListenerState,
    t0: Duration,
    up: Duration,
    t1: Duration,
)
    requires
        s.tap.phase is Idle,
        t0.millis() <= u64::MAX,
        t1.millis() <= u64::MAX,
    ensures
        ({
            let press = TapEvent::KeyDown { keycode: 8, command: true, autorepeat: 0 };
            let release = TapEvent::KeyUp { keycode: 8, command: true };
            let first = after(s, press, t0);
            let ready = after(first, release, up);
            let end = after(ready, press, t1);
            let free = !s.throttle.in_flight && (s.throttle.last matches Some(l) ==> t1@ >= l
                + s.throttle.cooldown || s.throttle.cooldown == 0);
            &&& action(s, press, t0) == TapAction::Ignore
            &&& action(first, release, up) == TapAction::Ignore
            &&& action(ready, press, t1) == TapAction::Capture <==> t1.millis() - t0.millis()
                <= s.tap.window && free
            &&& free <==> s.throttle.admits(t1@)
            &&& action(ready, press, t1) == TapAction::Capture ==> end.throttle.in_flight
                && end.throttle.last == Some(t1@)
            &&& action(ready, press, t1) != TapAction::Capture ==> end.throttle == s.throttle
        }),
{
}

/// The second press begins the next tap where it came too late, so that a third
/// press within the window of it asks for a capture.
pub proof fn law_late_press_begins_the_next_tap(
    s: ListenerState,
    t0: Duration,
    t1: Duration,
    t2: Duration,
)
    requires
        s.tap.phase is Idle,
        t0.millis() <= u64::MAX,
        t1.millis() <= u64::MAX,
        t2.millis() <= u64::MAX,
        t1.millis() - t0.millis() > s.tap.window,
    ensures
        ({
            let press = TapEvent::KeyDown { keycode: 8, command: true, autorepeat: 0 };
            let release = TapEvent::KeyUp { keycode: 8, command: true };
            let late = after(after(after(s, press, t0), release, t0), press, t1);
            let ready = after(late, release, t1);
            action(ready, press, t2) == TapAction::Capture <==> t2.millis() - t1.millis()
                <= s.tap.window && s.throttle.admits(t2@)
        }),
{
}

/// Events of other keys, other events and a tap that macOS disabled leave the
/// listener as it is, at any time; a key repeat of `C` with Command held does too.
pub proof fn law_other_tap_events_change_nothing(
    s: ListenerState,
    keycode: i64,
    command: bool,
    autorepeat: i64,
    now: Duration,
)
    ensures
        keycode != 8 ==> after(s, TapEvent::KeyDown { keycode, command, autorepeat }, now) == s
            && after(s, TapEvent::KeyUp { keycode, command }, now) == s && action(
            s,
            TapEvent::KeyDown { keycode, command, autorepeat },
            now,
        ) == TapAction::Ignore,
        action(s, TapEvent::KeyUp { keycode, command }, now) == TapAction::Ignore,
        after(s, TapEvent::Other, now) == s,
        action(s, TapEvent::Other, now) == TapAction::Ignore,
        autorepeat != 0 && s.tap.modifier ==> after(
            s,
            TapEvent::KeyDown { keycode: 8, command: true, autorepeat },
            now,
        ) == s && action(s, TapEvent::KeyDown { keycode: 8, command: true, autorepeat }, now)
            == TapAction::Ignore,
{
}

/// The same gesture starts a capture with Ctrl on a keyboard and with Command on a
/// tap: a listener that got `C` pressed, released and pressed asks for a capture
/// alike, and ends in the same state.
pub proof fn law_tap_and_keyboard_agree(
    s: ListenerState,
    t0: Duration,
    up: Duration,
    t1: Duration,
)
    requires
        s.tap.modifier,
    ensures
        ({
            let press = TapEvent::KeyDown { keycode: 8, command: true, autorepeat: 0 };
            let release = TapEvent::KeyUp { keycode: 8, command: true };
            let down = KeyEvent::Press(Key::KeyC);
            let tapped = after(after(s, press, t0), release, up);
            let typed = s.after(down, t0).after(KeyEvent::Release(Key::KeyC), up);
            &&& tapped == typed
            &&& action(tapped, press, t1) == TapAction::Capture <==> typed.captures_on(down, t1)
            &&& after(tapped, press, t1) == typed.after(down, t1)
        }),
{
}

/// The detector hears of every event of `C`, a repeat or not, at its time and with
/// the modifier that the event reports, and the throttle of every double tap.
pub proof fn law_detector_hears_of_command_and_c(
    s: ListenerState,
    command: bool,
    autorepeat: i64,
    now: Duration,
)
    ensures
        ({
            let down = TapEvent::KeyDown { keycode: 8, command, autorepeat };
            let up = TapEvent::KeyUp { keycode: 8, command };
            let tap = s.tap.with_modifier(command);
            let fires = tap.fires(listener::low_millis(now), autorepeat != 0);
            &&& after(s, down, now).tap == tap.after_down(listener::low_millis(now), autorepeat != 0)
            &&& after(s, up, now).tap == tap.after_up()
            &&& after(s, up, now).throttle == s.throttle
            &&& action(s, down, now) == TapAction::Capture <==> fires && s.throttle.admits(now@)
            &&& fires ==> after(s, down, now).throttle == s.throttle.after_trigger(now@)
            &&& !fires ==> after(s, down, now).throttle == s.throttle
            &&& action(s, down, now) != TapAction::EnableTap
        }),
{
}

} // verus!
