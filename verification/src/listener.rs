//! Windows/Linux key listener: feeds key events to the detector and, on a
//! trigger, says whether a capture starts. Hooking the keyboard is left to the
//! caller.

use crate::config::Config;
use crate::detector;
use crate::detector::{DoubleTap, Stroke, TapState};
use crate::throttle;
use crate::throttle::{Throttle, ThrottleState};
use crate::time::Duration;
use crate::{Failure, TriggerStatus};
use vstd::prelude::*;

verus! {

/// The keys that matter.
#[derive(Debug, Clone, Copy, PartialEq, Eq, Structural)]
pub enum Key {
    /// The left Ctrl key.
    ControlLeft,
    /// The right Ctrl key.
    ControlRight,
    /// The `C` key.
    KeyC,
    /// Any other key.
    Other,
}

/// What happened on the keyboard.
#[derive(Debug, Clone, Copy, PartialEq, Eq, Structural)]
pub enum KeyEvent {
    /// A key went down.
    Press(Key),
    /// A key came up.
    Release(Key),
    /// Something else, such as a move of the mouse.
    Other,
}

/// A Ctrl key, the trigger modifier of Windows and Linux.
pub open spec fn is_control(key: Key) -> bool {
    key is ControlLeft || key is ControlRight
}

/// Whether the key is a trigger modifier.
pub fn is_trigger_modifier(key: Key) -> (r: bool)
    ensures
        r == is_control(key),
{
    match key {
        Key::ControlLeft | Key::ControlRight => true,
        _ => false,
    }
}

/// What a listener knows.
pub ghost struct ListenerState {
    pub tap: TapState,
    pub throttle: ThrottleState,
}

impl ListenerState {
    /// The state of a listener under `config` that has seen nothing. The window is
    /// the low 64 bits of its milliseconds.
    pub open spec fn start(config: Config) -> ListenerState {
        ListenerState {
            tap: TapState::start(low_millis(config.double_tap_window)),
            throttle: ThrottleState::start(config.trigger_cooldown@),
        }
    }

    /// A key-down of `C` starts a capture: it completes a double tap, and the
    /// throttle lets it through.
    pub open spec fn captures(self, now: Duration, autorepeat: bool) -> bool {
        self.tap.fires(low_millis(now), autorepeat) && self.throttle.admits(now@)
    }

    /// The state after a key-down of `C`. The throttle hears only of double taps.
    pub open spec fn after_down(self, now: Duration, autorepeat: bool) -> ListenerState {
        ListenerState {
            tap: self.tap.after_down(low_millis(now), autorepeat),
            throttle: if self.tap.fires(low_millis(now), autorepeat) {
                self.throttle.after_trigger(now@)
            } else {
                self.throttle
            },
        }
    }

    /// A key event starts a capture.
    pub open spec fn captures_on(self, event: KeyEvent, now: Duration) -> bool {
        event == KeyEvent::Press(Key::KeyC) && self.captures(now, false)
    }

    /// The state after a key event.
    pub open spec fn after(self, event: KeyEvent, now: Duration) -> ListenerState {
        match event {
            KeyEvent::Press(key) => if is_control(key) {
                ListenerState { tap: self.tap.with_modifier(true), ..self }
            } else if key is KeyC {
                self.after_down(now, false)
            } else {
                self
            },
            KeyEvent::Release(key) => if is_control(key) {
                ListenerState { tap: self.tap.with_modifier(false), ..self }
            } else if key is KeyC {
                ListenerState { tap: self.tap.after_up(), ..self }
            } else {
                self
            },
            KeyEvent::Other => self,
        }
    }

    /// The state once the capture is over.
    pub open spec fn after_capture(self) -> ListenerState {
        ListenerState { throttle: self.throttle.after_finish(), ..self }
    }
}

/// The low 64 bits of a span's milliseconds.
pub open spec fn low_millis(d: Duration) -> u64 {
    (d.millis() % 0x1_0000_0000_0000_0000) as u64
}

/// Watches the keyboard for Ctrl+C+C.
pub struct KeyListener {
    detector: DoubleTap,
    throttle: Throttle,
}

impl View for KeyListener {
    type V = ListenerState;

    closed spec fn view(&self) -> ListenerState {
        ListenerState { tap: self.detector@, throttle: self.throttle@ }
    }
}

impl KeyListener {
    /// A listener that has seen nothing.
    pub fn new(config: &Config) -> (r: KeyListener)
        ensures
            r@ == ListenerState::start(*config),
    {
        KeyListener {
            detector: DoubleTap::new(config.double_tap_window.as_millis_u64()),
            throttle: Throttle::new(config.trigger_cooldown),
        }
    }

    /// Feed a `C` key-down at `now`, a time since any fixed moment. Returns `true`
    /// when a capture is to be started; it is in flight until
    /// [`KeyListener::capture_finished`].
    pub fn on_c_down(&mut self, now: Duration, autorepeat: bool) -> (r: bool)
        ensures
            r == old(self)@.captures(now, autorepeat),
            final(self)@ == old(self)@.after_down(now, autorepeat),
    {
        if self.detector.on_c_down(now.as_millis_u64(), autorepeat) {
            self.throttle.fire_if_allowed(now)
        } else {
            false
        }
    }

    /// Feed a `C` key-up.
    pub fn on_c_up(&mut self)
        ensures
            final(self)@ == (ListenerState { tap: old(self)@.tap.after_up(), ..old(self)@ }),
    {
        self.detector.on_c_up();
    }

    /// Update whether the trigger modifier is held.
    pub fn set_modifier(&mut self, down: bool)
        ensures
            final(self)@ == (ListenerState {
                tap: old(self)@.tap.with_modifier(down),
                ..old(self)@
            }),
    {
        self.detector.set_modifier(down);
    }

    /// Feed a key event at `now`. Returns `true` when a capture is to be started.
    pub fn on_event(&mut self, event: KeyEvent, now: Duration) -> (r: bool)
        ensures
            r == old(self)@.captures_on(event, now),
            final(self)@ == old(self)@.after(event, now),
    {
        match event {
            KeyEvent::Press(key) => {
                if is_trigger_modifier(key) {
                    self.set_modifier(true);
                    false
                } else if key == Key::KeyC {
                    self.on_c_down(now, false)
                } else {
                    false
                }
            },
            KeyEvent::Release(key) => {
                if is_trigger_modifier(key) {
                    self.set_modifier(false);
                } else if key == Key::KeyC {
                    self.on_c_up();
                }
                false
            },
            KeyEvent::Other => false,
        }
    }

    /// The capture in flight is over.
    pub fn capture_finished(&mut self)
        ensures
            final(self)@ == old(self)@.after_capture(),
    {
        self.throttle.finish();
    }
}

/// The status to report once listening to the keyboard has ended; `None` where it
/// ended without an error.
pub fn keys_status(outcome: &Result<(), String>) -> (r: Option<TriggerStatus>)
    ensures
        match outcome {
            Ok(_) => r is None,
            Err(e) => r matches Some(TriggerStatus::Failed { message }) && message@
                == Failure::Keys.text() + ": "@ + e@,
        },
        outcome matches Err(e) ==> r is Some && r->0.tells(Failure::Keys, e@),
{
    match outcome {
        Ok(_) => None,
        Err(e) => Some(TriggerStatus::failed(Failure::Keys, e.as_str())),
    }
}

/// Keys other than Ctrl and `C` change nothing and start nothing, and a plain `C`
/// without Ctrl starts nothing.
pub proof fn law_other_keys_are_ignored(s: ListenerState, now: Duration)
    ensures
        s.after(KeyEvent::Press(Key::Other), now) == s,
        s.after(KeyEvent::Release(Key::Other), now) == s,
        s.after(KeyEvent::Other, now) == s,
        forall|event: KeyEvent|
            #[trigger] s.captures_on(event, now) ==> event == KeyEvent::Press(Key::KeyC)
                && s.tap.modifier,
{
}

/// Either Ctrl key will do.
pub proof fn law_ctrl_keys_are_alike(s: ListenerState, now: Duration)
    ensures
        s.after(KeyEvent::Press(Key::ControlLeft), now) == s.after(
            KeyEvent::Press(Key::ControlRight),
            now,
        ),
        s.after(KeyEvent::Release(Key::ControlLeft), now) == s.after(
            KeyEvent::Release(Key::ControlRight),
            now,
        ),
{
}

/// With Ctrl held and no tap in progress, pressing, releasing and pressing `C`
/// again starts a capture exactly when the second press comes within the window,
/// no capture is in flight and the cooldown is over.
pub proof fn law_ctrl_c_c_starts_a_capture(s: ListenerState, t0: Duration, t1: Duration)
    requires
        s.tap.modifier,
        s.tap.phase is Idle,
    ensures
        ({
            let c = Key::KeyC;
            let up = s.after(KeyEvent::Press(c), t0).after(KeyEvent::Release(c), t0);
            &&& !s.captures_on(KeyEvent::Press(c), t0)
            &&& up.captures_on(KeyEvent::Press(c), t1) <==> low_millis(t1) - low_millis(t0)
                <= s.tap.window && s.throttle.admits(t1@)
        }),
{
}

/// While a capture is in flight no other starts, whatever happens on the keyboard.
pub proof fn law_no_capture_while_one_is_in_flight(
    s: ListenerState,
    event: KeyEvent,
    now: Duration,
)
    requires
        s.throttle.in_flight,
    ensures
        !s.captures_on(event, now),
        s.after(event, now).throttle == s.throttle,
{
}

/// What the detector hears of a key event.
pub open spec fn stroke_of(event: KeyEvent, now: Duration) -> Option<Stroke> {
    match event {
        KeyEvent::Press(key) => if is_control(key) {
            Some(Stroke::Modifier { down: true })
        } else if key is KeyC {
            Some(Stroke::Down { now: low_millis(now), autorepeat: false })
        } else {
            None
        },
        KeyEvent::Release(key) => if is_control(key) {
            Some(Stroke::Modifier { down: false })
        } else if key is KeyC {
            Some(Stroke::Up)
        } else {
            None
        },
        KeyEvent::Other => None,
    }
}

/// What the detector hears of a sequence of key events.
pub open spec fn strokes_of(events: Seq<(KeyEvent, Duration)>) -> Seq<Stroke>
    decreases events.len(),
{
    if events.len() == 0 {
        seq![]
    } else {
        let before = strokes_of(events.drop_last());
        match stroke_of(events.last().0, events.last().1) {
            Some(stroke) => before.push(stroke),
            None => before,
        }
    }
}

/// The state of a listener after a sequence of key events and, behind some of
/// them, the end of a capture.
pub open spec fn after_all(
    s: ListenerState,
    events: Seq<(KeyEvent, Duration)>,
    finished: Set<int>,
) -> ListenerState
    decreases events.len(),
{
    if events.len() == 0 {
        s
    } else {
        let n = events.len() - 1;
        let next = after_all(s, events.drop_last(), finished).after(events[n].0, events[n].1);
        if finished.contains(n) {
            next.after_capture()
        } else {
            next
        }
    }
}

proof fn lemma_detector_hears_strokes(
    s: ListenerState,
    events: Seq<(KeyEvent, Duration)>,
    finished: Set<int>,
)
    ensures
        after_all(s, events, finished).tap == s.tap.after_all(strokes_of(events)),
    decreases events.len(),
{
    if events.len() > 0 {
        let before = events.drop_last();
        lemma_detector_hears_strokes(s, before, finished);
        if let Some(stroke) = stroke_of(events.last().0, events.last().1) {
            assert(strokes_of(before).push(stroke).drop_last() =~= strokes_of(before));
        }
    }
}

/// The event that a stroke comes from.
proof fn lemma_stroke_has_an_event(events: Seq<(KeyEvent, Duration)>, k: int) -> (e: int)
    requires
        0 <= k < strokes_of(events).len(),
    ensures
        0 <= e < events.len(),
        stroke_of(events[e].0, events[e].1) == Some(strokes_of(events)[k]),
        strokes_of(events.take(e)).len() == k,
        strokes_of(events.take(e + 1)).len() == k + 1,
    decreases events.len(),
{
    let before = events.drop_last();
    let n = before.len() as int;
    if k < strokes_of(before).len() {
        let e = lemma_stroke_has_an_event(before, k);
        assert(before.take(e) =~= events.take(e));
        assert(before.take(e + 1) =~= events.take(e + 1));
        assert(before[e] == events[e]);
        e
    } else {
        assert(events.take(n) =~= before);
        assert(events.take(n + 1) =~= events);
        n
    }
}

proof fn lemma_strokes_grow(events: Seq<(KeyEvent, Duration)>, a: int, b: int)
    requires
        0 <= a <= b <= events.len(),
    ensures
        strokes_of(events.take(a)).len() <= strokes_of(events.take(b)).len(),
    decreases b - a,
{
    if a < b {
        lemma_strokes_grow(events, a, b - 1);
        assert(events.take(b).drop_last() =~= events.take(b - 1));
    }
}

/// Whatever is done on the keyboard, a capture starts only on a press of `C`,
/// after an earlier press and a release of `C`, with at most the window between
/// the presses and Ctrl held and not released since the first. Other keys, in
/// between or before, do not matter.
pub proof fn law_capture_needs_two_presses(
    config: Config,
    events: Seq<(KeyEvent, Duration)>,
    finished: Set<int>,
    event: KeyEvent,
    now: Duration,
)
    requires
        after_all(ListenerState::start(config), events, finished).captures_on(event, now),
    ensures
        event == KeyEvent::Press(Key::KeyC),
        after_all(ListenerState::start(config), events, finished).tap.modifier,
        exists|i: int, j: int|
            0 <= i < j < events.len() && #[trigger] events[i].0 == KeyEvent::Press(Key::KeyC)
                && #[trigger] events[j].0 == KeyEvent::Release(Key::KeyC) && low_millis(now)
                - low_millis(events[i].1) <= low_millis(config.double_tap_window)
                && !ctrl_released(events, i),
{
    let start = ListenerState::start(config);
    let window = low_millis(config.double_tap_window);
    let strokes = strokes_of(events);
    let down = Stroke::Down { now: low_millis(now), autorepeat: false };
    let all = strokes.push(down);
    let n = strokes.len() as int;
    lemma_detector_hears_strokes(start, events, finished);
    assert(all.take(n) =~= strokes);
    assert(TapState::start(window).fires_at(all, n));
    detector::law_fires_only_on_press_release_press(window, all, n);
    let (a, b, at) = choose|a: int, b: int, at: u64|
        detector::tap_done(window, all.take(n), a, b, at) && low_millis(now) - at <= window;
    let i = lemma_stroke_has_an_event(events, a);
    let j = lemma_stroke_has_an_event(events, b);
    if j <= i {
        lemma_strokes_grow(events, j + 1, i + 1);
    }
    if ctrl_released(events, i) {
        let k = choose|k: int| #![trigger events[k]]
            i < k < events.len() && (events[k].0 == KeyEvent::Release(Key::ControlLeft)
                || events[k].0 == KeyEvent::Release(Key::ControlRight));
        assert(events.take(k + 1).drop_last() =~= events.take(k));
        let m = strokes_of(events.take(k)).len() as int;
        lemma_strokes_grow(events, i + 1, k);
        lemma_stroke_stays(events, k);
        assert(strokes[m] == (Stroke::Modifier { down: false }));
    }
    assert(events[i].0 == KeyEvent::Press(Key::KeyC) && events[j].0 == KeyEvent::Release(
        Key::KeyC,
    ));
}

/// A Ctrl key is released behind position `i`.
pub open spec fn ctrl_released(events: Seq<(KeyEvent, Duration)>, i: int) -> bool {
    exists|k: int| #![trigger events[k]]
        i < k < events.len() && (events[k].0 == KeyEvent::Release(Key::ControlLeft) || events[k].0
            == KeyEvent::Release(Key::ControlRight))
}

/// The stroke of an event stands where it was when more events follow.
proof fn lemma_stroke_stays(events: Seq<(KeyEvent, Duration)>, e: int)
    requires
        0 <= e < events.len(),
        stroke_of(events[e].0, events[e].1) is Some,
    ensures
        strokes_of(events.take(e)).len() < strokes_of(events).len(),
        strokes_of(events)[strokes_of(events.take(e)).len() as int] == stroke_of(
            events[e].0,
            events[e].1,
        )->0,
    decreases events.len(),
{
    let before = events.drop_last();
    if e < before.len() {
        assert(before.take(e) =~= events.take(e));
        assert(before[e] == events[e]);
        lemma_stroke_stays(before, e);
    } else {
        assert(events.take(e) =~= before);
    }
}

/// The event at position `n` starts a capture.
pub open spec fn captures_at(
    config: Config,
    events: Seq<(KeyEvent, Duration)>,
    finished: Set<int>,
    n: int,
) -> bool {
    &&& 0 <= n < events.len()
    &&& after_all(ListenerState::start(config), events.take(n), finished).captures_on(
        events[n].0,
        events[n].1,
    )
}

/// A capture finished behind an event from `m` on, before `n`.
pub open spec fn finished_between(finished: Set<int>, m: int, n: int) -> bool {
    exists|k: int| m <= k < n && #[trigger] finished.contains(k)
}

proof fn lemma_cooldown_stays(
    s: ListenerState,
    events: Seq<(KeyEvent, Duration)>,
    finished: Set<int>,
)
    ensures
        after_all(s, events, finished).throttle.cooldown == s.throttle.cooldown,
    decreases events.len(),
{
    if events.len() > 0 {
        lemma_cooldown_stays(s, events.drop_last(), finished);
    }
}

/// What the throttle knows after a capture, until the next one starts.
proof fn lemma_capture_is_remembered(
    config: Config,
    events: Seq<(KeyEvent, Duration)>,
    finished: Set<int>,
    m: int,
    n: int,
)
    requires
        captures_at(config, events, finished, m),
        m < n <= events.len(),
        forall|k: int| m < k < n ==> !(#[trigger] captures_at(config, events, finished, k)),
    ensures
        ({
            let s = after_all(ListenerState::start(config), events.take(n), finished).throttle;
            &&& s.last == Some(events[m].1@)
            &&& s.in_flight || finished_between(finished, m, n)
        }),
    decreases n,
{
    let last = n - 1;
    assert(events.take(n).drop_last() =~= events.take(last));
    if m < last {
        lemma_capture_is_remembered(config, events, finished, m, last);
        assert(!captures_at(config, events, finished, last));
        if finished_between(finished, m, last) {
            let k = choose|k: int| m <= k < last && #[trigger] finished.contains(k);
            assert(finished.contains(k));
        }
    }
    if finished.contains(last) {
        assert(finished_between(finished, m, n));
    }
}

/// Between two captures in a row the first has finished, and at least the
/// cooldown has passed, whatever is done on the keyboard.
pub proof fn law_captures_keep_the_cooldown(
    config: Config,
    events: Seq<(KeyEvent, Duration)>,
    finished: Set<int>,
    m: int,
    n: int,
)
    requires
        captures_at(config, events, finished, m),
        captures_at(config, events, finished, n),
        m < n,
        forall|k: int| m < k < n ==> !(#[trigger] captures_at(config, events, finished, k)),
    ensures
        throttle::elapsed(events[m].1@, events[n].1@) >= config.trigger_cooldown@,
        finished_between(finished, m, n),
{
    lemma_capture_is_remembered(config, events, finished, m, n);
    lemma_cooldown_stays(ListenerState::start(config), events.take(n), finished);
}

/// The time in milliseconds as the detector gets it, for every span that 64 bits
/// of milliseconds can hold.
pub proof fn law_times_are_handed_on_in_milliseconds(d: Duration)
    requires
        d.millis() <= u64::MAX,
    ensures
        low_millis(d) == d.millis(),
{
}

/// From the start, whatever the configuration and the times: Ctrl held and `C`
/// pressed, released and pressed again starts a capture exactly when the second
/// press comes at most the configured window behind the first. Which Ctrl key it
/// is, when `C` was released and other keys do not matter.
pub proof fn law_first_ctrl_c_c_goes_by_the_configured_window(
    config: Config,
    ctrl: Key,
    t: Duration,
    t0: Duration,
    up: Duration,
    t1: Duration,
)
    requires
        ctrl == Key::ControlLeft || ctrl == Key::ControlRight,
        config.double_tap_window.millis() <= u64::MAX,
        t0.millis() <= u64::MAX,
        t1.millis() <= u64::MAX,
    ensures
        ({
            let c = Key::KeyC;
            let held = ListenerState::start(config).after(KeyEvent::Press(ctrl), t);
            let first = held.after(KeyEvent::Press(c), t0);
            let ready = first.after(KeyEvent::Release(c), up);
            &&& !ListenerState::start(config).captures_on(KeyEvent::Press(ctrl), t)
            &&& !held.captures_on(KeyEvent::Press(c), t0)
            &&& !first.captures_on(KeyEvent::Release(c), up)
            &&& ready.captures_on(KeyEvent::Press(c), t1) <==> t1.millis() - t0.millis()
                <= config.double_tap_window.millis()
        }),
{
}

/// From any state, whatever was done before: once Ctrl is released and pressed
/// again, `C` pressed, released and pressed starts a capture exactly when the
/// presses are at most the window apart, no capture is in flight and the last one
/// was started at least the cooldown ago. A capture then is in flight, and its
/// cooldown counts from the second press; otherwise the throttle is as it was.
pub proof fn law_ctrl_c_c_works_from_any_state(
    s: ListenerState,
    ctrl: Key,
    t: Duration,
    t0: Duration,
    up: Duration,
    t1: Duration,
)
    requires
        ctrl == Key::ControlLeft || ctrl == Key::ControlRight,
        t0.millis() <= u64::MAX,
        t1.millis() <= u64::MAX,
    ensures
        ({
            let c = Key::KeyC;
            let held = s.after(KeyEvent::Release(ctrl), t).after(KeyEvent::Press(ctrl), t);
            let ready = held.after(KeyEvent::Press(c), t0).after(KeyEvent::Release(c), up);
            let free = !s.throttle.in_flight && (s.throttle.last matches Some(l) ==> t1@ >= l
                + s.throttle.cooldown || s.throttle.cooldown == 0);
            let end = ready.after(KeyEvent::Press(c), t1);
            &&& ready.throttle == s.throttle
            &&& ready.captures_on(KeyEvent::Press(c), t1) <==> t1.millis() - t0.millis()
                <= s.tap.window && free
            &&& ready.captures_on(KeyEvent::Press(c), t1) ==> end.throttle.in_flight
                && end.throttle.last == Some(t1@)
            &&& !ready.captures_on(KeyEvent::Press(c), t1) ==> end.throttle == s.throttle
        }),
{
}

/// The end of a capture lets the next one through once the cooldown is over, and
/// leaves the tap in progress alone.
pub proof fn law_end_of_a_capture_frees_the_listener(s: ListenerState)
    ensures
        s.after_capture().tap == s.tap,
        !s.after_capture().throttle.in_flight,
        s.after_capture().throttle.last == s.throttle.last,
        s.after_capture().throttle.cooldown == s.throttle.cooldown,
{
}

/// A listener starts with the window and the cooldown of its configuration, to the
/// millisecond and to the nanosecond, with no capture behind it.
pub proof fn law_listener_starts_as_configured(config: Config)
    ensures
        config.double_tap_window.millis() <= u64::MAX ==> ListenerState::start(config).tap.window
            == config.double_tap_window.millis(),
        ListenerState::start(config).throttle.cooldown == config.trigger_cooldown@,
        ListenerState::start(config).throttle.last is None,
        !ListenerState::start(config).throttle.in_flight,
        !ListenerState::start(config).tap.modifier,
{
}

/// The detector hears of every event of Ctrl and of `C`, at its time, and of nothing
/// else; Ctrl that is reported as held again leaves everything as it is.
pub proof fn law_detector_hears_of_ctrl_and_c(s: ListenerState, ctrl: Key, now: Duration)
    requires
        ctrl == Key::ControlLeft || ctrl == Key::ControlRight,
    ensures
        s.after(KeyEvent::Press(ctrl), now).tap == s.tap.with_modifier(true),
        s.after(KeyEvent::Release(ctrl), now).tap == s.tap.with_modifier(false),
        s.after(KeyEvent::Press(Key::KeyC), now).tap == s.tap.after_down(low_millis(now), false),
        s.after(KeyEvent::Release(Key::KeyC), now).tap == s.tap.after_up(),
        s.tap.modifier ==> s.after(KeyEvent::Press(ctrl), now) == s,
        s.after(KeyEvent::Press(ctrl), now).throttle == s.throttle,
        s.after(KeyEvent::Release(ctrl), now).throttle == s.throttle,
        s.after(KeyEvent::Release(Key::KeyC), now).throttle == s.throttle,
        s.captures_on(KeyEvent::Press(Key::KeyC), now) <==> s.tap.fires(low_millis(now), false)
            && s.throttle.admits(now@),
{
}

} // verus!
