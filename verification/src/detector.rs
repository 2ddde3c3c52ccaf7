//! OS-independent "modifier held + C tapped twice quickly" detector.
//! Pure logic: the time is handed in as monotonic milliseconds.

use vstd::prelude::*;

verus! {

/// How far a double tap has come.
#[derive(Debug, Clone, Copy, PartialEq, Eq, Structural)]
pub enum Phase {
    /// No tap has begun.
    Idle,
    /// The first `C` is down since `at` and not yet released. Key-downs that the
    /// OS repeats leave the detector here, which tells them from a second tap.
    FirstDown { at: u64 },
    /// The first `C` went down at `at` and has been released.
    FirstReleased { at: u64 },
}

/// What a [`DoubleTap`] knows.
pub ghost struct TapState {
    pub window: u64,
    pub modifier: bool,
    pub phase: Phase,
}

/// One thing that a keyboard tells a [`DoubleTap`].
pub ghost enum Stroke {
    Modifier { down: bool },
    Down { now: u64, autorepeat: bool },
    Up,
}

impl TapState {
    /// The state of a detector that has seen nothing.
    pub open spec fn start(window: u64) -> TapState {
        TapState { window, modifier: false, phase: Phase::Idle }
    }

    /// Without the modifier no tap is in progress.
    pub open spec fn wf(self) -> bool {
        self.modifier || self.phase is Idle
    }

    /// The state once the modifier is `down` or up. A release forgets the tap.
    pub open spec fn with_modifier(self, down: bool) -> TapState {
        TapState {
            modifier: down,
            phase: if down { self.phase } else { Phase::Idle },
            ..self
        }
    }

    /// A key-down of `C` completes a double tap: the modifier is held, the key
    /// is not a repeat, and a first tap went down at most `window` ago and came up.
    pub open spec fn fires(self, now: u64, autorepeat: bool) -> bool {
        &&& self.modifier
        &&& !autorepeat
        &&& self.phase matches Phase::FirstReleased { at } && now - at <= self.window
    }

    /// The state after a key-down of `C`.
    pub open spec fn after_down(self, now: u64, autorepeat: bool) -> TapState {
        if !self.modifier {
            TapState { phase: Phase::Idle, ..self }
        } else if autorepeat || self.phase is FirstDown {
            self
        } else if self.fires(now, autorepeat) {
            TapState { phase: Phase::Idle, ..self }
        } else {
            TapState { phase: Phase::FirstDown { at: now }, ..self }
        }
    }

    /// The state after a key-up of `C`.
    pub open spec fn after_up(self) -> TapState {
        match self.phase {
            Phase::FirstDown { at } => TapState { phase: Phase::FirstReleased { at }, ..self },
            _ => self,
        }
    }

    /// The state after a stroke.
    pub open spec fn after(self, stroke: Stroke) -> TapState {
        match stroke {
            Stroke::Modifier { down } => self.with_modifier(down),
            Stroke::Down { now, autorepeat } => self.after_down(now, autorepeat),
            Stroke::Up => self.after_up(),
        }
    }

    /// The state after a sequence of strokes.
    pub open spec fn after_all(self, strokes: Seq<Stroke>) -> TapState
        decreases strokes.len(),
    {
        if strokes.len() == 0 {
            self
        } else {
            self.after_all(strokes.drop_last()).after(strokes.last())
        }
    }

    /// The stroke at position `n` completes a double tap.
    pub open spec fn fires_at(self, strokes: Seq<Stroke>, n: int) -> bool {
        &&& 0 <= n < strokes.len()
        &&& strokes[n] matches Stroke::Down { now, autorepeat } && self.after_all(
            strokes.take(n),
        ).fires(now, autorepeat)
    }
}

/// Detects `Press -> Release -> Press` of `C` within a window of milliseconds,
/// while the trigger modifier is held.
pub struct DoubleTap {
    window_ms: u64,
    modifier_down: bool,
    phase: Phase,
}

impl View for DoubleTap {
    type V = TapState;

    closed spec fn view(&self) -> TapState {
        TapState { window: self.window_ms, modifier: self.modifier_down, phase: self.phase }
    }
}

impl DoubleTap {
    /// A detector that has seen nothing, with a window of `window_ms` milliseconds.
    pub fn new(window_ms: u64) -> (r: DoubleTap)
        ensures
            r@ == TapState::start(window_ms),
    {
        DoubleTap { window_ms, modifier_down: false, phase: Phase::Idle }
    }

    fn reset(&mut self)
        ensures
            final(self)@ == (TapState { phase: Phase::Idle, ..old(self)@ }),
    {
        self.phase = Phase::Idle;
    }

    /// Update whether the trigger modifier is held. Releasing it resets the
    /// in-progress sequence. Windows/Linux call this from Ctrl key events;
    /// macOS calls it per `C` event from the event's Command flag.
    pub fn set_modifier(&mut self, down: bool)
        ensures
            final(self)@ == old(self)@.with_modifier(down),
    {
        self.modifier_down = down;
        if !down {
            self.reset();
        }
    }

    /// Feed a `C` key-down. Returns `true` exactly when a double-tap fires.
    pub fn on_c_down(&mut self, now_ms: u64, autorepeat: bool) -> (r: bool)
        ensures
            r == old(self)@.fires(now_ms, autorepeat),
            final(self)@ == old(self)@.after_down(now_ms, autorepeat),
    {
        if !self.modifier_down {
            self.reset();
            return false;
        }
        if autorepeat {
            return false;
        }
        match self.phase {
            Phase::Idle => {
                self.phase = Phase::FirstDown { at: now_ms };
                false
            },
            // A press without a release is a repeat.
            Phase::FirstDown { at } => false,
            Phase::FirstReleased { at } => {
                if now_ms.saturating_sub(at) <= self.window_ms {
                    self.reset();
                    true
                } else {
                    self.phase = Phase::FirstDown { at: now_ms };
                    false
                }
            },
        }
    }

    /// Feed a `C` key-up.
    pub fn on_c_up(&mut self)
        ensures
            final(self)@ == old(self)@.after_up(),
    {
        if let Phase::FirstDown { at } = self.phase {
            self.phase = Phase::FirstReleased { at };
        }
    }
}

/// In `strokes`, a press of `C` at position `i` and time `at` began a tap: it
/// was no repeat, the modifier was held and not released since, and no double
/// tap has fired from there on.
pub open spec fn tap_begun(window: u64, strokes: Seq<Stroke>, i: int, at: u64) -> bool {
    &&& 0 <= i < strokes.len()
    &&& strokes[i] == Stroke::Down { now: at, autorepeat: false }
    &&& TapState::start(window).after_all(strokes.take(i)).modifier
    &&& forall|k: int|
        i < k < strokes.len() ==> #[trigger] strokes[k] != (Stroke::Modifier { down: false })
    &&& forall|k: int|
        i <= k < strokes.len() ==> !(#[trigger] TapState::start(window).fires_at(strokes, k))
}

/// A tap at `i` that came up again at `j`.
pub open spec fn tap_done(window: u64, strokes: Seq<Stroke>, i: int, j: int, at: u64) -> bool {
    &&& tap_begun(window, strokes, i, at)
    &&& i < j < strokes.len()
    &&& strokes[j] == Stroke::Up
}

/// What a detector has seen when it says that a tap is in progress.
proof fn lemma_phase_history(window: u64, strokes: Seq<Stroke>)
    ensures
        ({
            let s = TapState::start(window).after_all(strokes);
            &&& s.wf()
            &&& s.window == window
            &&& s.phase matches Phase::FirstDown { at } ==> exists|i: int|
                tap_begun(window, strokes, i, at)
            &&& s.phase matches Phase::FirstReleased { at } ==> exists|i: int, j: int|
                tap_done(window, strokes, i, j, at)
        }),
    decreases strokes.len(),
{
    if strokes.len() > 0 {
        let start = TapState::start(window);
        let before = strokes.drop_last();
        let n = before.len() as int;
        lemma_phase_history(window, before);
        let s = start.after_all(before);
        let next = start.after_all(strokes);
        assert(next == s.after(strokes[n]));
        assert(strokes.take(n) =~= before);
        assert forall|k: int| 0 <= k < n implies start.fires_at(before, k) == start.fires_at(
            strokes,
            k,
        ) by {
            assert(strokes.take(k) =~= before.take(k));
        }
        assert forall|i: int, at: u64|
            tap_begun(window, before, i, at) && !start.fires_at(strokes, n) && strokes[n] != (
            Stroke::Modifier { down: false }) implies tap_begun(window, strokes, i, at) by {
            assert(strokes.take(i) =~= before.take(i));
            assert forall|k: int| i < k < strokes.len() implies #[trigger] strokes[k] != (
            Stroke::Modifier { down: false }) by {
                if k < n {
                    assert(before[k] == strokes[k]);
                }
            }
            assert forall|k: int| i <= k < strokes.len() implies !(#[trigger] start.fires_at(
                strokes,
                k,
            )) by {
                if k < n {
                    assert(!start.fires_at(before, k));
                }
            }
        }
        match next.phase {
            Phase::Idle => {},
            Phase::FirstDown { at } => {
                if s.phase == next.phase {
                    let i = choose|i: int| tap_begun(window, before, i, at);
                    assert(tap_begun(window, strokes, i, at));
                } else {
                    assert(strokes[n] == (Stroke::Down { now: at, autorepeat: false }));
                    assert(tap_begun(window, strokes, n, at));
                }
            },
            Phase::FirstReleased { at } => {
                if s.phase == next.phase {
                    let (i, j) = choose|i: int, j: int| tap_done(window, before, i, j, at);
                    assert(tap_begun(window, strokes, i, at));
                    assert(strokes[j] == before[j]);
                    assert(tap_done(window, strokes, i, j, at));
                } else {
                    let i = choose|i: int| tap_begun(window, before, i, at);
                    assert(tap_begun(window, strokes, i, at));
                    assert(tap_done(window, strokes, i, n, at));
                }
            },
        }
    }
}

/// Whatever the keyboard does, no tap is in progress without the modifier, and
/// the window stays the one that the detector was made with.
pub proof fn law_no_tap_without_modifier(window: u64, strokes: Seq<Stroke>)
    ensures
        TapState::start(window).after_all(strokes).wf(),
        TapState::start(window).after_all(strokes).window == window,
{
    lemma_phase_history(window, strokes);
}

/// A double tap fires only on a press that no key repeat made, after a press
/// and a release of `C`, with the modifier held from the first press on and at
/// most the window between the presses. No double tap fired in between: each
/// takes two presses of its own.
pub proof fn law_fires_only_on_press_release_press(window: u64, strokes: Seq<Stroke>, n: int)
    requires
        TapState::start(window).fires_at(strokes, n),
    ensures
        strokes[n] matches Stroke::Down { now, autorepeat } && !autorepeat && TapState::start(
            window,
        ).after_all(strokes.take(n)).modifier && exists|i: int, j: int, at: u64|
            tap_done(window, strokes.take(n), i, j, at) && now - at <= window,
{
    lemma_phase_history(window, strokes.take(n));
    let s = TapState::start(window).after_all(strokes.take(n));
    let at = s.phase->FirstReleased_at;
    let (i, j) = choose|i: int, j: int| tap_done(window, strokes.take(n), i, j, at);
    assert(tap_done(window, strokes.take(n), i, j, at));
}

/// A single press never fires: where no stroke before `n` is a press of `C`
/// other than a key repeat, nothing fires at `n`.
pub proof fn law_single_press_never_fires(window: u64, strokes: Seq<Stroke>, n: int)
    requires
        0 <= n < strokes.len(),
        forall|i: int|
            0 <= i < n ==> (#[trigger] strokes[i] matches Stroke::Down { now, autorepeat }
                ==> autorepeat),
    ensures
        !TapState::start(window).fires_at(strokes, n),
{
    if TapState::start(window).fires_at(strokes, n) {
        law_fires_only_on_press_release_press(window, strokes, n);
        let now = strokes[n]->now;
        let (i, j, at) = choose|i: int, j: int, at: u64|
            tap_done(window, strokes.take(n), i, j, at) && now - at <= window;
        assert(strokes.take(n)[i] == strokes[i]);
    }
}

/// Presses without a release in between never fire: where no stroke before `n`
/// is a key-up of `C`, nothing fires at `n`.
pub proof fn law_press_without_release_never_fires(window: u64, strokes: Seq<Stroke>, n: int)
    requires
        0 <= n < strokes.len(),
        forall|i: int| 0 <= i < n ==> #[trigger] strokes[i] != Stroke::Up,
    ensures
        !TapState::start(window).fires_at(strokes, n),
{
    if TapState::start(window).fires_at(strokes, n) {
        law_fires_only_on_press_release_press(window, strokes, n);
        let now = strokes[n]->now;
        let (i, j, at) = choose|i: int, j: int, at: u64|
            tap_done(window, strokes.take(n), i, j, at) && now - at <= window;
        assert(strokes.take(n)[j] == strokes[j]);
    }
}

/// A key repeat never fires and, with the modifier held, changes nothing.
pub proof fn law_key_repeat_is_ignored(s: TapState, now: u64)
    ensures
        !s.fires(now, true),
        s.modifier ==> s.after_down(now, true) == s,
        s.wf() ==> s.after_down(now, true) == s,
{
}

/// Releasing the modifier forgets everything: the detector is as one that has
/// seen nothing.
pub proof fn law_modifier_release_resets(s: TapState)
    ensures
        s.with_modifier(false) == TapState::start(s.window),
{
}

/// Strokes between the first press and its release that leave the tap alone:
/// the modifier reported as held, and key-downs.
pub open spec fn keeps_first_down(stroke: Stroke) -> bool {
    stroke is Down || stroke == (Stroke::Modifier { down: true })
}

/// Strokes between the first release and the second press that leave the tap
/// alone: the modifier reported as held, key repeats and key-ups.
pub open spec fn keeps_first_released(stroke: Stroke) -> bool {
    ||| stroke == (Stroke::Modifier { down: true })
    ||| stroke is Up
    ||| stroke matches Stroke::Down { now, autorepeat } && autorepeat
}

proof fn lemma_first_down_kept(s: TapState, strokes: Seq<Stroke>)
    requires
        s.modifier,
        s.phase is FirstDown,
        forall|k: int| 0 <= k < strokes.len() ==> keeps_first_down(#[trigger] strokes[k]),
    ensures
        s.after_all(strokes) == s,
    decreases strokes.len(),
{
    if strokes.len() > 0 {
        let before = strokes.drop_last();
        assert(keeps_first_down(strokes[strokes.len() - 1]));
        assert forall|k: int| 0 <= k < before.len() implies keeps_first_down(
            #[trigger] before[k],
        ) by {
            assert(before[k] == strokes[k]);
        }
        lemma_first_down_kept(s, before);
    }
}

proof fn lemma_first_released_kept(s: TapState, strokes: Seq<Stroke>)
    requires
        s.modifier,
        s.phase is FirstReleased,
        forall|k: int| 0 <= k < strokes.len() ==> keeps_first_released(#[trigger] strokes[k]),
    ensures
        s.after_all(strokes) == s,
    decreases strokes.len(),
{
    if strokes.len() > 0 {
        let before = strokes.drop_last();
        assert(keeps_first_released(strokes[strokes.len() - 1]));
        assert forall|k: int| 0 <= k < before.len() implies keeps_first_released(
            #[trigger] before[k],
        ) by {
            assert(before[k] == strokes[k]);
        }
        lemma_first_released_kept(s, before);
    }
}

/// With the modifier held, a press at `t0` that begins a tap, its release and a
/// press at `t1` fire exactly when `t1` is at most the window after `t0`, the
/// window itself counted in. Key repeats and reports of the held modifier on
/// the way change nothing. Once fired the detector is idle; otherwise the
/// press at `t1` begins the next tap.
pub proof fn law_double_tap_fires_within_window(
    s: TapState,
    t0: u64,
    held: Seq<Stroke>,
    between: Seq<Stroke>,
    t1: u64,
)
    requires
        s.modifier,
        s.phase is Idle,
        forall|k: int| 0 <= k < held.len() ==> keeps_first_down(#[trigger] held[k]),
        forall|k: int| 0 <= k < between.len() ==> keeps_first_released(#[trigger] between[k]),
    ensures
        ({
            let down = s.after_down(t0, false).after_all(held);
            let up = down.after_up().after_all(between);
            &&& !s.fires(t0, false)
            &&& up.fires(t1, false) <==> t1 - t0 <= s.window
            &&& up.after_down(t1, false) == if t1 - t0 <= s.window {
                s
            } else {
                s.after_down(t1, false)
            }
        }),
{
    let down = s.after_down(t0, false);
    lemma_first_down_kept(down, held);
    lemma_first_released_kept(down.after_up(), between);
}

/// A detector starts without the modifier and without a tap. Holding the modifier
/// is remembered and leaves a tap in progress alone, and nothing else that the
/// keyboard does tells whether it is held.
pub proof fn law_modifier_is_what_was_last_reported(
    window: u64,
    s: TapState,
    down: bool,
    now: u64,
    autorepeat: bool,
)
    ensures
        !TapState::start(window).modifier,
        TapState::start(window).phase is Idle,
        TapState::start(window).window == window,
        s.with_modifier(down).modifier == down,
        s.with_modifier(true).phase == s.phase,
        s.with_modifier(down).window == s.window,
        s.after_down(now, autorepeat).modifier == s.modifier,
        s.after_down(now, autorepeat).window == s.window,
        s.after_up().modifier == s.modifier,
        s.after_up().window == s.window,
{
}

/// A later start of the clock changes nothing: presses that come as far apart fire
/// alike, at whatever time they come.
pub proof fn law_only_the_time_between_presses_counts(
    s: TapState,
    t0: u64,
    t1: u64,
    later: u64,
)
    requires
        s.modifier,
        s.phase is Idle,
        t0 + later <= u64::MAX,
        t1 + later <= u64::MAX,
    ensures
        s.after_down(t0, false).after_up().fires(t1, false) == s.after_down(
            (t0 + later) as u64,
            false,
        ).after_up().fires((t1 + later) as u64, false),
{
}

} // verus!
