//! What stands between a detected gesture and a capture: a cooldown after each
//! capture, and never two captures at a time.

use crate::time::Duration;
use vstd::prelude::*;

verus! {

/// What a [`Throttle`] knows, its times in nanoseconds.
pub ghost struct ThrottleState {
    pub cooldown: nat,
    pub last: Option<nat>,
    pub in_flight: bool,
}

/// One thing that happens at a [`Throttle`].
pub ghost enum ThrottleStep {
    Trigger { now: nat },
    Finished,
}

/// The time from `t` to `now`, none where `now` is earlier.
pub open spec fn elapsed(t: nat, now: nat) -> nat {
    if now >= t {
        (now - t) as nat
    } else {
        0
    }
}

impl ThrottleState {
    /// The state of a throttle that has let nothing through.
    pub open spec fn start(cooldown: nat) -> ThrottleState {
        ThrottleState { cooldown, last: None, in_flight: false }
    }

    /// The cooldown after the last capture is over at `now`.
    pub open spec fn cooled(self, now: nat) -> bool {
        self.last matches Some(t) ==> elapsed(t, now) >= self.cooldown
    }

    /// A trigger at `now` starts a capture.
    pub open spec fn admits(self, now: nat) -> bool {
        self.cooled(now) && !self.in_flight
    }

    /// The state after a trigger at `now`.
    pub open spec fn after_trigger(self, now: nat) -> ThrottleState {
        if self.admits(now) {
            ThrottleState { last: Some(now), in_flight: true, ..self }
        } else {
            self
        }
    }

    /// The state once the capture is over.
    pub open spec fn after_finish(self) -> ThrottleState {
        ThrottleState { in_flight: false, ..self }
    }

    /// The state after a step.
    pub open spec fn after(self, step: ThrottleStep) -> ThrottleState {
        match step {
            ThrottleStep::Trigger { now } => self.after_trigger(now),
            ThrottleStep::Finished => self.after_finish(),
        }
    }

    /// The state after a sequence of steps.
    pub open spec fn after_all(self, steps: Seq<ThrottleStep>) -> ThrottleState
        decreases steps.len(),
    {
        if steps.len() == 0 {
            self
        } else {
            self.after_all(steps.drop_last()).after(steps.last())
        }
    }

    /// The step at position `n` starts a capture.
    pub open spec fn starts_at(self, steps: Seq<ThrottleStep>, n: int) -> bool {
        &&& 0 <= n < steps.len()
        &&& steps[n] matches ThrottleStep::Trigger { now } && self.after_all(steps.take(n)).admits(now)
    }
}

/// Cooldown and single-in-flight check.
pub struct Throttle {
    cooldown: Duration,
    last_trigger: Option<Duration>,
    in_flight: bool,
}

impl View for Throttle {
    type V = ThrottleState;

    closed spec fn view(&self) -> ThrottleState {
        ThrottleState {
            cooldown: self.cooldown@,
            last: match self.last_trigger {
                Some(t) => Some(t@),
                None => None,
            },
            in_flight: self.in_flight,
        }
    }
}

impl Throttle {
    /// A throttle that has let nothing through.
    pub fn new(cooldown: Duration) -> (r: Throttle)
        ensures
            r@ == ThrottleState::start(cooldown@),
    {
        Throttle { cooldown, last_trigger: None, in_flight: false }
    }

    /// Whether a trigger at `now` starts a capture. Where it does, the capture
    /// is in flight until [`Throttle::finish`], and the cooldown counts
    /// from `now`; where it does not, nothing changes.
    pub fn fire_if_allowed(&mut self, now: Duration) -> (r: bool)
        ensures
            r == old(self)@.admits(now@),
            final(self)@ == old(self)@.after_trigger(now@),
    {
        let cooled: bool = match self.last_trigger {
            Some(t) => now.as_nanos().saturating_sub(t.as_nanos()) >= self.cooldown.as_nanos(),
            None => true,
        };
        if !cooled || self.in_flight {
            return false;
        }
        self.in_flight = true;
        self.last_trigger = Some(now);
        true
    }

    /// The capture in flight is over.
    pub fn finish(&mut self)
        ensures
            final(self)@ == old(self)@.after_finish(),
    {
        self.in_flight = false;
    }
}

/// `m` is the last of `steps` that started a capture, at time `t`.
pub open spec fn last_start(cooldown: nat, steps: Seq<ThrottleStep>, m: int, t: nat) -> bool {
    &&& ThrottleState::start(cooldown).starts_at(steps, m)
    &&& steps[m] == (ThrottleStep::Trigger { now: t })
    &&& forall|k: int|
        m < k < steps.len() ==> !(#[trigger] ThrottleState::start(cooldown).starts_at(steps, k))
}

/// A capture finished after position `m`.
pub open spec fn finished_after(steps: Seq<ThrottleStep>, m: int) -> bool {
    exists|k: int| m < k < steps.len() && #[trigger] steps[k] == ThrottleStep::Finished
}

/// No step started a capture.
pub open spec fn nothing_started(cooldown: nat, steps: Seq<ThrottleStep>) -> bool {
    forall|k: int|
        0 <= k < steps.len() ==> !(#[trigger] ThrottleState::start(cooldown).starts_at(steps, k))
}

proof fn lemma_throttle_history(cooldown: nat, steps: Seq<ThrottleStep>) -> (m: int)
    ensures
        ({
            let s = ThrottleState::start(cooldown).after_all(steps);
            &&& s.cooldown == cooldown
            &&& s.last matches Some(t) ==> last_start(cooldown, steps, m, t) && (s.in_flight
                || finished_after(steps, m))
            &&& s.last is None ==> !s.in_flight && nothing_started(cooldown, steps)
        }),
    decreases steps.len(),
{
    if steps.len() > 0 {
        let start = ThrottleState::start(cooldown);
        let before = steps.drop_last();
        let n = before.len() as int;
        let m = lemma_throttle_history(cooldown, before);
        let s = start.after_all(before);
        assert(steps.take(n) =~= before);
        assert forall|k: int| 0 <= k < n implies start.starts_at(before, k) == start.starts_at(
            steps,
            k,
        ) by {
            assert(steps.take(k) =~= before.take(k));
        }
        if start.starts_at(steps, n) {
            assert(last_start(cooldown, steps, n, steps[n]->now));
            n
        } else if s.last is Some {
            assert forall|k: int| m < k < steps.len() implies !(#[trigger] start.starts_at(
                steps,
                k,
            )) by {
                if k < n {
                    assert(!start.starts_at(before, k));
                }
            }
            assert(last_start(cooldown, steps, m, s.last->0));
            if !s.in_flight {
                let k = choose|k: int|
                    m < k < before.len() && #[trigger] before[k] == ThrottleStep::Finished;
                assert(steps[k] == ThrottleStep::Finished);
            } else if steps[n] is Finished {
                assert(steps[n] == ThrottleStep::Finished);
            }
            m
        } else {
            assert forall|k: int| 0 <= k < steps.len() implies !(#[trigger] start.starts_at(
                steps,
                k,
            )) by {
                if k < n {
                    assert(!start.starts_at(before, k));
                }
            }
            m
        }
    } else {
        0
    }
}

/// Between two captures in a row the first has finished, and at least the
/// cooldown has passed.
pub proof fn law_captures_are_apart(cooldown: nat, steps: Seq<ThrottleStep>, m: int, n: int)
    requires
        ThrottleState::start(cooldown).starts_at(steps, m),
        ThrottleState::start(cooldown).starts_at(steps, n),
        m < n,
        forall|k: int|
            m < k < n ==> !(#[trigger] ThrottleState::start(cooldown).starts_at(steps, k)),
    ensures
        elapsed(steps[m]->now, steps[n]->now) >= cooldown,
        finished_after(steps.take(n), m),
{
    let start = ThrottleState::start(cooldown);
    let before = steps.take(n);
    let i = lemma_throttle_history(cooldown, before);
    assert forall|k: int| 0 <= k < n implies start.starts_at(before, k) == start.starts_at(
        steps,
        k,
    ) by {
        assert(steps.take(k) =~= before.take(k));
    }
    assert(start.starts_at(before, m));
    if i < m {
        assert(!start.starts_at(before, m));
    }
    if i > m {
        assert(start.starts_at(before, i));
        assert(!start.starts_at(steps, i));
    }
}

/// A trigger starts a capture once the last one has finished and the cooldown
/// is over; the first trigger always does.
pub proof fn law_throttle_opens_again(s: ThrottleState, t: nat, now: nat)
    requires
        s.admits(t),
        now >= t + s.cooldown,
    ensures
        s.after_trigger(t).after_finish().admits(now),
        ThrottleState::start(s.cooldown).admits(now),
{
}

/// A trigger is let through exactly when no capture is in flight and none was let
/// through less than the cooldown ago, whatever the time. One that is let through
/// is in flight and counts from then on; one that is not changes nothing; and the
/// end of a capture changes nothing but that it is over.
pub proof fn law_throttle_admits_exactly(s: ThrottleState, now: nat)
    ensures
        s.in_flight ==> !s.admits(now),
        !s.in_flight && s.last is None ==> s.admits(now),
        !s.in_flight && s.last is Some && now >= s.last->0 ==> (s.admits(now) <==> now - s.last->0
            >= s.cooldown),
        !s.in_flight && s.last is Some && now < s.last->0 ==> (s.admits(now) <==> s.cooldown == 0),
        s.admits(now) ==> s.after_trigger(now) == (ThrottleState {
            cooldown: s.cooldown,
            last: Some(now),
            in_flight: true,
        }),
        !s.admits(now) ==> s.after_trigger(now) == s,
        s.after_finish() == (ThrottleState {
            cooldown: s.cooldown,
            last: s.last,
            in_flight: false,
        }),
        ThrottleState::start(s.cooldown) == (ThrottleState {
            cooldown: s.cooldown,
            last: None,
            in_flight: false,
        }),
{
}

} // verus!
