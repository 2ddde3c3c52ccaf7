use copycopy::listener::{is_trigger_modifier, keys_status, Key, KeyEvent, KeyListener};
use copycopy::listener_macos::{next_step, on_tap_event, TapAction, TapEvent, TapStep, KEY_C};
use copycopy::throttle::Throttle;
use copycopy::{Config, Duration, Error, TriggerStatus};

fn ms(n: u64) -> Duration {
    Duration::from_millis(n)
}

fn tap(l: &mut KeyListener, at: u64) -> bool {
    let fired = l.on_event(KeyEvent::Press(Key::KeyC), ms(at));
    assert!(!l.on_event(KeyEvent::Release(Key::KeyC), ms(at)));
    fired
}

fn c_down(command: bool, autorepeat: i64) -> TapEvent {
    TapEvent::KeyDown {
        keycode: KEY_C,
        command,
        autorepeat,
    }
}

fn c_up(command: bool) -> TapEvent {
    TapEvent::KeyUp {
        keycode: KEY_C,
        command,
    }
}

#[test]
fn control_keys_are_the_trigger_modifier() {
    assert!(is_trigger_modifier(Key::ControlLeft));
    assert!(is_trigger_modifier(Key::ControlRight));
    assert!(!is_trigger_modifier(Key::KeyC));
    assert!(!is_trigger_modifier(Key::Other));
}

#[test]
fn ctrl_c_c_starts_one_capture() {
    let mut l = KeyListener::new(&Config::default());
    assert!(!l.on_event(KeyEvent::Press(Key::ControlLeft), ms(0)));
    assert!(!tap(&mut l, 10));
    assert!(!l.on_event(KeyEvent::Press(Key::Other), ms(15)));
    assert!(!l.on_event(KeyEvent::Other, ms(16)));
    assert!(tap(&mut l, 20));
    // A capture is in flight.
    assert!(!tap(&mut l, 1000));
    assert!(!tap(&mut l, 1010));
    l.capture_finished();
    assert!(!tap(&mut l, 1020));
    assert!(tap(&mut l, 1030));
}

#[test]
fn cooldown_counts_from_the_last_capture() {
    let mut l = KeyListener::new(&Config::default());
    l.on_event(KeyEvent::Press(Key::ControlRight), ms(0));
    assert!(!tap(&mut l, 0));
    assert!(tap(&mut l, 100));
    l.capture_finished();
    assert!(!tap(&mut l, 200));
    assert!(!tap(&mut l, 449)); // 349 ms after the capture
    assert!(!tap(&mut l, 450));
    assert!(tap(&mut l, 460));
}

#[test]
fn releasing_ctrl_forgets_the_tap() {
    let mut l = KeyListener::new(&Config::default());
    l.on_event(KeyEvent::Press(Key::ControlLeft), ms(0));
    assert!(!tap(&mut l, 0));
    l.on_event(KeyEvent::Release(Key::ControlLeft), ms(5));
    l.on_event(KeyEvent::Press(Key::ControlLeft), ms(6));
    assert!(!tap(&mut l, 10));
    assert!(tap(&mut l, 20));
}

#[test]
fn throttle_boundary_is_inclusive() {
    let mut t = Throttle::new(ms(350));
    assert!(t.fire_if_allowed(ms(1000)));
    assert!(!t.fire_if_allowed(ms(2000)));
    t.finish();
    assert!(!t.fire_if_allowed(Duration::new(1, 349_999_999)));
    assert!(t.fire_if_allowed(ms(1350)));
    t.finish();
    // An earlier moment counts as no time passed.
    assert!(!t.fire_if_allowed(ms(0)));
}

#[test]
fn command_c_c_starts_a_capture() {
    let mut l = KeyListener::new(&Config::default());
    assert_eq!(on_tap_event(&mut l, c_down(true, 0), ms(0)), TapAction::Ignore);
    assert_eq!(on_tap_event(&mut l, c_down(true, 1), ms(5)), TapAction::Ignore);
    assert_eq!(
        on_tap_event(&mut l, c_up(true), ms(10)),
        TapAction::Ignore
    );
    assert_eq!(on_tap_event(&mut l, c_down(true, 1), ms(15)), TapAction::Ignore);
    assert_eq!(
        on_tap_event(
            &mut l,
            TapEvent::KeyDown { keycode: 9, command: false, autorepeat: 0 },
            ms(16)
        ),
        TapAction::Ignore
    );
    assert_eq!(on_tap_event(&mut l, c_down(true, 0), ms(400)), TapAction::Capture);
}

#[test]
fn c_without_command_resets() {
    let mut l = KeyListener::new(&Config::default());
    on_tap_event(&mut l, c_down(true, 0), ms(0));
    on_tap_event(&mut l, c_up(true), ms(10));
    assert_eq!(on_tap_event(&mut l, c_down(false, 0), ms(20)), TapAction::Ignore);
    on_tap_event(&mut l, c_up(true), ms(30));
    assert_eq!(on_tap_event(&mut l, c_down(true, 0), ms(40)), TapAction::Ignore);
}

#[test]
fn a_release_without_command_resets() {
    let mut l = KeyListener::new(&Config::default());
    assert_eq!(on_tap_event(&mut l, c_down(true, 0), ms(0)), TapAction::Ignore);
    assert_eq!(on_tap_event(&mut l, c_up(false), ms(50)), TapAction::Ignore);
    assert_eq!(on_tap_event(&mut l, c_down(true, 0), ms(100)), TapAction::Ignore);
    on_tap_event(&mut l, c_up(true), ms(110));
    assert_eq!(on_tap_event(&mut l, c_down(true, 0), ms(120)), TapAction::Capture);
    // A release of another key changes nothing.
    let mut l = KeyListener::new(&Config::default());
    on_tap_event(&mut l, c_down(true, 0), ms(0));
    on_tap_event(&mut l, TapEvent::KeyUp { keycode: 9, command: false }, ms(10));
    on_tap_event(&mut l, c_up(true), ms(20));
    assert_eq!(on_tap_event(&mut l, c_down(true, 0), ms(30)), TapAction::Capture);
}

#[test]
fn a_disabled_tap_is_enabled_again() {
    let mut l = KeyListener::new(&Config::default());
    on_tap_event(&mut l, c_down(true, 0), ms(0));
    assert_eq!(
        on_tap_event(&mut l, TapEvent::DisabledByTimeout, ms(1)),
        TapAction::EnableTap
    );
    assert_eq!(
        on_tap_event(&mut l, TapEvent::DisabledByUserInput, ms(2)),
        TapAction::EnableTap
    );
    assert_eq!(on_tap_event(&mut l, TapEvent::Other, ms(3)), TapAction::Ignore);
    on_tap_event(&mut l, c_up(true), ms(4));
    assert_eq!(on_tap_event(&mut l, c_down(true, 0), ms(5)), TapAction::Capture);
}

#[test]
fn installing_the_tap_goes_step_by_step() {
    assert!(matches!(next_step(TapStep::CreateTap, true), Ok(TapStep::CreateSource)));
    assert!(matches!(next_step(TapStep::CreateSource, true), Ok(TapStep::GetRunLoop)));
    assert!(matches!(next_step(TapStep::GetRunLoop, true), Ok(TapStep::Attach)));
    assert!(matches!(next_step(TapStep::Attach, true), Ok(TapStep::Attach)));
}

#[test]
fn installing_the_tap_reports_what_failed() {
    let failures = [
        (
            TapStep::CreateTap,
            "could not create CGEventTap \u{2014} grant Input Monitoring to the host app (during \
             development, that is your terminal)",
        ),
        (TapStep::CreateSource, "could not create run loop source for the tap"),
        (TapStep::GetRunLoop, "could not get the current run loop"),
    ];
    for (step, expected) in failures {
        match next_step(step, false) {
            Err(Error::ListenerInit(message)) => assert_eq!(message, expected),
            other => panic!("{other:?}"),
        }
    }
}

#[test]
fn many_quick_taps_keep_the_cooldown() {
    let mut l = KeyListener::new(&Config::default());
    l.on_event(KeyEvent::Press(Key::ControlLeft), ms(0));
    let mut captures = Vec::new();
    for at in (0..2000).step_by(50) {
        if tap(&mut l, at) {
            captures.push(at);
            l.capture_finished();
        }
    }
    assert_eq!(captures, [50, 450, 850, 1250, 1650]);
}

#[test]
fn single_presses_never_capture() {
    let mut l = KeyListener::new(&Config::default());
    for at in [0, 1000, 2000, 3000] {
        assert!(!l.on_event(KeyEvent::Press(Key::ControlLeft), ms(at)));
        assert!(!tap(&mut l, at + 10));
        assert!(!l.on_event(KeyEvent::Release(Key::ControlLeft), ms(at + 20)));
        assert_eq!(on_tap_event(&mut l, c_down(true, 0), ms(at + 500)), TapAction::Ignore);
        assert_eq!(on_tap_event(&mut l, c_down(false, 0), ms(at + 510)), TapAction::Ignore);
    }
}

#[test]
fn a_failed_key_listener_is_reported() {
    assert_eq!(keys_status(&Ok(())), None);
    assert_eq!(
        keys_status(&Err("no display".into())),
        Some(TriggerStatus::Failed {
            message: "rdev::listen failed: no display".into()
        })
    );
}
