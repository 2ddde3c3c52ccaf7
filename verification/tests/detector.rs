use copycopy::detector::DoubleTap;

const W: u64 = 400;

fn armed() -> DoubleTap {
    let mut d = DoubleTap::new(W);
    d.set_modifier(true);
    d
}

#[test]
fn double_tap_within_window_triggers() {
    let mut d = armed();
    assert!(!d.on_c_down(0, false));
    d.on_c_up();
    assert!(d.on_c_down(100, false));
}

#[test]
fn single_tap_does_not_trigger() {
    let mut d = armed();
    assert!(!d.on_c_down(0, false));
    d.on_c_up();
}

#[test]
fn repeated_down_without_release_does_not_trigger() {
    let mut d = armed();
    assert!(!d.on_c_down(0, false));
    assert!(!d.on_c_down(10, false));
    assert!(!d.on_c_down(20, false));
}

#[test]
fn autorepeat_flag_is_ignored() {
    let mut d = armed();
    assert!(!d.on_c_down(0, false));
    d.on_c_up();
    assert!(!d.on_c_down(50, true));
}

#[test]
fn second_tap_too_slow_does_not_trigger_but_rearms() {
    let mut d = armed();
    assert!(!d.on_c_down(0, false));
    d.on_c_up();
    assert!(!d.on_c_down(500, false));
    d.on_c_up();
    assert!(d.on_c_down(600, false));
}

#[test]
fn plain_c_without_modifier_does_not_trigger() {
    let mut d = DoubleTap::new(W);
    assert!(!d.on_c_down(0, false));
    d.on_c_up();
    assert!(!d.on_c_down(50, false));
}

#[test]
fn releasing_modifier_resets_the_sequence() {
    let mut d = armed();
    assert!(!d.on_c_down(0, false));
    d.on_c_up();
    d.set_modifier(false);
    d.set_modifier(true);
    assert!(!d.on_c_down(50, false));
}

#[test]
fn window_boundary_is_inclusive() {
    let mut d = armed();
    assert!(!d.on_c_down(0, false));
    d.on_c_up();
    assert!(d.on_c_down(W, false));
}

#[test]
fn just_outside_window_does_not_trigger() {
    let mut d = armed();
    assert!(!d.on_c_down(0, false));
    d.on_c_up();
    assert!(!d.on_c_down(W + 1, false));
}

#[test]
fn triggers_again_after_a_trigger() {
    let mut d = armed();
    assert!(!d.on_c_down(0, false));
    d.on_c_up();
    assert!(d.on_c_down(100, false));
    assert!(!d.on_c_down(200, false));
    d.on_c_up();
    assert!(d.on_c_down(250, false));
}

#[test]
fn key_repeats_and_reports_of_the_held_modifier_keep_the_tap() {
    let mut d = armed();
    assert!(!d.on_c_down(0, false));
    assert!(!d.on_c_down(30, true));
    d.set_modifier(true);
    d.on_c_up();
    assert!(!d.on_c_down(60, true));
    d.set_modifier(true);
    d.on_c_up();
    assert!(d.on_c_down(399, false));
}

#[test]
fn a_third_press_does_not_fire_with_the_second() {
    let mut d = armed();
    assert!(!d.on_c_down(0, false));
    d.on_c_up();
    assert!(d.on_c_down(100, false));
    d.on_c_up();
    assert!(!d.on_c_down(150, false));
}

#[test]
fn a_clock_that_steps_back_counts_as_no_time() {
    let mut d = armed();
    assert!(!d.on_c_down(1000, false));
    d.on_c_up();
    assert!(d.on_c_down(10, false));
}

#[test]
fn a_press_without_the_modifier_forgets_the_tap() {
    let mut d = armed();
    assert!(!d.on_c_down(0, false));
    d.on_c_up();
    d.set_modifier(false);
    assert!(!d.on_c_down(20, false));
    d.on_c_up();
    d.set_modifier(true);
    assert!(!d.on_c_down(40, false));
    d.on_c_up();
    assert!(d.on_c_down(60, false));
}
