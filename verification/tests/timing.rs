use concord::timing::AnimationTimer;
use concord::timing::FrameTimer;
use concord::timing::TickGate;

#[test]
fn gate_fires_once_a_full_period_has_passed() {
    let mut gate = TickGate::new(17);
    assert!(!gate.tick(10));
    assert_eq!(gate.elapsed_ms, 10);
    assert!(gate.tick(10));
    assert_eq!(gate.elapsed_ms, 3);
}

#[test]
fn gate_keeps_only_the_remainder_of_long_ticks() {
    let mut gate = TickGate::new(17);
    assert!(gate.tick(40));
    assert_eq!(gate.elapsed_ms, 40 % 17);
}

#[test]
fn gate_fires_exactly_on_the_period() {
    let mut gate = TickGate::new(17);
    assert!(gate.tick(17));
    assert_eq!(gate.elapsed_ms, 0);
}

#[test]
fn default_timers_use_the_standard_cadences() {
    let frame = FrameTimer::default();
    assert_eq!((frame.0.period_ms, frame.0.elapsed_ms), (17, 0));
    let animation = AnimationTimer::default();
    assert_eq!((animation.0.period_ms, animation.0.elapsed_ms), (190, 0));
}
