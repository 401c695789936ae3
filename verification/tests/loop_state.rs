use face_redact::config::Config;
use face_redact::control::{ControlLoop, Phase};
use face_redact::timer::FrameTimer;

#[test]
fn capture_miss_mutates_nothing() {
    let mut m = ControlLoop::new(Config::standard());
    m.begin_iteration();
    let timer_before = m.timer;
    let cfg_before = m.cfg;
    m.on_capture(false, 123_456);
    assert_eq!(m.phase, Phase::Capturing);
    assert_eq!(m.timer, timer_before);
    assert_eq!(m.cfg, cfg_before);
    // the loop simply polls again
    m.on_capture(true, 200_000);
    assert_eq!(m.phase, Phase::Detecting);
}

#[test]
fn one_iteration_measures_detection_only_and_resets() {
    let mut m = ControlLoop::new(Config::standard());
    assert_eq!(m.phase, Phase::Idle);
    m.begin_iteration();
    m.on_capture(true, 1_000);
    assert!(m.timer.running);
    m.on_detected(501_000);
    assert_eq!(m.phase, Phase::Redacting);
    assert_eq!(m.timer.accumulated_ns, 500_000);
    assert_eq!(m.timer.ticks, 1);
    // 1 tick in 500 microseconds: 2000 frames per second, in thousandths
    assert_eq!(m.overlay_fps_milli(), 2_000_000);
    m.on_redacted();
    assert_eq!(m.phase, Phase::Presenting);
    m.on_presented();
    assert_eq!(m.phase, Phase::Idle);
    assert_eq!(m.timer, FrameTimer { running: false, started_at_ns: 0, accumulated_ns: 0, ticks: 0 });
}

#[test]
fn only_the_quit_key_terminates() {
    let mut m = ControlLoop::new(Config::standard());
    assert!(!m.poll_quit(32));
    assert_eq!(m.phase, Phase::Idle);
    assert!(!m.is_terminated());
    assert!(m.poll_quit(113));
    assert_eq!(m.phase, Phase::Terminated);
    assert!(m.is_terminated());
}

#[test]
fn fps_is_ticks_per_second_in_thousandths() {
    let mut t = FrameTimer::new();
    assert_eq!(t.fps_milli(), 0);
    t.start(0);
    t.stop(500_000_000);
    assert_eq!(t.accumulated_ns, 500_000_000);
    // one frame in half a second: 2.000 frames per second
    assert_eq!(t.fps_milli(), 2_000);
    t.start(500_000_000);
    t.stop(1_000_000_000);
    // two frames in one second
    assert_eq!(t.fps_milli(), 2_000);
    t.reset();
    assert_eq!(t.fps_milli(), 0);
}
