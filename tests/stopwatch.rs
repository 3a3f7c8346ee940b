use flua::stopwatch::Stopwatch;
use std::time::Duration;

#[test]
fn new_stopwatch_initial_state() {
    let sw = Stopwatch::new();
    assert!(sw.start.is_none());
    assert_eq!(Duration::from_nanos(sw.elapsed), Duration::ZERO);
    assert!(!sw.paused);
}

#[test]
fn stopwatch_runs_pauses_and_resumes() {
    let mut sw = Stopwatch::new();
    sw.start(1_000);
    assert_eq!(sw.read(1_500), 500);
    sw.pause(2_000);
    assert!(sw.paused);
    assert_eq!(sw.read(9_000), 1_000);
    sw.start(10_000);
    assert_eq!(sw.read(10_250), 1_250);
    sw.start(20_000);
    assert_eq!(sw.read(10_250), 1_250);
    sw.stop();
    assert_eq!(sw.read(30_000), 0);
    assert!(sw.start.is_none());
}
