use fastfingers::{PerformanceMonitor, PerformanceMonitorError, Ratio};

fn wait_a_little() {
    let t = std::time::Instant::now();
    while t.elapsed() < std::time::Duration::from_millis(5) {}
}

#[test]
fn accuracy_needs_an_attempt() {
    let monitor = PerformanceMonitor::new();
    assert_eq!(monitor.accuracy(), Err(PerformanceMonitorError::NoAttempts));
}

#[test]
fn one_right_one_wrong_is_half() {
    let mut monitor = PerformanceMonitor::new();
    assert!(monitor.start().is_ok());
    monitor.register("cat", "cat");
    monitor.register("dog", "cot");
    assert_eq!(monitor.correct(), 1);
    assert_eq!(monitor.attempted(), 2);
    let ratio = monitor.accuracy().unwrap();
    assert_eq!(ratio, Ratio { numerator: 1, denominator: 2 });
    assert_eq!(ratio.numerator as f32 / ratio.denominator as f32, 0.5);
}

#[test]
fn comparison_is_exact_and_case_sensitive() {
    let mut monitor = PerformanceMonitor::new();
    monitor.register("Cat", "cat");
    monitor.register("cat ", "cat");
    monitor.register("héllo", "héllo");
    assert_eq!(monitor.correct(), 1);
    assert_eq!(monitor.attempted(), 3);
}

#[test]
fn second_start_is_refused_and_changes_nothing() {
    let mut monitor = PerformanceMonitor::new();
    assert_eq!(monitor.start(), Ok(()));
    monitor.register("a", "a");
    assert_eq!(monitor.start(), Err(PerformanceMonitorError::AlreadyStarted));
    assert_eq!(monitor.correct(), 1);
    assert_eq!(monitor.attempted(), 1);
    assert!(monitor.duration().is_ok());
}

#[test]
fn second_end_is_refused() {
    let mut monitor = PerformanceMonitor::new();
    assert_eq!(monitor.end(), Ok(()));
    assert_eq!(monitor.end(), Err(PerformanceMonitorError::AlreadyEnded));
}

#[test]
fn duration_needs_a_start() {
    let mut monitor = PerformanceMonitor::new();
    assert_eq!(monitor.duration(), Err(PerformanceMonitorError::NotStarted));
    monitor.end().unwrap();
    assert_eq!(monitor.duration(), Err(PerformanceMonitorError::NotStarted));
}

#[test]
fn duration_is_frozen_after_end() {
    let mut monitor = PerformanceMonitor::new();
    monitor.start().unwrap();
    wait_a_little();
    monitor.end().unwrap();
    let first = monitor.duration().unwrap();
    wait_a_little();
    assert_eq!(monitor.duration().unwrap(), first);
    assert!(first >= std::time::Duration::from_millis(5));
}

#[test]
fn duration_grows_while_running() {
    let mut monitor = PerformanceMonitor::new();
    monitor.start().unwrap();
    let first = monitor.duration().unwrap();
    wait_a_little();
    assert!(monitor.duration().unwrap() > first);
}

#[test]
fn readings_give_exact_durations() {
    let mut monitor = PerformanceMonitor::new();
    assert_eq!(monitor.duration_at(10), Err(PerformanceMonitorError::NotStarted));
    assert_eq!(monitor.start_at(100), Ok(()));
    assert_eq!(monitor.duration_at(250), Ok(150));
    assert_eq!(monitor.duration_at(50), Ok(0));
    assert_eq!(monitor.start_at(120), Err(PerformanceMonitorError::AlreadyStarted));
    assert_eq!(monitor.duration_at(250), Ok(150));
    assert_eq!(monitor.end_at(400), Ok(()));
    assert_eq!(monitor.duration_at(9999), Ok(300));
    assert_eq!(monitor.end_at(500), Err(PerformanceMonitorError::AlreadyEnded));
    assert_eq!(monitor.duration().unwrap(), std::time::Duration::from_nanos(300));
}
