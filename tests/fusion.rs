use drone_fusion::egress::{Link, LinkAction, LinkEvent, RECONNECT_BACKOFF_MS};
use drone_fusion::fusion::{select_measurements, sleep_budget, Session, TickAction, TICK_PERIOD_NS};
use drone_fusion::registry::{Entry, Module};

fn entry(id: &str, reading: u32, drone: bool) -> Entry<u32> {
    Entry { id: id.to_string(), module: Module { reading, drone, coords_finite: true, updated: 0 } }
}

#[test]
fn tick_without_detection_skips() {
    let mut s = Session::new();
    let snap = vec![entry("a", 1, false), entry("b", 2, false), entry("c", 3, false)];
    assert_eq!(s.tick(&snap), TickAction::NoDetection);
    assert_eq!(s.reference(), Some(1));
}

#[test]
fn tick_with_two_modules_is_too_few() {
    let mut s = Session::new();
    let snap = vec![entry("a", 1, true), entry("b", 2, false)];
    assert_eq!(s.tick(&snap), TickAction::TooFewModules);
}

#[test]
fn tick_fuses_with_three_and_keeps_reference() {
    let mut s = Session::new();
    assert_eq!(s.tick(&Vec::new()), TickAction::NoDetection);
    assert_eq!(s.reference(), None);
    let snap = vec![entry("a", 7, false), entry("b", 8, true), entry("c", 9, false)];
    assert_eq!(s.tick(&snap), TickAction::Fuse);
    assert_eq!(s.reference(), Some(7));
    let later = vec![entry("z", 100, true), entry("b", 8, true), entry("c", 9, true)];
    assert_eq!(s.tick(&later), TickAction::Fuse);
    assert_eq!(s.reference(), Some(7));
}

#[test]
fn sleep_fills_the_period() {
    assert_eq!(sleep_budget(TICK_PERIOD_NS, 20_000_000), 30_000_000);
    assert_eq!(sleep_budget(TICK_PERIOD_NS, TICK_PERIOD_NS), 0);
    assert_eq!(sleep_budget(TICK_PERIOD_NS, 80_000_000), 0);
}

fn admissible(ranges: &[f64], cap: Option<f64>) -> Vec<bool> {
    ranges.iter().map(|&r| r > 0.0 && cap.map_or(true, |c| r <= c)).collect()
}

#[test]
fn range_cap_excludes_far_sensor() {
    let flags = admissible(&[100.0, 120.0, 140.0, 300.0], Some(150.0));
    assert_eq!(select_measurements(&flags), Some(vec![0, 1, 2]));
}

#[test]
fn shortfall_keeps_prediction() {
    let flags = admissible(&[100.0, 120.0], None);
    assert_eq!(select_measurements(&flags), None);
    let flags = admissible(&[100.0, 0.0, -5.0, 140.0], None);
    assert_eq!(select_measurements(&flags), None);
}

#[test]
fn non_positive_ranges_are_skipped() {
    let flags = admissible(&[0.0, 10.0, 20.0, -1.0, 30.0], None);
    assert_eq!(select_measurements(&flags), Some(vec![1, 2, 4]));
}

#[test]
fn link_reconnects_after_failures() {
    let mut link = Link::new();
    assert!(!link.is_up());
    assert_eq!(link.on_event(LinkEvent::ConnectFailed), LinkAction::RetryAfter(RECONNECT_BACKOFF_MS));
    assert!(!link.is_up());
    assert_eq!(link.on_event(LinkEvent::Connected), LinkAction::Proceed);
    assert!(link.is_up());
    assert_eq!(link.on_event(LinkEvent::Sent), LinkAction::Proceed);
    assert!(link.is_up());
    assert_eq!(link.on_event(LinkEvent::SendFailed), LinkAction::RetryAfter(1000));
    assert!(!link.is_up());
}
