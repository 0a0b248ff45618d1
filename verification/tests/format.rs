//! Duration accumulation and the `HH:MM` display form.

use timetrack::display::format_hhmm;
use timetrack::registry::Registry;
use timetrack::task::{Task, TaskState};

#[test]
fn hhmm_is_zero_padded_and_truncated() {
    assert_eq!(format_hhmm(0).as_str(), "00:00");
    assert_eq!(format_hhmm(59).as_str(), "00:00");
    assert_eq!(format_hhmm(60).as_str(), "00:01");
    assert_eq!(format_hhmm(119).as_str(), "00:01");
    assert_eq!(format_hhmm(3599).as_str(), "00:59");
    assert_eq!(format_hhmm(3600).as_str(), "01:00");
    assert_eq!(format_hhmm(3660).as_str(), "01:01");
    assert_eq!(format_hhmm(9 * 3600 + 5 * 60).as_str(), "09:05");
    assert_eq!(format_hhmm(36_000_000).as_str(), "10000:00");
}

#[test]
fn total_sums_closed_intervals() {
    let mut t = Task::new(1, "a", false, 0);
    let mut r = Registry::new();
    r.tasks.push(t);
    r.start_task(0, 100);
    r.stop_task(0, 160);
    r.start_task(0, 200);
    r.stop_task(0, 290);
    t = r.tasks.remove(0);
    assert_eq!(t.total_seconds(1000), 150);
}

#[test]
fn total_includes_live_elapsed_time_of_the_open_interval() {
    let mut r = Registry::new();
    r.create("a", false, 0);
    r.start_task(0, 100);
    r.stop_task(0, 160);
    r.start_task(0, 200);
    assert_eq!(r.tasks[0].total_seconds(230), 60 + 30);
    // A clock that moved backwards contributes nothing.
    assert_eq!(r.tasks[0].total_seconds(150), 60);
}

#[test]
fn snapshot_prefixes_the_tag_and_formats_the_total() {
    let mut r = Registry::new();
    r.create("infra:fix pipeline", false, 0);
    r.start_task(0, 0);
    r.stop_task(0, 2 * 3600 + 60);
    let rows = r.snapshot(10_000);
    assert_eq!(rows.len(), 1);
    assert_eq!(rows[0].display_name.as_str(), "infra:fix pipeline");
    assert_eq!(rows[0].total.as_str(), "02:01");
    assert!(!rows[0].is_active);
    assert!(matches!(rows[0].state, TaskState::Idle));
}

#[test]
fn snapshot_without_tag_shows_the_bare_name() {
    let mut r = Registry::new();
    r.create("standup", false, 0);
    let rows = r.snapshot(0);
    assert_eq!(rows[0].display_name.as_str(), "standup");
    assert_eq!(rows[0].total.as_str(), "00:00");
}

#[test]
fn live_total_appears_in_the_snapshot() {
    let mut r = Registry::new();
    r.create("a", false, 0);
    r.start_task(0, 0);
    let rows = r.snapshot(3 * 3600);
    assert!(rows[0].is_active);
    assert_eq!(rows[0].total.as_str(), "03:00");
}
