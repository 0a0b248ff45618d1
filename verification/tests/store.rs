//! The store codec and the persistence controller.

use timetrack::codec::{load_from_document, save_to_document};
use timetrack::persist::{LoadError, SaveError, MIN_SAVE_INTERVAL};
use timetrack::registry::Registry;
use timetrack::task::{TaskHours, TaskState};

#[test]
fn save_then_load_reconstructs_the_task_list() {
    let mut r = Registry::new();
    r.create("infra:fix pipeline", false, 0);
    r.create("standup", false, 0);
    r.start_task(0, 100);
    r.stop_task(0, 160);
    r.start_task(1, 200);
    let doc = save_to_document(&r.tasks);
    let loaded = load_from_document(doc.as_str()).expect("round trip must parse");
    assert_eq!(loaded.len(), 2);
    assert_eq!(loaded[0].id, r.tasks[0].id);
    assert_eq!(loaded[0].name, r.tasks[0].name);
    assert_eq!(loaded[0].tag, r.tasks[0].tag);
    assert_eq!(loaded[0].hours, r.tasks[0].hours);
    assert_eq!(loaded[0].is_active, r.tasks[0].is_active);
    assert_eq!(loaded[1].id, r.tasks[1].id);
    assert_eq!(loaded[1].hours, r.tasks[1].hours);
    assert!(loaded[1].is_active);
    // Transient fields restart at their defaults.
    assert!(matches!(loaded[0].state, TaskState::Idle));
    assert_eq!(loaded[0].pending_name, loaded[0].name);
}

#[test]
fn round_trip_keeps_awkward_names() {
    let mut r = Registry::new();
    r.create("a:name with\nnewline and 0123456789", false, 0);
    r.create("semi:colons: every:where", false, 0);
    let doc = save_to_document(&r.tasks);
    let loaded = load_from_document(doc.as_str()).expect("must parse");
    assert_eq!(loaded[0].name, r.tasks[0].name);
    assert_eq!(loaded[1].name, r.tasks[1].name);
    assert_eq!(loaded[1].tag, r.tasks[1].tag);
}

#[test]
fn empty_registry_round_trips() {
    let r = Registry::new();
    let doc = save_to_document(&r.tasks);
    let loaded = load_from_document(doc.as_str()).expect("must parse");
    assert!(loaded.is_empty());
}

#[test]
fn garbage_is_a_format_error() {
    assert!(matches!(load_from_document(""), Err(LoadError::Format)));
    assert!(matches!(load_from_document("not a document"), Err(LoadError::Format)));
    assert!(matches!(
        load_from_document("99999999999999999999\n"),
        Err(LoadError::Format)
    ));
}

#[test]
fn truncated_document_is_a_format_error() {
    let mut r = Registry::new();
    r.create("a", false, 0);
    let doc = save_to_document(&r.tasks);
    let cut: String = doc.chars().take(doc.chars().count() - 3).collect();
    assert!(matches!(load_from_document(cut.as_str()), Err(LoadError::Format)));
}

#[test]
fn trailing_garbage_is_a_format_error() {
    let mut r = Registry::new();
    r.create("a", false, 0);
    let mut doc = save_to_document(&r.tasks);
    doc.push('x');
    assert!(matches!(load_from_document(doc.as_str()), Err(LoadError::Format)));
}

#[test]
fn inconsistent_active_flag_is_a_format_error() {
    // A parsed list must be well-formed: an active task needs an open last
    // span. Flip the active flag of a task saved idle.
    let mut r = Registry::new();
    r.create("a", false, 0);
    r.start_task(0, 5);
    r.stop_task(0, 9);
    let doc = save_to_document(&r.tasks);
    let flipped = flip_first_active_flag(&doc);
    assert!(matches!(load_from_document(flipped.as_str()), Err(LoadError::Format)));
}

/// The active flag is the single `0`/`1` right before the span-count
/// numeral, which ends at the first newline after the header line.
fn flip_first_active_flag(doc: &str) -> String {
    let chars: Vec<char> = doc.chars().collect();
    let header_end = chars.iter().position(|c| *c == '\n').unwrap();
    let task_line_end = header_end
        + 1
        + chars[header_end + 1..]
            .iter()
            .position(|c| *c == '\n')
            .unwrap();
    let flag_at = task_line_end - 21;
    let mut out = chars.clone();
    out[flag_at] = if chars[flag_at] == '1' { '0' } else { '1' };
    out.into_iter().collect()
}

#[test]
fn save_error_variants_are_distinct() {
    assert_ne!(SaveError::DirectoryCreateFailed, SaveError::WriteFailed);
    assert_ne!(SaveError::WriteFailed, SaveError::FormatFailed);
    assert_ne!(LoadError::Missing, LoadError::Format);
}

#[test]
fn save_begins_only_when_dirty_and_not_saving() {
    let mut r = Registry::new();
    assert!(r.try_begin_save(0).is_none());
    r.create("a", false, 0);
    assert!(r.is_dirty);
    let snap = r.try_begin_save(10).expect("dirty and idle: save begins");
    assert_eq!(snap.len(), 1);
    assert!(!r.is_dirty);
    assert!(r.is_saving);
    // While the save is in flight, nothing else begins.
    r.create("b", false, 11);
    assert!(r.is_dirty);
    assert!(r.try_begin_save(11).is_none());
    r.save_completed(true, 12);
    assert!(!r.is_saving);
    assert_eq!(r.last_saved, Some(12));
}

#[test]
fn two_mutations_inside_the_window_coalesce_into_one_save() {
    let mut r = Registry::new();
    r.create("a", false, 0);
    let _ = r.try_begin_save(100).expect("first save begins");
    r.save_completed(true, 100);
    // Two dirty mutations within the minimum interval after the save.
    r.create("b", false, 100);
    assert!(r.try_begin_save(100).is_none());
    r.create("c", false, 101);
    assert!(r.try_begin_save(101).is_none());
    // The next attempt past the window carries the latest state, once.
    let snap = r
        .try_begin_save(100 + MIN_SAVE_INTERVAL)
        .expect("window passed: save begins");
    assert_eq!(snap.len(), 3);
    assert_eq!(snap[2].name.as_str(), "c");
    assert!(r.try_begin_save(100 + MIN_SAVE_INTERVAL).is_none());
}

#[test]
fn failed_save_does_not_stamp_the_throttle_clock() {
    let mut r = Registry::new();
    r.create("a", false, 0);
    let _ = r.try_begin_save(50).expect("save begins");
    r.save_completed(false, 50);
    assert_eq!(r.last_saved, None);
    // The state the failed save carried is still dirty-less; a new mutation
    // retries immediately because no success was recorded.
    r.create("b", false, 50);
    assert!(r.try_begin_save(50).is_some());
}

#[test]
fn snapshot_is_a_deep_copy() {
    let mut r = Registry::new();
    r.create("a", false, 0);
    let mut snap = r.snapshot_tasks();
    snap[0].name = String::from("mutated");
    assert_eq!(r.tasks[0].name.as_str(), "a");
}

#[test]
fn shutdown_stops_and_saves_synchronously() {
    // On shutdown the caller force-stops the running task and writes one
    // final document; loading it back shows the closed interval.
    let mut r = Registry::new();
    r.create("a", false, 0);
    r.start_task(0, 10);
    for i in 0..r.tasks.len() {
        r.stop_task(i, 40);
    }
    let doc = save_to_document(&r.tasks);
    let loaded = load_from_document(doc.as_str()).expect("must parse");
    assert!(!loaded[0].is_active);
    assert_eq!(loaded[0].hours[0].end, Some(40));
    assert_eq!(loaded[0].hours[0].duration, 30);
}

#[test]
fn default_hours_record_is_empty() {
    let h = TaskHours::default();
    assert_eq!(h.start, None);
    assert_eq!(h.end, None);
    assert_eq!(h.duration, 0);
}

#[test]
fn missing_identifier_gets_a_fresh_one() {
    // Older stores may lack identifiers: an absent-id marker replaces the
    // id marker and its two numerals. The record still loads, under a newly
    // generated identifier.
    let mut r = Registry::new();
    r.create("work:report", false, 0);
    let doc = save_to_document(&r.tasks);
    let chars: Vec<char> = doc.chars().collect();
    let header_end = chars.iter().position(|c| *c == '\n').unwrap();
    let mut surgically: Vec<char> = chars[..=header_end].to_vec();
    surgically.push('0');
    surgically.extend_from_slice(&chars[header_end + 42..]);
    let doc2: String = surgically.into_iter().collect();
    let loaded = load_from_document(doc2.as_str()).expect("must parse");
    assert_eq!(loaded.len(), 1);
    assert_eq!(loaded[0].name.as_str(), "report");
    assert_eq!(loaded[0].tag.as_deref(), Some("work"));
}
