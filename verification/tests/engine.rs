//! The task lifecycle and registry command surface.

use timetrack::registry::Registry;
use timetrack::task::{Task, TaskHours, TaskMessage, TaskState};

fn active_count(r: &Registry) -> usize {
    r.tasks.iter().filter(|t| t.is_active).count()
}

#[test]
fn create_with_tag_splits_on_first_colon() {
    let mut r = Registry::new();
    assert!(r.create("infra:fix pipeline", false, 0));
    assert_eq!(r.tasks.len(), 1);
    let t = &r.tasks[0];
    assert_eq!(t.tag.as_deref(), Some("infra"));
    assert_eq!(t.name.as_str(), "fix pipeline");
    assert_eq!(t.pending_name.as_str(), "fix pipeline");
    assert!(!t.is_active);
    assert!(t.hours.is_empty());
}

#[test]
fn create_without_colon_has_no_tag() {
    let mut r = Registry::new();
    assert!(r.create("fix pipeline", false, 0));
    let t = &r.tasks[0];
    assert_eq!(t.tag, None);
    assert_eq!(t.name.as_str(), "fix pipeline");
}

#[test]
fn create_empty_is_rejected() {
    let mut r = Registry::new();
    assert!(!r.create("", false, 0));
    assert!(!r.create("   ", false, 0));
    assert!(!r.create("tag:   ", false, 0));
    assert_eq!(r.tasks.len(), 0);
}

#[test]
fn create_trims_name_after_colon() {
    let mut r = Registry::new();
    assert!(r.create("work:  report  ", false, 0));
    assert_eq!(r.tasks[0].name.as_str(), "report");
    assert_eq!(r.tasks[0].tag.as_deref(), Some("work"));
}

#[test]
fn create_with_leading_colon_keeps_whole_text_as_name() {
    let mut r = Registry::new();
    assert!(r.create(":odd", false, 0));
    assert_eq!(r.tasks[0].tag, None);
    assert_eq!(r.tasks[0].name.as_str(), ":odd");
}

#[test]
fn create_from_input_uses_and_clears_buffer() {
    let mut r = Registry::new();
    r.input_changed(String::from("deep work"));
    assert!(r.create_from_input(false, 0));
    assert_eq!(r.tasks.len(), 1);
    assert_eq!(r.tasks[0].name.as_str(), "deep work");
    assert_eq!(r.input_value.as_str(), "");
}

#[test]
fn start_then_stop_records_one_closed_interval() {
    let mut r = Registry::new();
    r.create("a", false, 0);
    r.start_task(0, 100);
    assert!(r.tasks[0].is_active);
    assert_eq!(r.tasks[0].hours.len(), 1);
    assert_eq!(r.tasks[0].hours[0].start, Some(100));
    assert_eq!(r.tasks[0].hours[0].end, None);
    r.stop_task(0, 160);
    assert!(!r.tasks[0].is_active);
    assert_eq!(r.tasks[0].hours.len(), 1);
    assert_eq!(r.tasks[0].hours[0].start, Some(100));
    assert_eq!(r.tasks[0].hours[0].end, Some(160));
    assert_eq!(r.tasks[0].hours[0].duration, 60);
}

#[test]
fn starting_b_stops_a_first() {
    let mut r = Registry::new();
    r.create("a", false, 0);
    r.create("b", false, 0);
    r.start_task(0, 10);
    assert!(r.tasks[0].is_active);
    r.start_task(1, 25);
    assert!(!r.tasks[0].is_active);
    assert_eq!(r.tasks[0].hours.last().unwrap().end, Some(25));
    assert_eq!(r.tasks[0].hours.last().unwrap().duration, 15);
    assert!(r.tasks[1].is_active);
    assert_eq!(r.tasks[1].hours.last().unwrap().end, None);
    assert_eq!(active_count(&r), 1);
}

#[test]
fn at_most_one_active_through_command_sequences() {
    let mut r = Registry::new();
    r.create("a", false, 0);
    r.create("b", false, 0);
    r.create("c", false, 0);
    let cmds: [(usize, bool, u64); 8] = [
        (0, true, 1),
        (1, true, 2),
        (1, false, 3),
        (2, true, 4),
        (0, true, 5),
        (2, false, 6),
        (2, false, 7),
        (1, true, 8),
    ];
    for (i, start, now) in cmds {
        if start {
            r.start_task(i, now);
        } else {
            r.stop_task(i, now);
        }
        assert!(active_count(&r) <= 1);
    }
}

#[test]
fn starting_an_active_task_is_a_no_op() {
    let mut r = Registry::new();
    r.create("a", false, 0);
    r.start_task(0, 10);
    r.start_task(0, 20);
    assert!(r.tasks[0].is_active);
    assert_eq!(r.tasks[0].hours.len(), 1);
    assert_eq!(r.tasks[0].hours[0].start, Some(10));
}

#[test]
fn stopping_an_idle_task_is_a_no_op() {
    let mut r = Registry::new();
    r.create("a", false, 0);
    r.stop_task(0, 10);
    assert!(!r.tasks[0].is_active);
    assert!(r.tasks[0].hours.is_empty());
}

#[test]
fn create_active_stops_the_running_task() {
    let mut r = Registry::new();
    r.create("a", false, 0);
    r.start_task(0, 10);
    assert!(r.create("b", true, 30));
    assert!(!r.tasks[0].is_active);
    assert_eq!(r.tasks[0].hours[0].end, Some(30));
    assert!(r.tasks[1].is_active);
    assert_eq!(r.tasks[1].hours[0].start, Some(30));
    assert_eq!(active_count(&r), 1);
}

#[test]
fn clock_running_backwards_yields_zero_duration() {
    let mut r = Registry::new();
    r.create("a", false, 0);
    r.start_task(0, 100);
    r.stop_task(0, 40);
    let h = r.tasks[0].hours[0];
    assert_eq!(h.start, Some(100));
    assert_eq!(h.end, Some(100));
    assert_eq!(h.duration, 0);
}

#[test]
fn cancel_edit_restores_pre_edit_name() {
    let mut r = Registry::new();
    r.create("report", false, 0);
    r.begin_edit(0);
    assert!(matches!(r.tasks[0].state, TaskState::Editing));
    r.edit_name(0, String::from("repo"));
    assert_eq!(r.tasks[0].name.as_str(), "repo");
    r.cancel_edit(0);
    assert_eq!(r.tasks[0].name.as_str(), "report");
    assert!(matches!(r.tasks[0].state, TaskState::Idle));
}

#[test]
fn commit_with_empty_name_is_rejected_and_stays_editing() {
    let mut r = Registry::new();
    r.create("report", false, 0);
    r.begin_edit(0);
    r.edit_name(0, String::new());
    r.commit_edit(0);
    assert!(matches!(r.tasks[0].state, TaskState::Editing));
    assert_eq!(r.tasks[0].name.as_str(), "");
    r.cancel_edit(0);
    assert_eq!(r.tasks[0].name.as_str(), "report");
}

#[test]
fn commit_reparses_tag_and_name() {
    let mut r = Registry::new();
    r.create("report", false, 0);
    r.begin_edit(0);
    r.edit_name(0, String::from("work: quarterly report "));
    r.commit_edit(0);
    let t = &r.tasks[0];
    assert!(matches!(t.state, TaskState::Idle));
    assert_eq!(t.tag.as_deref(), Some("work"));
    assert_eq!(t.name.as_str(), "quarterly report");
    assert_eq!(t.pending_name.as_str(), "quarterly report");
}

#[test]
fn begin_edit_moves_the_edit_to_one_task() {
    let mut r = Registry::new();
    r.create("a", false, 0);
    r.create("b", false, 0);
    r.begin_edit(0);
    r.begin_edit(1);
    assert!(matches!(r.tasks[0].state, TaskState::Idle));
    assert!(matches!(r.tasks[1].state, TaskState::Editing));
}

#[test]
fn edit_name_outside_editing_is_ignored() {
    let mut r = Registry::new();
    r.create("a", false, 0);
    r.edit_name(0, String::from("z"));
    assert_eq!(r.tasks[0].name.as_str(), "a");
}

#[test]
fn delete_removes_the_task() {
    let mut r = Registry::new();
    r.create("a", false, 0);
    r.create("b", false, 0);
    r.delete_task(0);
    assert_eq!(r.tasks.len(), 1);
    assert_eq!(r.tasks[0].name.as_str(), "b");
    r.delete_task(5);
    assert_eq!(r.tasks.len(), 1);
}

#[test]
fn update_dispatches_task_messages() {
    let mut r = Registry::new();
    r.create("a", false, 0);
    r.update(0, TaskMessage::Start, 10);
    assert!(r.tasks[0].is_active);
    r.update(0, TaskMessage::Stop, 30);
    assert!(!r.tasks[0].is_active);
    assert_eq!(r.tasks[0].hours[0].duration, 20);
    r.update(0, TaskMessage::Edit, 31);
    assert!(matches!(r.tasks[0].state, TaskState::Editing));
    r.update(0, TaskMessage::NameEdited(String::from("b")), 32);
    r.update(0, TaskMessage::EditCompleted, 33);
    assert_eq!(r.tasks[0].name.as_str(), "b");
    r.update(0, TaskMessage::Delete, 34);
    assert!(r.tasks.is_empty());
}

#[test]
fn mutations_mark_dirty_and_input_does_not() {
    let mut r = Registry::new();
    assert!(!r.is_dirty);
    r.input_changed(String::from("x"));
    assert!(!r.is_dirty);
    r.create("a", false, 0);
    assert!(r.is_dirty);
}

#[test]
fn duplicate_is_a_deep_equal_copy() {
    let t = Task::new(7, "work:report", false, 0);
    let mut c = t.duplicate();
    assert_eq!(c.id, t.id);
    assert_eq!(c.name, t.name);
    assert_eq!(c.tag, t.tag);
    c.name = String::from("other");
    assert_eq!(t.name.as_str(), "report");
}

#[test]
fn update_now_uses_the_wall_clock() {
    let mut r = Registry::new();
    r.create("a", false, 0);
    r.update_now(0, TaskMessage::Start);
    assert!(r.tasks[0].is_active);
    let started = r.tasks[0].hours[0].start.unwrap();
    let now = timetrack::clock::now_instant();
    assert!(started <= now + 1);
}

#[test]
fn split_helper_matches_the_creation_rule() {
    let (tag, name) = timetrack::parse::split_task_input("infra:fix pipeline");
    assert_eq!(tag.as_deref(), Some("infra"));
    assert_eq!(name.as_str(), "fix pipeline");
    let (tag, name) = timetrack::parse::split_task_input("no colon here");
    assert_eq!(tag, None);
    assert_eq!(name.as_str(), "no colon here");
    assert!(timetrack::parse::valid_task_input("a"));
    assert!(!timetrack::parse::valid_task_input(" \t "));
    assert_eq!(timetrack::parse::trim_str("  padded  ").as_str(), "padded");
    assert_eq!(timetrack::parse::trim_str("\t\n").as_str(), "");
}

#[test]
fn totals_saturate_instead_of_wrapping() {
    let t = Task {
        id: 1,
        name: String::from("t"),
        tag: None,
        pending_name: String::from("t"),
        hours: vec![
            TaskHours { duration: u64::MAX, end: Some(u64::MAX), start: Some(0) },
            TaskHours { duration: 7, end: Some(10), start: Some(3) },
        ],
        is_active: false,
        state: TaskState::Idle,
    };
    assert_eq!(t.total_seconds(0), u64::MAX);
}
