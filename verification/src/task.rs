//! Tasks and their timed intervals.
//!
//! A task owns an ordered history of intervals. An interval is open while the
//! task runs and is closed, with its duration fixed, when the task stops. A
//! well-formed task has at most one open interval, it is the last one, and the
//! active flag agrees with it.

use vstd::prelude::*;

use crate::parse::{spec_split_input, split_task_input};

verus! {

/// One start/stop timing span. `end` absent means the span is still open.
/// Instants are whole seconds of an absolute, zone-independent clock;
/// `duration` is `end - start` in seconds once the span is closed.
#[derive(Debug, Clone, Copy, PartialEq, Eq)]
pub struct TaskHours {
    pub duration: u64,
    pub end: Option<u64>,
    pub start: Option<u64>,
}

/// Whether a task's name field is open for modification.
#[derive(Debug, Clone, Copy, PartialEq, Eq, Structural)]
pub enum TaskState {
    Idle,
    Editing,
}

/// The commands a single task row accepts.
#[derive(Debug, Clone)]
pub enum TaskMessage {
    Edit,
    NameEdited(String),
    EditCompleted,
    EditCanceled,
    Delete,
    Start,
    Stop,
}

/// A named, optionally tagged task with its interval history.
#[derive(Debug)]
pub struct Task {
    pub id: u128,
    pub name: String,
    pub tag: Option<String>,
    /// The last committed name, restored when an edit is cancelled.
    pub pending_name: String,
    pub hours: Vec<TaskHours>,
    pub is_active: bool,
    pub state: TaskState,
}

/// The mathematical value of a task.
pub ghost struct TaskView {
    pub id: u128,
    pub name: Seq<char>,
    pub tag: Option<Seq<char>>,
    pub pending_name: Seq<char>,
    pub hours: Seq<TaskHours>,
    pub is_active: bool,
    pub state: TaskState,
}

impl View for Task {
    type V = TaskView;

    open spec fn view(&self) -> TaskView {
        TaskView {
            id: self.id,
            name: self.name@,
            tag: match self.tag {
                Some(t) => Some(t@),
                None => None,
            },
            pending_name: self.pending_name@,
            hours: self.hours@,
            is_active: self.is_active,
            state: self.state,
        }
    }
}

/// A closed span runs from its start to its end and its duration is the
/// difference; an open span has a start and no duration yet.
pub open spec fn wf_hours(h: TaskHours) -> bool {
    match h.end {
        Some(e) => match h.start {
            Some(s) => s <= e && h.duration == e - s,
            None => false,
        },
        None => h.start is Some && h.duration == 0,
    }
}

pub open spec fn open_hours(h: TaskHours) -> bool {
    h.end is None
}

/// Every span is well-formed, only the last span may be open, and the active
/// flag holds exactly when the last span is open.
pub open spec fn wf_task(t: TaskView) -> bool {
    &&& forall|i: int| 0 <= i < t.hours.len() ==> wf_hours(#[trigger] t.hours[i])
    &&& forall|i: int| 0 <= i < t.hours.len() - 1 ==> !open_hours(#[trigger] t.hours[i])
    &&& (t.is_active <==> (t.hours.len() > 0 && open_hours(t.hours.last())))
}

/// A fresh open span starting now.
pub open spec fn spec_hours_new(now: u64) -> TaskHours {
    TaskHours { duration: 0, end: None, start: Some(now) }
}

/// Closes a span at `now`. A clock that moved backwards yields a span of
/// length zero ending at its own start, never a negative duration.
pub open spec fn spec_close_hours(h: TaskHours, now: u64) -> TaskHours {
    match h.start {
        Some(s) => {
            let e = if now >= s {
                now
            } else {
                s
            };
            TaskHours { duration: (e - s) as u64, end: Some(e), start: h.start }
        },
        None => TaskHours { duration: h.duration, end: Some(now), start: None },
    }
}

/// The task after a start command: a no-op when already active, else a new
/// open span is appended and the task becomes active.
pub open spec fn spec_task_start(t: TaskView, now: u64) -> TaskView {
    if t.is_active {
        t
    } else {
        TaskView { hours: t.hours.push(spec_hours_new(now)), is_active: true, ..t }
    }
}

/// The task after a stop command: a no-op when idle, else the last span is
/// closed at `now` and the task becomes idle.
pub open spec fn spec_task_stop(t: TaskView, now: u64) -> TaskView {
    if t.is_active {
        if t.hours.len() > 0 {
            TaskView {
                hours: t.hours.update(
                    t.hours.len() - 1,
                    spec_close_hours(t.hours.last(), now),
                ),
                is_active: false,
                ..t
            }
        } else {
            TaskView { is_active: false, ..t }
        }
    } else {
        t
    }
}

/// A task as first created from input text: name and tag are split from the
/// text, the committed name equals the name, and the history is one open span
/// when the task starts active, else empty.
pub open spec fn spec_new_task(id: u128, text: Seq<char>, set_active: bool, now: u64) -> TaskView {
    let (tag, name) = spec_split_input(text);
    TaskView {
        id: id,
        name: name,
        tag: tag,
        pending_name: name,
        hours: if set_active {
            seq![spec_hours_new(now)]
        } else {
            Seq::empty()
        },
        is_active: set_active,
        state: TaskState::Idle,
    }
}

pub proof fn lemma_new_task_wf(id: u128, text: Seq<char>, set_active: bool, now: u64)
    ensures
        wf_task(spec_new_task(id, text, set_active, now)),
{
}

pub proof fn lemma_task_start_wf(t: TaskView, now: u64)
    requires
        wf_task(t),
    ensures
        wf_task(spec_task_start(t, now)),
        spec_task_start(t, now).is_active,
{
    if !t.is_active {
        let t2 = spec_task_start(t, now);
        assert forall|i: int| 0 <= i < t2.hours.len() implies wf_hours(#[trigger] t2.hours[i]) by {
            if i < t.hours.len() {
                assert(t2.hours[i] == t.hours[i]);
            }
        }
        assert forall|i: int| 0 <= i < t2.hours.len() - 1 implies !open_hours(
            #[trigger] t2.hours[i],
        ) by {
            assert(t2.hours[i] == t.hours[i]);
        }
    }
}

pub proof fn lemma_task_stop_wf(t: TaskView, now: u64)
    requires
        wf_task(t),
    ensures
        wf_task(spec_task_stop(t, now)),
        !spec_task_stop(t, now).is_active,
{
    if t.is_active {
        let t2 = spec_task_stop(t, now);
        assert forall|i: int| 0 <= i < t2.hours.len() implies wf_hours(#[trigger] t2.hours[i]) by {
            if i < t.hours.len() - 1 {
                assert(t2.hours[i] == t.hours[i]);
            }
        }
    }
}

/// Relies on `uuid::Uuid::new_v4` for a fresh process-unique identifier,
/// carried as its 128-bit value. The value is random; nothing is promised
/// of it.
#[verifier::external_body]
pub(crate) fn fresh_id() -> u128 {
    uuid::Uuid::new_v4().as_u128()
}

impl Default for TaskHours {
    /// The empty span record: no start, no end, zero duration.
    fn default() -> (r: Self)
        ensures
            r == (TaskHours { duration: 0, end: None, start: None }),
    {
        TaskHours { duration: 0, end: None, start: None }
    }
}

impl TaskHours {
    /// A fresh open span starting at `now`.
    pub fn new(now: u64) -> (r: Self)
        ensures
            r == spec_hours_new(now),
    {
        TaskHours { duration: 0, end: None, start: Some(now) }
    }

    /// This span closed at `now`.
    pub fn closed_at(&self, now: u64) -> (r: Self)
        ensures
            r == spec_close_hours(*self, now),
    {
        match self.start {
            Some(s) => {
                let e = if now >= s {
                    now
                } else {
                    s
                };
                TaskHours { duration: e - s, end: Some(e), start: self.start }
            },
            None => TaskHours { duration: self.duration, end: Some(now), start: None },
        }
    }
}

impl Default for TaskState {
    fn default() -> (r: Self)
        ensures
            r == TaskState::Idle,
    {
        TaskState::Idle
    }
}

impl Task {
    /// A new task from input text. The registry rejects invalid input before
    /// calling this; the constructor itself is total.
    pub fn new(id: u128, text: &str, set_active: bool, now: u64) -> (t: Task)
        ensures
            t@ == spec_new_task(id, text@, set_active, now),
            wf_task(t@),
    {
        let (tag, name) = split_task_input(text);
        let pending_name = name.clone();
        let mut hours: Vec<TaskHours> = Vec::new();
        if set_active {
            hours.push(TaskHours::new(now));
        }
        let t = Task {
            id,
            name,
            tag,
            pending_name,
            hours,
            is_active: set_active,
            state: TaskState::Idle,
        };
        proof {
            assert(t@.hours =~= spec_new_task(id, text@, set_active, now).hours);
            assert(t@ =~= spec_new_task(id, text@, set_active, now));
        }
        t
    }

    /// A start command on the task: appends a fresh open span unless already
    /// active.
    pub fn start(&mut self, now: u64)
        ensures
            final(self)@ == spec_task_start(old(self)@, now),
    {
        if !self.is_active {
            self.is_active = true;
            self.hours.push(TaskHours::new(now));
        }
    }

    /// A deep copy with the same mathematical value, as captured for a save
    /// snapshot.
    pub fn duplicate(&self) -> (r: Task)
        ensures
            r@ == self@,
    {
        let mut hours: Vec<TaskHours> = Vec::new();
        let n = self.hours.len();
        let mut k: usize = 0;
        while k < n
            invariant
                k <= n,
                n == self.hours.len(),
                hours@ =~= self.hours@.subrange(0, k as int),
            decreases n - k,
        {
            hours.push(self.hours[k]);
            k = k + 1;
        }
        let r = Task {
            id: self.id,
            name: self.name.clone(),
            tag: match &self.tag {
                Some(t) => Some(t.clone()),
                None => None,
            },
            pending_name: self.pending_name.clone(),
            hours,
            is_active: self.is_active,
            state: self.state,
        };
        proof {
            assert(r.hours@ =~= self.hours@);
            assert(r@ =~~= self@);
        }
        r
    }

    /// A stop command on the task: closes the last span at `now` unless
    /// already idle.
    pub fn stop(&mut self, now: u64)
        ensures
            final(self)@ == spec_task_stop(old(self)@, now),
    {
        if self.is_active {
            self.is_active = false;
            let n = self.hours.len();
            if n > 0 {
                let last = self.hours[n - 1];
                let closed = last.closed_at(now);
                self.hours.set(n - 1, closed);
            }
        }
    }
}

} // verus!
