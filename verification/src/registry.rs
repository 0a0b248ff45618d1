//! The task registry: the single owner of all tasks.
//!
//! Every mutation enters through the command surface here, which keeps two
//! invariants at one choke point: at most one task is active, and at most one
//! task is being edited. Each successful mutation marks the registry dirty for
//! the persistence layer; the transient input buffer is not persisted state
//! and does not mark it dirty.

use vstd::prelude::*;

use crate::parse::{spec_split_input, spec_trim, spec_valid_input, split_task_input, trim_str,
    valid_task_input};
use crate::task::{fresh_id, spec_close_hours, spec_hours_new, spec_new_task, spec_task_start,
    spec_task_stop, wf_task, lemma_new_task_wf, lemma_task_start_wf, lemma_task_stop_wf, Task,
    TaskHours, TaskMessage, TaskState, TaskView};

verus! {

/// The registry: tasks in creation order, the new-task input buffer, and the
/// persistence bookkeeping flags.
#[derive(Debug)]
pub struct Registry {
    pub tasks: Vec<Task>,
    pub input_value: String,
    pub is_dirty: bool,
    pub is_saving: bool,
    pub last_saved: Option<u64>,
}

/// The mathematical value of the registry.
#[verifier::ext_equal]
pub ghost struct RegistryView {
    pub tasks: Seq<TaskView>,
    pub input_value: Seq<char>,
    pub is_dirty: bool,
    pub is_saving: bool,
    pub last_saved: Option<u64>,
}

impl View for Registry {
    type V = RegistryView;

    open spec fn view(&self) -> RegistryView {
        RegistryView {
            tasks: self.tasks@.map_values(|t: Task| t@),
            input_value: self.input_value@,
            is_dirty: self.is_dirty,
            is_saving: self.is_saving,
            last_saved: self.last_saved,
        }
    }
}

/// How many tasks satisfy `p`.
pub open spec fn count_where(ts: Seq<TaskView>, p: spec_fn(TaskView) -> bool) -> nat
    decreases ts.len(),
{
    if ts.len() == 0 {
        0
    } else {
        count_where(ts.drop_last(), p) + if p(ts.last()) {
            1nat
        } else {
            0nat
        }
    }
}

pub open spec fn is_active_task(t: TaskView) -> bool {
    t.is_active
}

pub open spec fn is_editing_task(t: TaskView) -> bool {
    t.state == TaskState::Editing
}

/// How many tasks are running.
pub open spec fn count_active(ts: Seq<TaskView>) -> nat {
    count_where(ts, |t: TaskView| is_active_task(t))
}

/// How many tasks are being edited.
pub open spec fn count_editing(ts: Seq<TaskView>) -> nat {
    count_where(ts, |t: TaskView| is_editing_task(t))
}

pub open spec fn wf_tasks(ts: Seq<TaskView>) -> bool {
    forall|i: int| 0 <= i < ts.len() ==> wf_task(#[trigger] ts[i])
}

/// The registry invariant: every task is well-formed, at most one runs, and
/// at most one is being edited.
pub open spec fn wf_registry(v: RegistryView) -> bool {
    &&& wf_tasks(v.tasks)
    &&& count_active(v.tasks) <= 1
    &&& count_editing(v.tasks) <= 1
}

pub proof fn lemma_count_where_zero(ts: Seq<TaskView>, p: spec_fn(TaskView) -> bool)
    requires
        forall|i: int| 0 <= i < ts.len() ==> !p(#[trigger] ts[i]),
    ensures
        count_where(ts, p) == 0,
    decreases ts.len(),
{
    if ts.len() > 0 {
        assert(forall|i: int|
            0 <= i < ts.drop_last().len() ==> ts.drop_last()[i] == ts[i]);
        lemma_count_where_zero(ts.drop_last(), p);
        assert(!p(ts.last()));
    }
}

pub proof fn lemma_count_where_update(
    ts: Seq<TaskView>,
    i: int,
    t: TaskView,
    p: spec_fn(TaskView) -> bool,
)
    requires
        0 <= i < ts.len(),
    ensures
        count_where(ts.update(i, t), p) == count_where(ts, p) - (if p(ts[i]) {
            1int
        } else {
            0int
        }) + (if p(t) {
            1int
        } else {
            0int
        }),
    decreases ts.len(),
{
    let u = ts.update(i, t);
    if i == ts.len() - 1 {
        assert(u.drop_last() =~= ts.drop_last());
        assert(u.last() == t);
        assert(ts.last() == ts[i]);
    } else {
        assert(u.drop_last() =~= ts.drop_last().update(i, t));
        assert(u.last() == ts.last());
        lemma_count_where_update(ts.drop_last(), i, t, p);
        assert(ts.drop_last()[i] == ts[i]);
    }
}

pub proof fn lemma_count_where_remove(ts: Seq<TaskView>, i: int, p: spec_fn(TaskView) -> bool)
    requires
        0 <= i < ts.len(),
    ensures
        count_where(ts.remove(i), p) == count_where(ts, p) - (if p(ts[i]) {
            1int
        } else {
            0int
        }),
    decreases ts.len(),
{
    let u = ts.remove(i);
    if i == ts.len() - 1 {
        assert(u =~= ts.drop_last());
        assert(ts.last() == ts[i]);
    } else {
        assert(u.drop_last() =~= ts.drop_last().remove(i));
        assert(u.last() == ts.last());
        lemma_count_where_remove(ts.drop_last(), i, p);
        assert(ts.drop_last()[i] == ts[i]);
    }
}

pub proof fn lemma_count_where_congruent(
    ts1: Seq<TaskView>,
    ts2: Seq<TaskView>,
    p: spec_fn(TaskView) -> bool,
)
    requires
        ts1.len() == ts2.len(),
        forall|i: int| 0 <= i < ts1.len() ==> p(#[trigger] ts1[i]) == p(#[trigger] ts2[i]),
    ensures
        count_where(ts1, p) == count_where(ts2, p),
    decreases ts1.len(),
{
    if ts1.len() > 0 {
        assert(forall|i: int|
            0 <= i < ts1.drop_last().len() ==> ts1.drop_last()[i] == ts1[i]
                && ts2.drop_last()[i] == ts2[i]);
        lemma_count_where_congruent(ts1.drop_last(), ts2.drop_last(), p);
        assert(p(ts1.last()) == p(ts2.last()));
    }
}

pub proof fn lemma_count_where_push(ts: Seq<TaskView>, t: TaskView, p: spec_fn(TaskView) -> bool)
    ensures
        count_where(ts.push(t), p) == count_where(ts, p) + (if p(t) {
            1nat
        } else {
            0nat
        }),
{
    assert(ts.push(t).drop_last() =~= ts);
    assert(ts.push(t).last() == t);
}

/// Task lists that agree on who is active have the same active count.
pub proof fn lemma_count_active_congruent(ts1: Seq<TaskView>, ts2: Seq<TaskView>)
    requires
        ts1.len() == ts2.len(),
        forall|i: int| 0 <= i < ts1.len() ==> (#[trigger] ts1[i]).is_active == (
        #[trigger] ts2[i]).is_active,
    ensures
        count_active(ts1) == count_active(ts2),
{
    lemma_count_where_congruent(ts1, ts2, |t: TaskView| is_active_task(t));
}

/// A task list in which nothing is being edited has editing count zero.
pub proof fn lemma_count_editing_zero(ts: Seq<TaskView>)
    requires
        forall|i: int| 0 <= i < ts.len() ==> (#[trigger] ts[i]).state != TaskState::Editing,
    ensures
        count_editing(ts) == 0,
{
    lemma_count_where_zero(ts, |t: TaskView| is_editing_task(t));
}

/// Every task after a stop broadcast.
pub open spec fn spec_stop_all(ts: Seq<TaskView>, now: u64) -> Seq<TaskView> {
    ts.map_values(|t: TaskView| spec_task_stop(t, now))
}

pub proof fn lemma_stop_all(ts: Seq<TaskView>, now: u64)
    requires
        wf_tasks(ts),
    ensures
        spec_stop_all(ts, now).len() == ts.len(),
        forall|i: int| 0 <= i < ts.len() ==> #[trigger] spec_stop_all(ts, now)[i]
            == spec_task_stop(ts[i], now),
        wf_tasks(spec_stop_all(ts, now)),
        count_active(spec_stop_all(ts, now)) == 0,
        count_editing(spec_stop_all(ts, now)) == count_editing(ts),
{
    let st = spec_stop_all(ts, now);
    assert forall|i: int| 0 <= i < st.len() implies wf_task(#[trigger] st[i]) by {
        lemma_task_stop_wf(ts[i], now);
    }
    assert forall|i: int| 0 <= i < st.len() implies !is_active_task(#[trigger] st[i]) by {
        lemma_task_stop_wf(ts[i], now);
    }
    lemma_count_where_zero(st, |t: TaskView| is_active_task(t));
    lemma_count_where_congruent(ts, st, |t: TaskView| is_editing_task(t));
}

/// Convenience: the registry with new tasks and the dirty flag raised.
pub open spec fn spec_with_tasks(v: RegistryView, ts: Seq<TaskView>) -> RegistryView {
    RegistryView { tasks: ts, is_dirty: true, ..v }
}

/// A start command on task `i`: a no-op when the index is stale or the task
/// already runs; otherwise every other running task is stopped first and a
/// fresh open span is appended to task `i`.
pub open spec fn spec_start(v: RegistryView, i: int, now: u64) -> RegistryView {
    if 0 <= i < v.tasks.len() && !v.tasks[i].is_active {
        let stopped = spec_stop_all(v.tasks, now);
        spec_with_tasks(v, stopped.update(i, spec_task_start(stopped[i], now)))
    } else {
        v
    }
}

/// A stop command on task `i`: closes its open span; a no-op when the index
/// is stale or the task is idle.
pub open spec fn spec_stop(v: RegistryView, i: int, now: u64) -> RegistryView {
    if 0 <= i < v.tasks.len() && v.tasks[i].is_active {
        spec_with_tasks(v, v.tasks.update(i, spec_task_stop(v.tasks[i], now)))
    } else {
        v
    }
}

/// A delete command: removes task `i`; a no-op when the index is stale.
pub open spec fn spec_delete(v: RegistryView, i: int) -> RegistryView {
    if 0 <= i < v.tasks.len() {
        spec_with_tasks(v, v.tasks.remove(i))
    } else {
        v
    }
}

/// A begin-edit command: every task leaves editing, then task `i` enters it.
pub open spec fn spec_begin_edit(v: RegistryView, i: int) -> RegistryView {
    let cleared = v.tasks.map_values(|t: TaskView| TaskView { state: TaskState::Idle, ..t });
    if 0 <= i < v.tasks.len() {
        spec_with_tasks(
            v,
            cleared.update(i, TaskView { state: TaskState::Editing, ..cleared[i] }),
        )
    } else {
        spec_with_tasks(v, cleared)
    }
}

/// A live rename while task `i` is being edited; the tag and the committed
/// name change only on commit.
pub open spec fn spec_edit_name(v: RegistryView, i: int, text: Seq<char>) -> RegistryView {
    if 0 <= i < v.tasks.len() && v.tasks[i].state == TaskState::Editing {
        spec_with_tasks(v, v.tasks.update(i, TaskView { name: text, ..v.tasks[i] }))
    } else {
        v
    }
}

/// A commit command on task `i`: the live name is split into tag and name
/// again, the committed name is updated and editing ends — unless the name
/// the split yields is empty once trimmed, in which case nothing changes and
/// the task stays in editing.
pub open spec fn spec_commit_edit(v: RegistryView, i: int) -> RegistryView {
    if 0 <= i < v.tasks.len() && v.tasks[i].state == TaskState::Editing {
        let t = v.tasks[i];
        let (tag, name) = spec_split_input(t.name);
        if spec_trim(name).len() > 0 {
            spec_with_tasks(
                v,
                v.tasks.update(
                    i,
                    TaskView { name: name, tag: tag, pending_name: name, state: TaskState::Idle, ..t },
                ),
            )
        } else {
            v
        }
    } else {
        v
    }
}

/// A cancel command on task `i`: the name falls back to the last committed
/// name and editing ends, unconditionally.
pub open spec fn spec_cancel_edit(v: RegistryView, i: int) -> RegistryView {
    if 0 <= i < v.tasks.len() {
        let t = v.tasks[i];
        spec_with_tasks(
            v,
            v.tasks.update(i, TaskView { name: t.pending_name, state: TaskState::Idle, ..t }),
        )
    } else {
        v
    }
}

/// A create command: invalid input is rejected; otherwise a new task is
/// appended in creation order, stopping every running task first when the new
/// task starts active.
pub open spec fn spec_create(
    v: RegistryView,
    text: Seq<char>,
    set_active: bool,
    id: u128,
    now: u64,
) -> RegistryView {
    if spec_valid_input(text) {
        let base = if set_active {
            spec_stop_all(v.tasks, now)
        } else {
            v.tasks
        };
        spec_with_tasks(v, base.push(spec_new_task(id, text, set_active, now)))
    } else {
        v
    }
}

/// An edit of the transient new-task input buffer; not a persisted mutation,
/// so the dirty flag stays as it is.
pub open spec fn spec_input_changed(v: RegistryView, text: Seq<char>) -> RegistryView {
    RegistryView { input_value: text, ..v }
}

/// The command dispatch for one task row.
pub open spec fn spec_update(v: RegistryView, i: int, msg: TaskMessage, now: u64) -> RegistryView {
    match msg {
        TaskMessage::Edit => spec_begin_edit(v, i),
        TaskMessage::NameEdited(text) => spec_edit_name(v, i, text@),
        TaskMessage::EditCompleted => spec_commit_edit(v, i),
        TaskMessage::EditCanceled => spec_cancel_edit(v, i),
        TaskMessage::Delete => spec_delete(v, i),
        TaskMessage::Start => spec_start(v, i, now),
        TaskMessage::Stop => spec_stop(v, i, now),
    }
}

pub proof fn lemma_start_wf(v: RegistryView, i: int, now: u64)
    requires
        wf_registry(v),
    ensures
        wf_registry(spec_start(v, i, now)),
{
    if 0 <= i < v.tasks.len() && !v.tasks[i].is_active {
        let stopped = spec_stop_all(v.tasks, now);
        lemma_stop_all(v.tasks, now);
        let started = spec_task_start(stopped[i], now);
        lemma_task_start_wf(stopped[i], now);
        let ts2 = stopped.update(i, started);
        assert forall|k: int| 0 <= k < ts2.len() implies wf_task(#[trigger] ts2[k]) by {
            if k != i {
                assert(ts2[k] == stopped[k]);
            }
        }
        lemma_count_where_update(stopped, i, started, |t: TaskView| is_active_task(t));
        lemma_count_where_update(stopped, i, started, |t: TaskView| is_editing_task(t));
        assert(started.state == stopped[i].state);
        assert(is_editing_task(started) == is_editing_task(stopped[i]));
    }
}

pub proof fn lemma_stop_wf(v: RegistryView, i: int, now: u64)
    requires
        wf_registry(v),
    ensures
        wf_registry(spec_stop(v, i, now)),
{
    if 0 <= i < v.tasks.len() && v.tasks[i].is_active {
        let stopped = spec_task_stop(v.tasks[i], now);
        lemma_task_stop_wf(v.tasks[i], now);
        let ts2 = v.tasks.update(i, stopped);
        assert forall|k: int| 0 <= k < ts2.len() implies wf_task(#[trigger] ts2[k]) by {
            if k != i {
                assert(ts2[k] == v.tasks[k]);
            }
        }
        lemma_count_where_update(v.tasks, i, stopped, |t: TaskView| is_active_task(t));
        lemma_count_where_update(v.tasks, i, stopped, |t: TaskView| is_editing_task(t));
        assert(is_editing_task(stopped) == is_editing_task(v.tasks[i]));
    }
}

pub proof fn lemma_delete_wf(v: RegistryView, i: int)
    requires
        wf_registry(v),
    ensures
        wf_registry(spec_delete(v, i)),
{
    if 0 <= i < v.tasks.len() {
        let ts2 = v.tasks.remove(i);
        assert forall|k: int| 0 <= k < ts2.len() implies wf_task(#[trigger] ts2[k]) by {
            if k < i {
                assert(ts2[k] == v.tasks[k]);
            } else {
                assert(ts2[k] == v.tasks[k + 1]);
            }
        }
        lemma_count_where_remove(v.tasks, i, |t: TaskView| is_active_task(t));
        lemma_count_where_remove(v.tasks, i, |t: TaskView| is_editing_task(t));
    }
}

pub proof fn lemma_begin_edit_wf(v: RegistryView, i: int)
    requires
        wf_registry(v),
    ensures
        wf_registry(spec_begin_edit(v, i)),
{
    let cleared = v.tasks.map_values(|t: TaskView| TaskView { state: TaskState::Idle, ..t });
    assert forall|k: int| 0 <= k < cleared.len() implies wf_task(#[trigger] cleared[k])
        && !is_editing_task(cleared[k]) && is_active_task(cleared[k]) == is_active_task(
        v.tasks[k],
    ) by {
        assert(cleared[k] == (TaskView { state: TaskState::Idle, ..v.tasks[k] }));
    }
    lemma_count_where_zero(cleared, |t: TaskView| is_editing_task(t));
    lemma_count_where_congruent(v.tasks, cleared, |t: TaskView| is_active_task(t));
    if 0 <= i < v.tasks.len() {
        let edited = TaskView { state: TaskState::Editing, ..cleared[i] };
        let ts2 = cleared.update(i, edited);
        assert forall|k: int| 0 <= k < ts2.len() implies wf_task(#[trigger] ts2[k]) by {
            if k != i {
                assert(ts2[k] == cleared[k]);
            }
        }
        lemma_count_where_update(cleared, i, edited, |t: TaskView| is_active_task(t));
        lemma_count_where_update(cleared, i, edited, |t: TaskView| is_editing_task(t));
    }
}

pub proof fn lemma_name_only_update_wf(v: RegistryView, i: int, t2: TaskView)
    requires
        wf_registry(v),
        0 <= i < v.tasks.len(),
        t2.hours == v.tasks[i].hours,
        t2.is_active == v.tasks[i].is_active,
        is_editing_task(t2) ==> is_editing_task(v.tasks[i]),
    ensures
        wf_registry(spec_with_tasks(v, v.tasks.update(i, t2))),
{
    let ts2 = v.tasks.update(i, t2);
    assert forall|k: int| 0 <= k < ts2.len() implies wf_task(#[trigger] ts2[k]) by {
        if k != i {
            assert(ts2[k] == v.tasks[k]);
        }
    }
    lemma_count_where_update(v.tasks, i, t2, |t: TaskView| is_active_task(t));
    lemma_count_where_update(v.tasks, i, t2, |t: TaskView| is_editing_task(t));
}

pub proof fn lemma_edit_name_wf(v: RegistryView, i: int, text: Seq<char>)
    requires
        wf_registry(v),
    ensures
        wf_registry(spec_edit_name(v, i, text)),
{
    if 0 <= i < v.tasks.len() && v.tasks[i].state == TaskState::Editing {
        lemma_name_only_update_wf(v, i, TaskView { name: text, ..v.tasks[i] });
    }
}

pub proof fn lemma_commit_edit_wf(v: RegistryView, i: int)
    requires
        wf_registry(v),
    ensures
        wf_registry(spec_commit_edit(v, i)),
{
    if 0 <= i < v.tasks.len() && v.tasks[i].state == TaskState::Editing {
        let t = v.tasks[i];
        let (tag, name) = spec_split_input(t.name);
        if spec_trim(name).len() > 0 {
            lemma_name_only_update_wf(
                v,
                i,
                TaskView { name: name, tag: tag, pending_name: name, state: TaskState::Idle, ..t },
            );
        }
    }
}

pub proof fn lemma_cancel_edit_wf(v: RegistryView, i: int)
    requires
        wf_registry(v),
    ensures
        wf_registry(spec_cancel_edit(v, i)),
{
    if 0 <= i < v.tasks.len() {
        let t = v.tasks[i];
        lemma_name_only_update_wf(
            v,
            i,
            TaskView { name: t.pending_name, state: TaskState::Idle, ..t },
        );
    }
}

pub proof fn lemma_create_wf(v: RegistryView, text: Seq<char>, set_active: bool, id: u128, now: u64)
    requires
        wf_registry(v),
    ensures
        wf_registry(spec_create(v, text, set_active, id, now)),
{
    if spec_valid_input(text) {
        let fresh = spec_new_task(id, text, set_active, now);
        lemma_new_task_wf(id, text, set_active, now);
        if set_active {
            lemma_stop_all(v.tasks, now);
            let base = spec_stop_all(v.tasks, now);
            let ts2 = base.push(fresh);
            assert forall|k: int| 0 <= k < ts2.len() implies wf_task(#[trigger] ts2[k]) by {
                if k < base.len() {
                    assert(ts2[k] == base[k]);
                } else {
                    assert(ts2[k] == fresh);
                }
            }
            lemma_count_where_push(base, fresh, |t: TaskView| is_active_task(t));
            lemma_count_where_push(base, fresh, |t: TaskView| is_editing_task(t));
        } else {
            let ts2 = v.tasks.push(fresh);
            assert forall|k: int| 0 <= k < ts2.len() implies wf_task(#[trigger] ts2[k]) by {
                if k < v.tasks.len() {
                    assert(ts2[k] == v.tasks[k]);
                } else {
                    assert(ts2[k] == fresh);
                }
            }
            lemma_count_where_push(v.tasks, fresh, |t: TaskView| is_active_task(t));
            lemma_count_where_push(v.tasks, fresh, |t: TaskView| is_editing_task(t));
        }
    }
}

impl Registry {
    /// An empty registry: no tasks, a clear input buffer, nothing to save.
    pub fn new() -> (r: Registry)
        ensures
            r@ == (RegistryView {
                tasks: Seq::empty(),
                input_value: Seq::empty(),
                is_dirty: false,
                is_saving: false,
                last_saved: None,
            }),
            wf_registry(r@),
    {
        let r = Registry {
            tasks: Vec::new(),
            input_value: String::new(),
            is_dirty: false,
            is_saving: false,
            last_saved: None,
        };
        proof {
            assert(r@ =~~= (RegistryView {
                tasks: Seq::empty(),
                input_value: Seq::empty(),
                is_dirty: false,
                is_saving: false,
                last_saved: None,
            }));
        }
        r
    }

    /// A registry owning the given tasks, as after a load: clean and idle.
    pub fn from_tasks(tasks: Vec<Task>) -> (r: Registry)
        ensures
            r@ == (RegistryView {
                tasks: tasks@.map_values(|t: Task| t@),
                input_value: Seq::empty(),
                is_dirty: false,
                is_saving: false,
                last_saved: None,
            }),
    {
        let r = Registry {
            tasks,
            input_value: String::new(),
            is_dirty: false,
            is_saving: false,
            last_saved: None,
        };
        proof {
            assert(r@ =~~= (RegistryView {
                tasks: r.tasks@.map_values(|t: Task| t@),
                input_value: Seq::empty(),
                is_dirty: false,
                is_saving: false,
                last_saved: None,
            }));
        }
        r
    }

    /// Replaces the transient new-task input buffer.
    pub fn input_changed(&mut self, text: String)
        ensures
            final(self)@ == spec_input_changed(old(self)@, text@),
            wf_registry(old(self)@) ==> wf_registry(final(self)@),
    {
        self.input_value = text;
        proof {
            assert(self@ =~~= spec_input_changed(old(self)@, self.input_value@));
        }
    }

    /// Stops every task, leaving the rest of the registry as it is.
    fn stop_all(&mut self, now: u64)
        ensures
            final(self)@ == (RegistryView {
                tasks: spec_stop_all(old(self)@.tasks, now),
                ..old(self)@
            }),
    {
        let ghost orig = self@.tasks;
        let n = self.tasks.len();
        let mut j: usize = 0;
        while j < n
            invariant
                j <= n,
                n == self.tasks.len(),
                orig.len() == n,
                forall|k: int|
                    0 <= k < j ==> (#[trigger] self.tasks@[k])@ == spec_task_stop(orig[k], now),
                forall|k: int| j <= k < n ==> (#[trigger] self.tasks@[k])@ == orig[k],
                self.input_value@ == old(self)@.input_value,
                self.is_dirty == old(self).is_dirty,
                self.is_saving == old(self).is_saving,
                self.last_saved == old(self).last_saved,
                orig == old(self)@.tasks,
            decreases n - j,
        {
            self.tasks[j].stop(now);
            j = j + 1;
        }
        proof {
            assert(self@.tasks =~= spec_stop_all(orig, now));
            assert(self@ =~~= (RegistryView { tasks: spec_stop_all(orig, now), ..old(self)@ }));
        }
    }

    /// The start command: stops every other running task, then opens a fresh
    /// span on task `i`. A stale index or an already running task is a no-op.
    pub fn start_task(&mut self, i: usize, now: u64)
        ensures
            final(self)@ == spec_start(old(self)@, i as int, now),
            wf_registry(old(self)@) ==> wf_registry(final(self)@),
    {
        proof {
            if wf_registry(old(self)@) {
                lemma_start_wf(old(self)@, i as int, now);
            }
        }
        let n = self.tasks.len();
        if i < n && !self.tasks[i].is_active {
            self.stop_all(now);
            proof {
                assert(self@.tasks == spec_stop_all(old(self)@.tasks, now));
                assert(self@.tasks.len() == old(self)@.tasks.len());
                assert(self.tasks@.len() == self@.tasks.len());
            }
            self.tasks[i].start(now);
            self.is_dirty = true;
            proof {
                assert(self@.tasks =~= spec_start(old(self)@, i as int, now).tasks);
                assert(self@ =~~= spec_start(old(self)@, i as int, now));
            }
        }
    }

    /// The stop command: closes the open span of task `i`. A stale index or
    /// an idle task is a no-op.
    pub fn stop_task(&mut self, i: usize, now: u64)
        ensures
            final(self)@ == spec_stop(old(self)@, i as int, now),
            wf_registry(old(self)@) ==> wf_registry(final(self)@),
    {
        proof {
            if wf_registry(old(self)@) {
                lemma_stop_wf(old(self)@, i as int, now);
            }
        }
        let n = self.tasks.len();
        if i < n && self.tasks[i].is_active {
            self.tasks[i].stop(now);
            self.is_dirty = true;
            proof {
                assert(self@.tasks =~= spec_stop(old(self)@, i as int, now).tasks);
                assert(self@ =~~= spec_stop(old(self)@, i as int, now));
            }
        }
    }

    /// The delete command: removes task `i` outright. A stale index is a
    /// no-op.
    pub fn delete_task(&mut self, i: usize)
        ensures
            final(self)@ == spec_delete(old(self)@, i as int),
            wf_registry(old(self)@) ==> wf_registry(final(self)@),
    {
        proof {
            if wf_registry(old(self)@) {
                lemma_delete_wf(old(self)@, i as int);
            }
        }
        let n = self.tasks.len();
        if i < n {
            self.tasks.remove(i);
            self.is_dirty = true;
            proof {
                assert(self@.tasks =~= spec_delete(old(self)@, i as int).tasks);
                assert(self@ =~~= spec_delete(old(self)@, i as int));
            }
        }
    }

    /// The begin-edit command: closes every other edit, then opens task `i`
    /// for renaming.
    pub fn begin_edit(&mut self, i: usize)
        ensures
            final(self)@ == spec_begin_edit(old(self)@, i as int),
            wf_registry(old(self)@) ==> wf_registry(final(self)@),
    {
        proof {
            if wf_registry(old(self)@) {
                lemma_begin_edit_wf(old(self)@, i as int);
            }
        }
        let ghost orig = self@.tasks;
        let ghost cleared = orig.map_values(|t: TaskView| TaskView { state: TaskState::Idle, ..t });
        let n = self.tasks.len();
        let mut j: usize = 0;
        while j < n
            invariant
                j <= n,
                n == self.tasks.len(),
                orig.len() == n,
                forall|k: int| 0 <= k < j ==> (#[trigger] self.tasks@[k])@ == cleared[k],
                forall|k: int| j <= k < n ==> (#[trigger] self.tasks@[k])@ == orig[k],
                self.input_value@ == old(self)@.input_value,
                self.is_dirty == old(self).is_dirty,
                self.is_saving == old(self).is_saving,
                self.last_saved == old(self).last_saved,
                orig == old(self)@.tasks,
                cleared == orig.map_values(|t: TaskView| TaskView { state: TaskState::Idle, ..t }),
            decreases n - j,
        {
            let t = &mut self.tasks[j];
            t.state = TaskState::Idle;
            j = j + 1;
        }
        if i < n {
            let t = &mut self.tasks[i];
            t.state = TaskState::Editing;
        }
        self.is_dirty = true;
        proof {
            assert(self@.tasks =~= spec_begin_edit(old(self)@, i as int).tasks);
            assert(self@ =~~= spec_begin_edit(old(self)@, i as int));
        }
    }

    /// The live rename while task `i` is being edited; ignored otherwise.
    pub fn edit_name(&mut self, i: usize, text: String)
        ensures
            final(self)@ == spec_edit_name(old(self)@, i as int, text@),
            wf_registry(old(self)@) ==> wf_registry(final(self)@),
    {
        proof {
            if wf_registry(old(self)@) {
                lemma_edit_name_wf(old(self)@, i as int, text@);
            }
        }
        let n = self.tasks.len();
        if i < n && self.tasks[i].state == TaskState::Editing {
            let t = &mut self.tasks[i];
            t.name = text;
            self.is_dirty = true;
            proof {
                assert(self@.tasks =~= spec_edit_name(old(self)@, i as int, text@).tasks);
                assert(self@ =~~= spec_edit_name(old(self)@, i as int, text@));
            }
        }
    }

    /// The commit command: splits the live name into tag and name again and
    /// commits them, unless the name would be empty once trimmed, in which
    /// case nothing changes and the task stays in editing.
    pub fn commit_edit(&mut self, i: usize)
        ensures
            final(self)@ == spec_commit_edit(old(self)@, i as int),
            wf_registry(old(self)@) ==> wf_registry(final(self)@),
    {
        proof {
            if wf_registry(old(self)@) {
                lemma_commit_edit_wf(old(self)@, i as int);
            }
        }
        let n = self.tasks.len();
        if i < n && self.tasks[i].state == TaskState::Editing {
            let (tag, name) = split_task_input(self.tasks[i].name.as_str());
            let trimmed = trim_str(name.as_str());
            if trimmed.as_str().unicode_len() > 0 {
                let pending = name.clone();
                let t = &mut self.tasks[i];
                t.name = name;
                t.tag = tag;
                t.pending_name = pending;
                t.state = TaskState::Idle;
                self.is_dirty = true;
                proof {
                    assert(self@.tasks =~= spec_commit_edit(old(self)@, i as int).tasks);
                    assert(self@ =~~= spec_commit_edit(old(self)@, i as int));
                }
            }
        }
    }

    /// The cancel command: the name falls back to the last committed name and
    /// editing ends.
    pub fn cancel_edit(&mut self, i: usize)
        ensures
            final(self)@ == spec_cancel_edit(old(self)@, i as int),
            wf_registry(old(self)@) ==> wf_registry(final(self)@),
    {
        proof {
            if wf_registry(old(self)@) {
                lemma_cancel_edit_wf(old(self)@, i as int);
            }
        }
        let n = self.tasks.len();
        if i < n {
            let t = &mut self.tasks[i];
            let restored = t.pending_name.clone();
            t.name = restored;
            t.state = TaskState::Idle;
            self.is_dirty = true;
            proof {
                assert(self@.tasks =~= spec_cancel_edit(old(self)@, i as int).tasks);
                assert(self@ =~~= spec_cancel_edit(old(self)@, i as int));
            }
        }
    }

    /// The create command: rejects input whose trimmed name is empty, else
    /// appends a new task in creation order. The fresh identifier comes from
    /// the id generator, so only its existence is promised.
    pub fn create(&mut self, text: &str, set_active: bool, now: u64) -> (created: bool)
        ensures
            created == spec_valid_input(text@),
            created ==> exists|id: u128|
                final(self)@ == spec_create(old(self)@, text@, set_active, id, now),
            !created ==> final(self)@ == old(self)@,
            wf_registry(old(self)@) ==> wf_registry(final(self)@),
    {
        if valid_task_input(text) {
            if set_active {
                self.stop_all(now);
            }
            let id = fresh_id();
            let t = Task::new(id, text, set_active, now);
            self.tasks.push(t);
            self.is_dirty = true;
            proof {
                if wf_registry(old(self)@) {
                    lemma_create_wf(old(self)@, text@, set_active, id, now);
                }
                assert(self@.tasks =~= spec_create(
                    old(self)@,
                    text@,
                    set_active,
                    id,
                    now,
                ).tasks);
                assert(self@ =~~= spec_create(old(self)@, text@, set_active, id, now));
            }
            true
        } else {
            false
        }
    }

    /// Creates a task from the input buffer and clears the buffer, rejecting
    /// invalid buffer text.
    pub fn create_from_input(&mut self, set_active: bool, now: u64) -> (created: bool)
        ensures
            created == spec_valid_input(old(self)@.input_value),
            created ==> exists|id: u128|
                final(self)@ == spec_input_changed(
                    spec_create(old(self)@, old(self)@.input_value, set_active, id, now),
                    Seq::empty(),
                ),
            !created ==> final(self)@ == old(self)@,
            wf_registry(old(self)@) ==> wf_registry(final(self)@),
    {
        let text = self.input_value.clone();
        let created = self.create(text.as_str(), set_active, now);
        let ghost mid = self@;
        if created {
            self.input_value = String::new();
            proof {
                let id = choose|id: u128|
                    mid == #[trigger] spec_create(old(self)@, text@, set_active, id, now);
                assert(self@ =~~= spec_input_changed(
                    spec_create(old(self)@, old(self)@.input_value, set_active, id, now),
                    Seq::empty(),
                ));
            }
        }
        created
    }

    /// The command dispatch at the instant the wall clock reads now. The
    /// clock value itself is unknown; the step taken is `spec_update` at
    /// whatever instant came back.
    pub fn update_now(&mut self, i: usize, message: TaskMessage)
        ensures
            exists|now: u64|
                final(self)@ == #[trigger] spec_update(old(self)@, i as int, message, now),
            wf_registry(old(self)@) ==> wf_registry(final(self)@),
    {
        let now = crate::clock::now_instant();
        self.update(i, message, now);
    }

    /// The command dispatch for one task row: the single choke point every
    /// per-task mutation goes through.
    pub fn update(&mut self, i: usize, message: TaskMessage, now: u64)
        ensures
            final(self)@ == spec_update(old(self)@, i as int, message, now),
            wf_registry(old(self)@) ==> wf_registry(final(self)@),
    {
        match message {
            TaskMessage::Edit => self.begin_edit(i),
            TaskMessage::NameEdited(text) => self.edit_name(i, text),
            TaskMessage::EditCompleted => self.commit_edit(i),
            TaskMessage::EditCanceled => self.cancel_edit(i),
            TaskMessage::Delete => self.delete_task(i),
            TaskMessage::Start => self.start_task(i, now),
            TaskMessage::Stop => self.stop_task(i, now),
        }
    }
}

/// Every command preserves the registry invariant.
pub proof fn lemma_update_wf(v: RegistryView, i: int, msg: TaskMessage, now: u64)
    requires
        wf_registry(v),
    ensures
        wf_registry(spec_update(v, i, msg, now)),
{
    match msg {
        TaskMessage::Edit => lemma_begin_edit_wf(v, i),
        TaskMessage::NameEdited(text) => lemma_edit_name_wf(v, i, text@),
        TaskMessage::EditCompleted => lemma_commit_edit_wf(v, i),
        TaskMessage::EditCanceled => lemma_cancel_edit_wf(v, i),
        TaskMessage::Delete => lemma_delete_wf(v, i),
        TaskMessage::Start => lemma_start_wf(v, i, now),
        TaskMessage::Stop => lemma_stop_wf(v, i, now),
    }
}

/// One start or stop command aimed at a task index at some instant.
pub enum StartStopCmd {
    Start(usize, u64),
    Stop(usize, u64),
}

/// The registry after a whole sequence of start/stop commands.
pub open spec fn spec_apply_start_stop(v: RegistryView, cmds: Seq<StartStopCmd>) -> RegistryView
    decreases cmds.len(),
{
    if cmds.len() == 0 {
        v
    } else {
        let v1 = match cmds[0] {
            StartStopCmd::Start(i, now) => spec_start(v, i as int, now),
            StartStopCmd::Stop(i, now) => spec_stop(v, i as int, now),
        };
        spec_apply_start_stop(v1, cmds.drop_first())
    }
}

/// Law: every sequence of start and stop commands keeps the registry
/// invariant, so at most one task is active after any such sequence — and,
/// since the sequence is arbitrary, at any point along the way.
pub proof fn lemma_single_active_preserved(v: RegistryView, cmds: Seq<StartStopCmd>)
    requires
        wf_registry(v),
    ensures
        wf_registry(spec_apply_start_stop(v, cmds)),
        count_active(spec_apply_start_stop(v, cmds).tasks) <= 1,
    decreases cmds.len(),
{
    if cmds.len() > 0 {
        let v1 = match cmds[0] {
            StartStopCmd::Start(i, now) => spec_start(v, i as int, now),
            StartStopCmd::Stop(i, now) => spec_stop(v, i as int, now),
        };
        match cmds[0] {
            StartStopCmd::Start(i, now) => lemma_start_wf(v, i as int, now),
            StartStopCmd::Stop(i, now) => lemma_stop_wf(v, i as int, now),
        }
        lemma_single_active_preserved(v1, cmds.drop_first());
    }
}

/// Law: a stop right after a start on the same idle task adds exactly one
/// closed span whose duration is the difference of the two instants, and
/// leaves the task idle.
pub proof fn lemma_start_then_stop(v: RegistryView, i: int, t1: u64, t2: u64)
    requires
        wf_registry(v),
        0 <= i < v.tasks.len(),
        !v.tasks[i].is_active,
        t1 <= t2,
    ensures
        ({
            let v2 = spec_stop(spec_start(v, i, t1), i, t2);
            &&& v2.tasks[i].hours == v.tasks[i].hours.push(
                TaskHours { duration: (t2 - t1) as u64, end: Some(t2), start: Some(t1) },
            )
            &&& !v2.tasks[i].is_active
        }),
{
    let v1 = spec_start(v, i, t1);
    assert(v1.tasks[i] == spec_task_start(spec_stop_all(v.tasks, t1)[i], t1));
    assert(spec_stop_all(v.tasks, t1)[i] == spec_task_stop(v.tasks[i], t1));
    assert(spec_task_stop(v.tasks[i], t1) == v.tasks[i]);
    let started = spec_task_start(v.tasks[i], t1);
    assert(v1.tasks[i] == started);
    assert(started.hours == v.tasks[i].hours.push(spec_hours_new(t1)));
    let v2 = spec_stop(v1, i, t2);
    assert(v1.tasks.len() == v.tasks.len());
    assert(v2.tasks[i] == spec_task_stop(started, t2));
    let n = started.hours.len();
    assert(started.hours.last() == spec_hours_new(t1));
    assert(spec_close_hours(spec_hours_new(t1), t2) == (TaskHours {
        duration: (t2 - t1) as u64,
        end: Some(t2),
        start: Some(t1),
    }));
    assert(spec_task_stop(started, t2).hours =~= v.tasks[i].hours.push(
        TaskHours { duration: (t2 - t1) as u64, end: Some(t2), start: Some(t1) },
    ));
}

/// Law: starting task `b` while task `a` runs stops `a` first — afterwards
/// `a` is idle with its last span closed, and `b` runs with an open last
/// span.
pub proof fn lemma_start_stops_other(v: RegistryView, a: int, b: int, now: u64)
    requires
        wf_registry(v),
        0 <= a < v.tasks.len(),
        0 <= b < v.tasks.len(),
        a != b,
        v.tasks[a].is_active,
        !v.tasks[b].is_active,
    ensures
        ({
            let v2 = spec_start(v, b, now);
            &&& !v2.tasks[a].is_active
            &&& v2.tasks[a].hours.len() > 0
            &&& v2.tasks[a].hours.last().end is Some
            &&& v2.tasks[b].is_active
            &&& v2.tasks[b].hours.len() > 0
            &&& v2.tasks[b].hours.last().end is None
        }),
{
    let v2 = spec_start(v, b, now);
    let stopped = spec_stop_all(v.tasks, now);
    lemma_stop_all(v.tasks, now);
    assert(v2.tasks[a] == spec_task_stop(v.tasks[a], now));
    lemma_task_stop_wf(v.tasks[a], now);
    assert(wf_task(v.tasks[a]));
    assert(v.tasks[a].hours.len() > 0);
    assert(v2.tasks[a].hours.len() == v.tasks[a].hours.len());
    assert(v2.tasks[a].hours.last() == spec_close_hours(v.tasks[a].hours.last(), now));
    assert(v2.tasks[b] == spec_task_start(stopped[b], now));
    assert(stopped[b] == spec_task_stop(v.tasks[b], now));
    assert(stopped[b] == v.tasks[b]);
    assert(v2.tasks[b].hours.last() == spec_hours_new(now));
}

/// Law: a cancel after any live rename restores exactly the last committed
/// name and ends the edit; nothing else of the task changes.
pub proof fn lemma_edit_then_cancel(v: RegistryView, i: int, text: Seq<char>)
    requires
        0 <= i < v.tasks.len(),
        v.tasks[i].state == TaskState::Editing,
    ensures
        ({
            let v2 = spec_cancel_edit(spec_edit_name(v, i, text), i);
            &&& v2.tasks[i].name == v.tasks[i].pending_name
            &&& v2.tasks[i].state == TaskState::Idle
            &&& v2.tasks[i].id == v.tasks[i].id
            &&& v2.tasks[i].tag == v.tasks[i].tag
            &&& v2.tasks[i].pending_name == v.tasks[i].pending_name
            &&& v2.tasks[i].hours == v.tasks[i].hours
            &&& v2.tasks[i].is_active == v.tasks[i].is_active
        }),
{
    let v1 = spec_edit_name(v, i, text);
    assert(v1.tasks[i] == (TaskView { name: text, ..v.tasks[i] }));
}

/// Law: a commit while the live name is empty changes nothing; the task
/// stays in editing.
pub proof fn lemma_commit_empty_rejected(v: RegistryView, i: int)
    requires
        0 <= i < v.tasks.len(),
        v.tasks[i].state == TaskState::Editing,
        v.tasks[i].name.len() == 0,
    ensures
        spec_commit_edit(v, i) == v,
        spec_commit_edit(v, i).tasks[i].state == TaskState::Editing,
{
    let name = v.tasks[i].name;
    assert(crate::parse::find_colon(name, 0) is None);
    let (tag, nm) = spec_split_input(name);
    assert(nm == name);
    assert(crate::parse::first_nonspace(nm, 0) == 0);
    assert(crate::parse::last_nonspace_end(nm, 0) == 0);
    assert(spec_trim(nm).len() == 0);
}

} // verus!
