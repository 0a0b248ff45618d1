//! The persistence controller: dirty/saving coordination and save
//! throttling.
//!
//! A save begins only when the registry is dirty, no save is in flight, and
//! the minimum interval since the last successful save has passed. Beginning
//! a save clears the dirty flag, raises the saving flag, and hands out a deep
//! snapshot of the task list; completion lowers the saving flag and, on
//! success, records the save instant. A mutation arriving while a save is in
//! flight only re-raises the dirty flag, so the next save carries it: no
//! mutation is lost and at most one save is in flight at a time. The file
//! I/O itself lives outside the library; the caller performs it on the
//! snapshot and reports completion back.

use vstd::prelude::*;

use crate::registry::{wf_registry, Registry, RegistryView};
use crate::task::{Task, TaskView};

verus! {

/// Seconds that must pass after a successful save before the next begins.
pub const MIN_SAVE_INTERVAL: u64 = 2;

/// The errors a load can report. A missing store is first-run, not a fault;
/// content that does not parse back is a format error.
#[derive(Debug, Clone, Copy, PartialEq, Eq, Structural)]
pub enum LoadError {
    Missing,
    Format,
}

/// The errors a save can report, by the step that failed.
#[derive(Debug, Clone, Copy, PartialEq, Eq, Structural)]
pub enum SaveError {
    DirectoryCreateFailed,
    WriteFailed,
    FormatFailed,
}

/// Whether the throttle window since the last successful save has passed.
pub open spec fn throttle_elapsed(v: RegistryView, now: u64) -> bool {
    match v.last_saved {
        None => true,
        Some(t) => now >= t && now - t >= MIN_SAVE_INTERVAL,
    }
}

/// Whether a save may begin now.
pub open spec fn save_allowed(v: RegistryView, now: u64) -> bool {
    v.is_dirty && !v.is_saving && throttle_elapsed(v, now)
}

/// The controller step that tries to begin a save: the snapshot it hands out
/// (if any) and the registry afterwards.
pub open spec fn spec_try_begin_save(v: RegistryView, now: u64) -> (
    Option<Seq<TaskView>>,
    RegistryView,
) {
    if save_allowed(v, now) {
        (Some(v.tasks), RegistryView { is_dirty: false, is_saving: true, ..v })
    } else {
        (None, v)
    }
}

/// The controller step when a save completes: the saving flag falls, and a
/// successful save stamps the throttle clock.
pub open spec fn spec_save_completed(v: RegistryView, success: bool, now: u64) -> RegistryView {
    RegistryView {
        is_saving: false,
        last_saved: if success {
            Some(now)
        } else {
            v.last_saved
        },
        ..v
    }
}

/// A mutation that marks the registry dirty without touching the
/// controller's own fields — the shape of every engine command that changes
/// persisted state.
pub open spec fn spec_dirty_mutation(pre: RegistryView, post: RegistryView) -> bool {
    &&& post.is_dirty
    &&& post.is_saving == pre.is_saving
    &&& post.last_saved == pre.last_saved
}

/// Every engine command leaves the controller's fields alone, and marks the
/// registry dirty whenever it changes persisted state.
pub proof fn lemma_update_keeps_controller_fields(
    v: RegistryView,
    i: int,
    msg: crate::task::TaskMessage,
    now: u64,
)
    ensures
        crate::registry::spec_update(v, i, msg, now).is_saving == v.is_saving,
        crate::registry::spec_update(v, i, msg, now).last_saved == v.last_saved,
        crate::registry::spec_update(v, i, msg, now).tasks != v.tasks
            ==> crate::registry::spec_update(v, i, msg, now).is_dirty,
{
}

/// Law: two dirty mutations within the minimum interval of the last
/// successful save begin no save while the window lasts; the first attempt
/// after the window begins exactly one save, and its snapshot is the state
/// as of the second mutation.
pub proof fn lemma_save_coalescing(
    v0: RegistryView,
    v1: RegistryView,
    v2: RegistryView,
    t0: u64,
    t1: u64,
    t2: u64,
    t3: u64,
)
    requires
        v0.last_saved == Some(t0),
        !v0.is_saving,
        spec_dirty_mutation(v0, v1),
        spec_dirty_mutation(v1, v2),
        t1 < t0 + MIN_SAVE_INTERVAL,
        t2 < t0 + MIN_SAVE_INTERVAL,
        t3 >= t0 + MIN_SAVE_INTERVAL,
    ensures
        spec_try_begin_save(v1, t1).0 is None,
        spec_try_begin_save(v1, t1).1 == v1,
        spec_try_begin_save(v2, t2).0 is None,
        spec_try_begin_save(v2, t2).1 == v2,
        spec_try_begin_save(v2, t3).0 == Some(v2.tasks),
        !spec_try_begin_save(v2, t3).1.is_dirty,
        spec_try_begin_save(v2, t3).1.is_saving,
{
}

impl Registry {
    /// A deep snapshot of the task list, value-equal to the live one.
    pub fn snapshot_tasks(&self) -> (r: Vec<Task>)
        ensures
            r@.map_values(|t: Task| t@) == self@.tasks,
    {
        let mut out: Vec<Task> = Vec::new();
        let n = self.tasks.len();
        let mut k: usize = 0;
        while k < n
            invariant
                k <= n,
                n == self.tasks.len(),
                out@.len() == k,
                forall|j: int| 0 <= j < k ==> (#[trigger] out@[j])@ == self.tasks@[j]@,
            decreases n - k,
        {
            out.push(self.tasks[k].duplicate());
            k = k + 1;
        }
        proof {
            assert(out@.map_values(|t: Task| t@) =~= self@.tasks);
        }
        out
    }

    /// Tries to begin a save at `now`. A snapshot comes back exactly when
    /// the registry is dirty, no save is in flight, and the throttle window
    /// has passed; beginning the save clears the dirty flag and raises the
    /// saving flag.
    pub fn try_begin_save(&mut self, now: u64) -> (r: Option<Vec<Task>>)
        ensures
            (r is Some) == save_allowed(old(self)@, now),
            r matches Some(snap) ==> snap@.map_values(|t: Task| t@) == old(self)@.tasks
                && final(self)@ == spec_try_begin_save(old(self)@, now).1,
            r is None ==> final(self)@ == old(self)@,
            final(self)@.tasks == old(self)@.tasks,
            wf_registry(old(self)@) ==> wf_registry(final(self)@),
    {
        let allowed = self.is_dirty && !self.is_saving && match self.last_saved {
            None => true,
            Some(t) => now >= t && now - t >= MIN_SAVE_INTERVAL,
        };
        if allowed {
            let snap = self.snapshot_tasks();
            self.is_dirty = false;
            self.is_saving = true;
            proof {
                assert(self@ =~~= spec_try_begin_save(old(self)@, now).1);
            }
            Some(snap)
        } else {
            None
        }
    }

    /// Records that the save in flight finished. Success or failure, the
    /// saving flag falls so a later dirty mutation can retry; only success
    /// stamps the throttle clock.
    pub fn save_completed(&mut self, success: bool, now: u64)
        ensures
            final(self)@ == spec_save_completed(old(self)@, success, now),
            wf_registry(old(self)@) ==> wf_registry(final(self)@),
    {
        self.is_saving = false;
        if success {
            self.last_saved = Some(now);
        }
        proof {
            assert(self@ =~~= spec_save_completed(old(self)@, success, now));
        }
    }
}

} // verus!
