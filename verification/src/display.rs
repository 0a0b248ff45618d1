//! Accumulated durations and their `HH:MM` display form.
//!
//! A task's total is the sum of the durations of its closed spans, plus the
//! live elapsed time of an open span. Including the live part is a deliberate
//! policy: the stored model never changes while a task runs, and the caller
//! passes the current instant whenever it wants a display value. Totals that
//! would not fit a machine word saturate. The display form is
//! `HH:MM` with minutes below sixty and hours zero-padded to two digits.

use vstd::prelude::*;

use crate::decimal::{
    lemma_ndigits_bound, lemma_pow10_mono, ndigits, num_digits, push_digits, spec_digits,
};
use crate::registry::Registry;
use crate::task::{Task, TaskHours, TaskState, TaskView};

verus! {

/// The sum of the durations of the closed spans.
pub open spec fn spec_closed_sum(hs: Seq<TaskHours>) -> nat
    decreases hs.len(),
{
    if hs.len() == 0 {
        0
    } else {
        spec_closed_sum(hs.drop_last()) + (match hs.last().end {
            Some(_) => hs.last().duration as nat,
            None => 0nat,
        })
    }
}

/// The live contribution of an open span at `now`; zero for an idle task and
/// for a clock that moved backwards.
pub open spec fn spec_live_elapsed(t: TaskView, now: u64) -> nat {
    if t.is_active && t.hours.len() > 0 {
        match t.hours.last().start {
            Some(s) => if now >= s {
                (now - s) as nat
            } else {
                0nat
            },
            None => 0nat,
        }
    } else {
        0nat
    }
}

/// The full accumulated total at `now`, in seconds.
pub open spec fn spec_total_seconds(t: TaskView, now: u64) -> nat {
    spec_closed_sum(t.hours) + spec_live_elapsed(t, now)
}

/// `n` capped at the largest machine word.
pub open spec fn spec_saturate(n: nat) -> u64 {
    if n <= u64::MAX {
        n as u64
    } else {
        u64::MAX
    }
}

/// The `HH:MM` form of a total given in seconds: whole minutes split into
/// hours and the minute remainder, both zero-padded to two digits, the hours
/// growing wider when they need more.
pub open spec fn spec_hhmm(total: nat) -> Seq<char> {
    let minutes = total / 60;
    let h = minutes / 60;
    let m = minutes % 60;
    let hw = if ndigits(h) >= 2 {
        ndigits(h)
    } else {
        2nat
    };
    spec_digits(h, hw) + seq![':'] + spec_digits(m, 2)
}

fn saturating_add(a: u64, b: u64) -> (r: u64)
    ensures
        r == spec_saturate(a as nat + b as nat),
{
    if a <= u64::MAX - b {
        a + b
    } else {
        u64::MAX
    }
}

impl Task {
    /// The accumulated total at `now`, in seconds, saturating.
    pub fn total_seconds(&self, now: u64) -> (r: u64)
        ensures
            r == spec_saturate(spec_total_seconds(self@, now)),
    {
        let n = self.hours.len();
        let mut acc: u64 = 0;
        let mut i: usize = 0;
        while i < n
            invariant
                i <= n,
                n == self.hours.len(),
                acc == spec_saturate(spec_closed_sum(self.hours@.subrange(0, i as int))),
            decreases n - i,
        {
            let h = self.hours[i];
            proof {
                assert(self.hours@.subrange(0, i + 1).drop_last() =~= self.hours@.subrange(
                    0,
                    i as int,
                ));
                assert(self.hours@.subrange(0, i + 1).last() == self.hours@[i as int]);
            }
            match h.end {
                Some(_) => {
                    acc = saturating_add(acc, h.duration);
                },
                None => {},
            }
            i = i + 1;
        }
        proof {
            assert(self.hours@.subrange(0, n as int) =~= self.hours@);
        }
        if self.is_active && n > 0 {
            let last = self.hours[n - 1];
            match last.start {
                Some(s) => {
                    if now >= s {
                        acc = saturating_add(acc, now - s);
                    }
                },
                None => {},
            }
        }
        acc
    }
}

/// What the UI renders for one task row: the tag-prefixed display name, the
/// formatted total, and the two state flags.
pub struct TaskSnapshot {
    pub display_name: String,
    pub total: String,
    pub is_active: bool,
    pub state: TaskState,
}

/// The display name: the name, prefixed by `tag:` when there is a tag.
pub open spec fn spec_display_name(t: TaskView) -> Seq<char> {
    match t.tag {
        Some(tg) => tg + seq![':'] + t.name,
        None => t.name,
    }
}

impl Task {
    /// The row rendered for the task at `now`.
    pub fn snapshot(&self, now: u64) -> (r: TaskSnapshot)
        ensures
            r.display_name@ == spec_display_name(self@),
            r.total@ == spec_hhmm(spec_saturate(spec_total_seconds(self@, now)) as nat),
            r.is_active == self.is_active,
            r.state == self.state,
    {
        let display_name = match &self.tag {
            Some(t) => {
                let mut s = t.clone();
                s.append(":");
                s.append(self.name.as_str());
                proof {
                    reveal_strlit(":");
                    assert(":"@ =~= seq![':']);
                    assert(s@ =~= spec_display_name(self@));
                }
                s
            },
            None => self.name.clone(),
        };
        let total = format_hhmm(self.total_seconds(now));
        TaskSnapshot { display_name, total, is_active: self.is_active, state: self.state }
    }
}

impl Registry {
    /// The rows rendered for the whole task list at `now`, in creation
    /// order.
    pub fn snapshot(&self, now: u64) -> (r: Vec<TaskSnapshot>)
        ensures
            r@.len() == self@.tasks.len(),
            forall|i: int| 0 <= i < r@.len() ==> {
                let row = #[trigger] r@[i];
                let t = self@.tasks[i];
                &&& row.display_name@ == spec_display_name(t)
                &&& row.total@ == spec_hhmm(spec_saturate(spec_total_seconds(t, now)) as nat)
                &&& row.is_active == t.is_active
                &&& row.state == t.state
            },
    {
        let mut out: Vec<TaskSnapshot> = Vec::new();
        let n = self.tasks.len();
        let mut k: usize = 0;
        while k < n
            invariant
                k <= n,
                n == self.tasks.len(),
                out@.len() == k,
                forall|i: int| 0 <= i < k ==> {
                    let row = #[trigger] out@[i];
                    let t = self.tasks@[i]@;
                    &&& row.display_name@ == spec_display_name(t)
                    &&& row.total@ == spec_hhmm(spec_saturate(spec_total_seconds(t, now)) as nat)
                    &&& row.is_active == t.is_active
                    &&& row.state == t.state
                },
            decreases n - k,
        {
            let row = self.tasks[k].snapshot(now);
            out.push(row);
            k = k + 1;
        }
        out
    }
}

/// Appends the `HH:MM` form of a second total to `out`.
pub fn push_hhmm(out: &mut String, total: u64)
    ensures
        final(out)@ == old(out)@ + spec_hhmm(total as nat),
{
    let minutes = total / 60;
    let h = minutes / 60;
    let m = minutes % 60;
    let hd = num_digits(h);
    let hw = if hd >= 2 {
        hd
    } else {
        2
    };
    proof {
        lemma_ndigits_bound(h as nat);
        lemma_pow10_mono(ndigits(h as nat), hw as nat);
    }
    push_digits(out, h, hw);
    out.append(":");
    push_digits(out, m, 2);
    proof {
        reveal_strlit(":");
        assert(":"@ =~= seq![':']);
        assert(out@ =~= old(out)@ + spec_hhmm(total as nat));
    }
}

/// The `HH:MM` display form of a second total.
pub fn format_hhmm(total: u64) -> (r: String)
    ensures
        r@ == spec_hhmm(total as nat),
{
    let mut out = String::new();
    push_hhmm(&mut out, total);
    proof {
        assert(Seq::<char>::empty() + spec_hhmm(total as nat) =~= spec_hhmm(total as nat));
    }
    out
}

} // verus!
