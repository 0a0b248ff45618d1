//! The store codec: the task list as one durable text document.
//!
//! The document is a fixed layout of decimal numerals, flag characters and
//! raw text: a task count, then per task an identifier (optional on read, to
//! tolerate stores written before identifiers existed), a length-prefixed
//! name, an optional length-prefixed tag, the active flag, and the span
//! records. Only persisted fields appear: the edit state and the committed
//! name are transient and reset on load. Reading is exact: a document either
//! parses back to the values that were written, or it is rejected as a
//! format error; and loading what saving wrote is proved to reconstruct the
//! same task list.

use vstd::prelude::*;

use crate::decimal::{
    all_digits, lemma_digits_roundtrip, lemma_pow10_20, lemma_spec_digits_all_digits,
    lemma_spec_digits_len, spec_digits, spec_digits_val,
};
use crate::task::{Task, TaskHours, TaskState, TaskView};

verus! {

/// The numeral width of every number in the document.
pub const NUM_WIDTH: usize = 20;

/// One u128 identifier splits into two machine words around this base.
pub const ID_BASE: u128 = 0x1_0000_0000_0000_0000;

pub open spec fn spec_id_hi(id: u128) -> u64 {
    (id / ID_BASE) as u64
}

pub open spec fn spec_id_lo(id: u128) -> u64 {
    (id % ID_BASE) as u64
}

pub open spec fn spec_id_join(hi: u64, lo: u64) -> u128 {
    (hi * ID_BASE + lo) as u128
}

pub proof fn lemma_id_split_join(id: u128)
    ensures
        spec_id_hi(id) < ID_BASE,
        spec_id_join(spec_id_hi(id), spec_id_lo(id)) == id,
{
    vstd::arithmetic::div_mod::lemma_fundamental_div_mod(id as int, ID_BASE as int);
    vstd::arithmetic::div_mod::lemma_mod_division_less_than_divisor(id as int, ID_BASE as int);
    assert((id as int) / (ID_BASE as int) < ID_BASE as int) by (nonlinear_arith)
        requires
            (id as int) < (ID_BASE as int) * (ID_BASE as int),
            (id as int) == (ID_BASE as int) * ((id as int) / (ID_BASE as int)) + (id as int) % (
            ID_BASE as int),
            0 <= (id as int) % (ID_BASE as int),
    ;
}

// ---------------------------------------------------------------------------
// The encoding, over mathematical values.
// ---------------------------------------------------------------------------

/// A number at the document's fixed numeral width.
pub open spec fn enc_num(n: nat) -> Seq<char> {
    spec_digits(n, NUM_WIDTH as nat)
}

pub open spec fn enc_flag(b: bool) -> Seq<char> {
    if b {
        seq!['1']
    } else {
        seq!['0']
    }
}

pub open spec fn enc_opt_num(o: Option<u64>) -> Seq<char> {
    match o {
        Some(n) => seq!['1'] + enc_num(n as nat),
        None => seq!['0'],
    }
}

/// Text, prefixed by its length so it needs no escaping.
pub open spec fn enc_text(s: Seq<char>) -> Seq<char> {
    enc_num(s.len()) + s
}

pub open spec fn enc_opt_text(o: Option<Seq<char>>) -> Seq<char> {
    match o {
        Some(s) => seq!['1'] + enc_text(s),
        None => seq!['0'],
    }
}

/// One span record: optional start and end instants, then the duration.
pub open spec fn enc_hours(h: TaskHours) -> Seq<char> {
    enc_opt_num(h.start) + enc_opt_num(h.end) + enc_num(h.duration as nat) + seq!['\n']
}

pub open spec fn enc_hours_seq(hs: Seq<TaskHours>) -> Seq<char>
    decreases hs.len(),
{
    if hs.len() == 0 {
        Seq::empty()
    } else {
        enc_hours(hs[0]) + enc_hours_seq(hs.drop_first())
    }
}

/// The persisted fields of one task. The identifier is written as its two
/// machine words; the edit state and the committed name are not persisted.
pub ghost struct TaskRec {
    pub id: Option<u128>,
    pub name: Seq<char>,
    pub tag: Option<Seq<char>>,
    pub is_active: bool,
    pub hours: Seq<TaskHours>,
}

pub open spec fn enc_task_rec(
    id: u128,
    name: Seq<char>,
    tag: Option<Seq<char>>,
    is_active: bool,
    hours: Seq<TaskHours>,
) -> Seq<char> {
    seq!['1'] + enc_num(spec_id_hi(id) as nat) + enc_num(spec_id_lo(id) as nat) + enc_text(name)
        + enc_opt_text(tag) + enc_flag(is_active) + enc_num(hours.len()) + seq!['\n']
        + enc_hours_seq(hours)
}

// ---------------------------------------------------------------------------
// The decoding, over mathematical values. Each reader yields the value and
// the position after it, or nothing when the document is malformed there.
// ---------------------------------------------------------------------------

pub open spec fn dec_char(s: Seq<char>, pos: int, c: char) -> Option<int> {
    if 0 <= pos < s.len() && s[pos] == c {
        Some(pos + 1)
    } else {
        None
    }
}

pub open spec fn dec_num(s: Seq<char>, pos: int) -> Option<(nat, int)> {
    if 0 <= pos && pos + NUM_WIDTH <= s.len() && all_digits(
        s.subrange(pos, pos + NUM_WIDTH),
    ) {
        Some((spec_digits_val(s.subrange(pos, pos + NUM_WIDTH)), pos + NUM_WIDTH))
    } else {
        None
    }
}

pub open spec fn dec_u64(s: Seq<char>, pos: int) -> Option<(u64, int)> {
    match dec_num(s, pos) {
        Some((v, p)) => if v <= u64::MAX {
            Some((v as u64, p))
        } else {
            None
        },
        None => None,
    }
}

pub open spec fn dec_flag(s: Seq<char>, pos: int) -> Option<(bool, int)> {
    if 0 <= pos < s.len() {
        if s[pos] == '1' {
            Some((true, pos + 1))
        } else if s[pos] == '0' {
            Some((false, pos + 1))
        } else {
            None
        }
    } else {
        None
    }
}

pub open spec fn dec_opt_num(s: Seq<char>, pos: int) -> Option<(Option<u64>, int)> {
    match dec_flag(s, pos) {
        Some((true, p)) => match dec_u64(s, p) {
            Some((v, p2)) => Some((Some(v), p2)),
            None => None,
        },
        Some((false, p)) => Some((None, p)),
        None => None,
    }
}

pub open spec fn dec_text(s: Seq<char>, pos: int) -> Option<(Seq<char>, int)> {
    match dec_u64(s, pos) {
        Some((len, p)) => if p + len <= s.len() {
            Some((s.subrange(p, p + len), p + len))
        } else {
            None
        },
        None => None,
    }
}

pub open spec fn dec_opt_text(s: Seq<char>, pos: int) -> Option<(Option<Seq<char>>, int)> {
    match dec_flag(s, pos) {
        Some((true, p)) => match dec_text(s, p) {
            Some((t, p2)) => Some((Some(t), p2)),
            None => None,
        },
        Some((false, p)) => Some((None, p)),
        None => None,
    }
}

pub open spec fn dec_id(s: Seq<char>, pos: int) -> Option<(Option<u128>, int)> {
    match dec_flag(s, pos) {
        Some((true, p)) => match dec_u64(s, p) {
            Some((hi, p1)) => match dec_u64(s, p1) {
                Some((lo, p2)) => Some((Some(spec_id_join(hi, lo)), p2)),
                None => None,
            },
            None => None,
        },
        Some((false, p)) => Some((None, p)),
        None => None,
    }
}

pub open spec fn dec_hours(s: Seq<char>, pos: int) -> Option<(TaskHours, int)> {
    match dec_opt_num(s, pos) {
        Some((start, p1)) => match dec_opt_num(s, p1) {
            Some((end, p2)) => match dec_u64(s, p2) {
                Some((duration, p3)) => match dec_char(s, p3, '\n') {
                    Some(p4) => Some((TaskHours { duration, end, start }, p4)),
                    None => None,
                },
                None => None,
            },
            None => None,
        },
        None => None,
    }
}

pub open spec fn dec_hours_seq(s: Seq<char>, pos: int, count: nat) -> Option<
    (Seq<TaskHours>, int),
>
    decreases count,
{
    if count == 0 {
        Some((Seq::empty(), pos))
    } else {
        match dec_hours(s, pos) {
            Some((h, p)) => match dec_hours_seq(s, p, (count - 1) as nat) {
                Some((rest, p2)) => Some((seq![h] + rest, p2)),
                None => None,
            },
            None => None,
        }
    }
}

pub open spec fn dec_task(s: Seq<char>, pos: int) -> Option<(TaskRec, int)> {
    match dec_id(s, pos) {
        Some((id, p1)) => match dec_text(s, p1) {
            Some((name, p2)) => match dec_opt_text(s, p2) {
                Some((tag, p3)) => match dec_flag(s, p3) {
                    Some((is_active, p4)) => match dec_u64(s, p4) {
                        Some((count, p5)) => match dec_char(s, p5, '\n') {
                            Some(p6) => match dec_hours_seq(s, p6, count as nat) {
                                Some((hours, p7)) => Some(
                                    (TaskRec { id, name, tag, is_active, hours }, p7),
                                ),
                                None => None,
                            },
                            None => None,
                        },
                        None => None,
                    },
                    None => None,
                },
                None => None,
            },
            None => None,
        },
        None => None,
    }
}

pub open spec fn dec_task_seq(s: Seq<char>, pos: int, count: nat) -> Option<(Seq<TaskRec>, int)>
    decreases count,
{
    if count == 0 {
        Some((Seq::empty(), pos))
    } else {
        match dec_task(s, pos) {
            Some((t, p)) => match dec_task_seq(s, p, (count - 1) as nat) {
                Some((rest, p2)) => Some((seq![t] + rest, p2)),
                None => None,
            },
            None => None,
        }
    }
}

/// The whole document: a task count, a break, the task records, nothing
/// after them.
pub open spec fn dec_document(s: Seq<char>) -> Option<Seq<TaskRec>> {
    match dec_u64(s, 0) {
        Some((count, p)) => match dec_char(s, p, '\n') {
            Some(p1) => match dec_task_seq(s, p1, count as nat) {
                Some((recs, p2)) => if p2 == s.len() {
                    Some(recs)
                } else {
                    None
                },
                None => None,
            },
            None => None,
        },
        None => None,
    }
}

// ---------------------------------------------------------------------------
// Reading back what was written.
// ---------------------------------------------------------------------------

/// Splits a window of `s` that holds a concatenation into its two parts.
proof fn lemma_concat_split(s: Seq<char>, pos: int, a: Seq<char>, b: Seq<char>)
    requires
        0 <= pos,
        pos + a.len() + b.len() <= s.len(),
        s.subrange(pos, pos + a.len() + b.len()) == a + b,
    ensures
        s.subrange(pos, pos + a.len()) == a,
        s.subrange(pos + a.len(), pos + a.len() + b.len()) == b,
{
    let w = s.subrange(pos, pos + a.len() + b.len());
    assert(s.subrange(pos, pos + a.len()) =~= a) by {
        assert forall|i: int| 0 <= i < a.len() implies s.subrange(pos, pos + a.len())[i] == a[i] by {
            assert(w[i] == (a + b)[i]);
        }
    }
    assert(s.subrange(pos + a.len(), pos + a.len() + b.len()) =~= b) by {
        assert forall|i: int|
            0 <= i < b.len() implies s.subrange(pos + a.len(), pos + a.len() + b.len())[i]
            == b[i] by {
            assert(w[a.len() + i] == (a + b)[a.len() + i]);
        }
    }
}

proof fn lemma_rt_char(s: Seq<char>, pos: int, c: char)
    requires
        0 <= pos,
        pos + 1 <= s.len(),
        s.subrange(pos, pos + 1) == seq![c],
    ensures
        dec_char(s, pos, c) == Some(pos + 1),
{
    assert(s[pos] == s.subrange(pos, pos + 1)[0]);
}

proof fn lemma_rt_num(s: Seq<char>, pos: int, n: nat)
    requires
        0 <= pos,
        pos + NUM_WIDTH <= s.len(),
        s.subrange(pos, pos + NUM_WIDTH) == enc_num(n),
        n <= u64::MAX,
    ensures
        dec_u64(s, pos) == Some((n as u64, pos + NUM_WIDTH)),
{
    lemma_pow10_20();
    lemma_spec_digits_all_digits(n, NUM_WIDTH as nat);
    lemma_digits_roundtrip(n, NUM_WIDTH as nat);
}

proof fn lemma_rt_flag(s: Seq<char>, pos: int, b: bool)
    requires
        0 <= pos,
        pos + 1 <= s.len(),
        s.subrange(pos, pos + 1) == enc_flag(b),
    ensures
        dec_flag(s, pos) == Some((b, pos + 1)),
{
    assert(s[pos] == s.subrange(pos, pos + 1)[0]);
}

proof fn lemma_enc_num_len(n: nat)
    ensures
        enc_num(n).len() == NUM_WIDTH,
{
    lemma_spec_digits_len(n, NUM_WIDTH as nat);
}

proof fn lemma_rt_opt_num(s: Seq<char>, pos: int, o: Option<u64>)
    requires
        0 <= pos,
        pos + enc_opt_num(o).len() <= s.len(),
        s.subrange(pos, pos + enc_opt_num(o).len()) == enc_opt_num(o),
    ensures
        dec_opt_num(s, pos) == Some((o, pos + enc_opt_num(o).len())),
{
    match o {
        Some(n) => {
            lemma_enc_num_len(n as nat);
            lemma_concat_split(s, pos, seq!['1'], enc_num(n as nat));
            lemma_rt_flag(s, pos, true);
            lemma_rt_num(s, pos + 1, n as nat);
        },
        None => {
            lemma_rt_flag(s, pos, false);
        },
    }
}

proof fn lemma_rt_text(s: Seq<char>, pos: int, t: Seq<char>)
    requires
        0 <= pos,
        pos + enc_text(t).len() <= s.len(),
        s.subrange(pos, pos + enc_text(t).len()) == enc_text(t),
        t.len() <= u64::MAX,
    ensures
        enc_text(t).len() == NUM_WIDTH + t.len(),
        dec_text(s, pos) == Some((t, pos + enc_text(t).len())),
{
    lemma_enc_num_len(t.len());
    lemma_concat_split(s, pos, enc_num(t.len()), t);
    lemma_rt_num(s, pos, t.len());
}

proof fn lemma_rt_opt_text(s: Seq<char>, pos: int, o: Option<Seq<char>>)
    requires
        0 <= pos,
        pos + enc_opt_text(o).len() <= s.len(),
        s.subrange(pos, pos + enc_opt_text(o).len()) == enc_opt_text(o),
        o matches Some(t) ==> t.len() <= u64::MAX,
    ensures
        dec_opt_text(s, pos) == Some((o, pos + enc_opt_text(o).len())),
{
    match o {
        Some(t) => {
            lemma_enc_num_len(t.len());
            lemma_concat_split(s, pos, seq!['1'], enc_text(t));
            lemma_rt_flag(s, pos, true);
            lemma_rt_text(s, pos + 1, t);
        },
        None => {
            lemma_rt_flag(s, pos, false);
        },
    }
}

proof fn lemma_rt_hours(s: Seq<char>, pos: int, h: TaskHours)
    requires
        0 <= pos,
        pos + enc_hours(h).len() <= s.len(),
        s.subrange(pos, pos + enc_hours(h).len()) == enc_hours(h),
    ensures
        dec_hours(s, pos) == Some((h, pos + enc_hours(h).len())),
{
    let a = enc_opt_num(h.start);
    let b = enc_opt_num(h.end);
    let c = enc_num(h.duration as nat);
    lemma_enc_num_len(h.duration as nat);
    assert(enc_hours(h) == a + (b + (c + seq!['\n']))) by {
        assert(enc_hours(h) =~= a + (b + (c + seq!['\n'])));
    }
    lemma_concat_split(s, pos, a, b + (c + seq!['\n']));
    lemma_rt_opt_num(s, pos, h.start);
    let p1 = pos + a.len();
    lemma_concat_split(s, p1, b, c + seq!['\n']);
    lemma_rt_opt_num(s, p1, h.end);
    let p2 = p1 + b.len();
    lemma_concat_split(s, p2, c, seq!['\n']);
    lemma_rt_num(s, p2, h.duration as nat);
    let p3 = p2 + c.len();
    lemma_rt_char(s, p3, '\n');
}

proof fn lemma_rt_hours_seq(s: Seq<char>, pos: int, hs: Seq<TaskHours>)
    requires
        0 <= pos,
        pos + enc_hours_seq(hs).len() <= s.len(),
        s.subrange(pos, pos + enc_hours_seq(hs).len()) == enc_hours_seq(hs),
    ensures
        dec_hours_seq(s, pos, hs.len()) == Some((hs, pos + enc_hours_seq(hs).len())),
    decreases hs.len(),
{
    if hs.len() == 0 {
        assert(hs =~= Seq::<TaskHours>::empty());
    } else {
        let a = enc_hours(hs[0]);
        let b = enc_hours_seq(hs.drop_first());
        lemma_concat_split(s, pos, a, b);
        lemma_rt_hours(s, pos, hs[0]);
        lemma_rt_hours_seq(s, pos + a.len(), hs.drop_first());
        assert(seq![hs[0]] + hs.drop_first() =~= hs);
    }
}

/// The bounds under which a task fits the document layout; every task held
/// in machine memory satisfies them.
pub open spec fn spec_encodable_task(t: TaskView) -> bool {
    &&& t.name.len() <= u64::MAX
    &&& (t.tag matches Some(g) ==> g.len() <= u64::MAX)
    &&& t.hours.len() <= u64::MAX
}

pub open spec fn enc_task(t: TaskView) -> Seq<char> {
    enc_task_rec(t.id, t.name, t.tag, t.is_active, t.hours)
}

pub open spec fn enc_task_seq(ts: Seq<TaskView>) -> Seq<char>
    decreases ts.len(),
{
    if ts.len() == 0 {
        Seq::empty()
    } else {
        enc_task(ts[0]) + enc_task_seq(ts.drop_first())
    }
}

/// The whole document for a task list.
pub open spec fn enc_document(ts: Seq<TaskView>) -> Seq<char> {
    enc_num(ts.len()) + seq!['\n'] + enc_task_seq(ts)
}

/// The record that reading a written task yields: every persisted field, the
/// identifier present.
pub open spec fn spec_rec_of(t: TaskView) -> TaskRec {
    TaskRec { id: Some(t.id), name: t.name, tag: t.tag, is_active: t.is_active, hours: t.hours }
}

proof fn lemma_rt_task(s: Seq<char>, pos: int, t: TaskView)
    requires
        0 <= pos,
        pos + enc_task(t).len() <= s.len(),
        s.subrange(pos, pos + enc_task(t).len()) == enc_task(t),
        spec_encodable_task(t),
    ensures
        dec_task(s, pos) == Some((spec_rec_of(t), pos + enc_task(t).len())),
{
    let f1 = seq!['1'];
    let hi = enc_num(spec_id_hi(t.id) as nat);
    let lo = enc_num(spec_id_lo(t.id) as nat);
    let nm = enc_text(t.name);
    let tg = enc_opt_text(t.tag);
    let fl = enc_flag(t.is_active);
    let cn = enc_num(t.hours.len());
    let nl = seq!['\n'];
    let hs = enc_hours_seq(t.hours);
    lemma_enc_num_len(spec_id_hi(t.id) as nat);
    lemma_enc_num_len(spec_id_lo(t.id) as nat);
    lemma_enc_num_len(t.name.len());
    lemma_enc_num_len(t.hours.len());
    assert(enc_task(t) =~= f1 + (hi + (lo + (nm + (tg + (fl + (cn + (nl + hs))))))));
    lemma_concat_split(s, pos, f1, hi + (lo + (nm + (tg + (fl + (cn + (nl + hs)))))));
    lemma_rt_flag(s, pos, true);
    let p0 = pos + 1;
    lemma_concat_split(s, p0, hi, lo + (nm + (tg + (fl + (cn + (nl + hs))))));
    lemma_rt_num(s, p0, spec_id_hi(t.id) as nat);
    let p1 = p0 + hi.len();
    lemma_concat_split(s, p1, lo, nm + (tg + (fl + (cn + (nl + hs)))));
    lemma_rt_num(s, p1, spec_id_lo(t.id) as nat);
    let p2 = p1 + lo.len();
    lemma_id_split_join(t.id);
    lemma_concat_split(s, p2, nm, tg + (fl + (cn + (nl + hs))));
    lemma_rt_text(s, p2, t.name);
    let p3 = p2 + nm.len();
    lemma_concat_split(s, p3, tg, fl + (cn + (nl + hs)));
    lemma_rt_opt_text(s, p3, t.tag);
    let p4 = p3 + tg.len();
    lemma_concat_split(s, p4, fl, cn + (nl + hs));
    lemma_rt_flag(s, p4, t.is_active);
    let p5 = p4 + 1;
    lemma_concat_split(s, p5, cn, nl + hs);
    lemma_rt_num(s, p5, t.hours.len());
    let p6 = p5 + cn.len();
    lemma_concat_split(s, p6, nl, hs);
    lemma_rt_char(s, p6, '\n');
    let p7 = p6 + 1;
    lemma_rt_hours_seq(s, p7, t.hours);
}

proof fn lemma_rt_task_seq(s: Seq<char>, pos: int, ts: Seq<TaskView>)
    requires
        0 <= pos,
        pos + enc_task_seq(ts).len() <= s.len(),
        s.subrange(pos, pos + enc_task_seq(ts).len()) == enc_task_seq(ts),
        forall|i: int| 0 <= i < ts.len() ==> spec_encodable_task(#[trigger] ts[i]),
    ensures
        dec_task_seq(s, pos, ts.len()) == Some(
            (ts.map_values(|t: TaskView| spec_rec_of(t)), pos + enc_task_seq(ts).len()),
        ),
    decreases ts.len(),
{
    if ts.len() == 0 {
        assert(ts.map_values(|t: TaskView| spec_rec_of(t)) =~= Seq::<TaskRec>::empty());
    } else {
        let a = enc_task(ts[0]);
        let b = enc_task_seq(ts.drop_first());
        lemma_concat_split(s, pos, a, b);
        lemma_rt_task(s, pos, ts[0]);
        assert(forall|i: int|
            0 <= i < ts.drop_first().len() ==> ts.drop_first()[i] == ts[i + 1]);
        lemma_rt_task_seq(s, pos + a.len(), ts.drop_first());
        assert(seq![spec_rec_of(ts[0])] + ts.drop_first().map_values(
            |t: TaskView| spec_rec_of(t),
        ) =~= ts.map_values(|t: TaskView| spec_rec_of(t)));
    }
}

/// Law: reading back a written document reconstructs exactly the persisted
/// fields of every task, in order — same identifiers, names, tags, span
/// instants and durations, and active flags.
pub proof fn lemma_document_roundtrip(ts: Seq<TaskView>)
    requires
        ts.len() <= u64::MAX,
        forall|i: int| 0 <= i < ts.len() ==> spec_encodable_task(#[trigger] ts[i]),
    ensures
        dec_document(enc_document(ts)) == Some(ts.map_values(|t: TaskView| spec_rec_of(t))),
{
    let s = enc_document(ts);
    let cn = enc_num(ts.len());
    let nl = seq!['\n'];
    let body = enc_task_seq(ts);
    lemma_enc_num_len(ts.len());
    assert(s =~= cn + (nl + body));
    assert(s.subrange(0, s.len() as int) =~= s);
    lemma_concat_split(s, 0, cn, nl + body);
    lemma_rt_num(s, 0, ts.len());
    let p0 = cn.len() as int;
    lemma_concat_split(s, p0, nl, body);
    lemma_rt_char(s, p0, '\n');
    lemma_rt_task_seq(s, p0 + 1, ts);
}

// ---------------------------------------------------------------------------
// Writing the document.
// ---------------------------------------------------------------------------

fn push_flag(out: &mut String, b: bool)
    ensures
        final(out)@ == old(out)@ + enc_flag(b),
{
    proof {
        reveal_strlit("1");
        reveal_strlit("0");
    }
    if b {
        out.append("1");
    } else {
        out.append("0");
    }
    proof {
        assert(out@ =~= old(out)@ + enc_flag(b));
    }
}

fn push_newline(out: &mut String)
    ensures
        final(out)@ == old(out)@ + seq!['\n'],
{
    proof {
        reveal_strlit("\n");
    }
    out.append("\n");
    proof {
        assert(out@ =~= old(out)@ + seq!['\n']);
    }
}

fn push_num(out: &mut String, n: u64)
    ensures
        final(out)@ == old(out)@ + enc_num(n as nat),
{
    crate::decimal::push_digits(out, n, NUM_WIDTH);
}

fn push_opt_num(out: &mut String, o: Option<u64>)
    ensures
        final(out)@ == old(out)@ + enc_opt_num(o),
{
    match o {
        Some(n) => {
            push_flag(out, true);
            push_num(out, n);
            proof {
                assert(out@ =~= old(out)@ + enc_opt_num(o));
            }
        },
        None => {
            push_flag(out, false);
        },
    }
}

fn push_text(out: &mut String, s: &str)
    ensures
        final(out)@ == old(out)@ + enc_text(s@),
{
    let len = s.unicode_len();
    push_num(out, len as u64);
    out.append(s);
    proof {
        assert(out@ =~= old(out)@ + enc_text(s@));
    }
}

fn push_hours_rec(out: &mut String, h: TaskHours)
    ensures
        final(out)@ == old(out)@ + enc_hours(h),
{
    push_opt_num(out, h.start);
    push_opt_num(out, h.end);
    push_num(out, h.duration);
    push_newline(out);
    proof {
        assert(out@ =~= old(out)@ + enc_hours(h));
    }
}

fn push_hours_seq(out: &mut String, hs: &Vec<TaskHours>, from: usize)
    requires
        from <= hs@.len(),
    ensures
        final(out)@ == old(out)@ + enc_hours_seq(hs@.subrange(from as int, hs@.len() as int)),
    decreases hs@.len() - from,
{
    let n = hs.len();
    if from < n {
        let ghost tail = hs@.subrange(from as int, n as int);
        push_hours_rec(out, hs[from]);
        push_hours_seq(out, hs, from + 1);
        proof {
            assert(tail.drop_first() =~= hs@.subrange(from + 1, n as int));
            assert(tail[0] == hs@[from as int]);
            assert(out@ =~= old(out)@ + enc_hours_seq(tail));
        }
    } else {
        proof {
            assert(hs@.subrange(from as int, n as int) =~= Seq::<TaskHours>::empty());
            assert(out@ =~= old(out)@ + enc_hours_seq(hs@.subrange(from as int, n as int)));
        }
    }
}

fn push_task(out: &mut String, t: &Task)
    ensures
        final(out)@ == old(out)@ + enc_task(t@),
{
    push_flag(out, true);
    let hi = (t.id / ID_BASE) as u64;
    let lo = (t.id % ID_BASE) as u64;
    push_num(out, hi);
    push_num(out, lo);
    push_text(out, t.name.as_str());
    match &t.tag {
        Some(g) => {
            push_flag(out, true);
            push_text(out, g.as_str());
        },
        None => {
            push_flag(out, false);
        },
    }
    push_flag(out, t.is_active);
    push_num(out, t.hours.len() as u64);
    push_newline(out);
    push_hours_seq(out, &t.hours, 0);
    proof {
        assert(t.hours@.subrange(0, t.hours@.len() as int) =~= t.hours@);
        assert(out@ =~= old(out)@ + enc_task(t@));
    }
}

fn push_task_seq(out: &mut String, tasks: &Vec<Task>, from: usize)
    requires
        from <= tasks@.len(),
    ensures
        final(out)@ == old(out)@ + enc_task_seq(
            tasks@.map_values(|t: Task| t@).subrange(from as int, tasks@.len() as int),
        ),
    decreases tasks@.len() - from,
{
    let n = tasks.len();
    let ghost views = tasks@.map_values(|t: Task| t@);
    if from < n {
        let ghost tail = views.subrange(from as int, n as int);
        push_task(out, &tasks[from]);
        push_task_seq(out, tasks, from + 1);
        proof {
            assert(tail.drop_first() =~= views.subrange(from + 1, n as int));
            assert(tail[0] == views[from as int]);
            assert(out@ =~= old(out)@ + enc_task_seq(tail));
        }
    } else {
        proof {
            assert(views.subrange(from as int, n as int) =~= Seq::<TaskView>::empty());
            assert(out@ =~= old(out)@ + enc_task_seq(views.subrange(from as int, n as int)));
        }
    }
}

/// Writes the whole task list as one document.
pub fn save_to_document(tasks: &Vec<Task>) -> (r: String)
    ensures
        r@ == enc_document(tasks@.map_values(|t: Task| t@)),
{
    let mut out = String::new();
    push_num(&mut out, tasks.len() as u64);
    push_newline(&mut out);
    push_task_seq(&mut out, tasks, 0);
    proof {
        let views = tasks@.map_values(|t: Task| t@);
        assert(views.subrange(0, views.len() as int) =~= views);
        assert(out@ =~= enc_document(views));
    }
    out
}

// ---------------------------------------------------------------------------
// Reading the document back.
// ---------------------------------------------------------------------------

fn rd_char(s: &str, pos: usize, len: usize, c: char) -> (r: Option<usize>)
    requires
        pos <= len,
        len == s@.len(),
    ensures
        match r {
            Some(p) => dec_char(s@, pos as int, c) == Some(p as int) && p <= len,
            None => dec_char(s@, pos as int, c) is None,
        },
{
    if pos < len && s.get_char(pos) == c {
        Some(pos + 1)
    } else {
        None
    }
}

fn rd_num(s: &str, pos: usize, len: usize) -> (r: Option<(u64, usize)>)
    requires
        pos <= len,
        len == s@.len(),
    ensures
        match r {
            Some((v, p)) => dec_u64(s@, pos as int) == Some((v, p as int)) && p <= len,
            None => dec_u64(s@, pos as int) is None,
        },
{
    if len - pos >= NUM_WIDTH {
        match crate::decimal::parse_digits(s, pos, NUM_WIDTH) {
            Some(v) => {
                if v <= u64::MAX as u128 {
                    Some((v as u64, pos + NUM_WIDTH))
                } else {
                    None
                }
            },
            None => None,
        }
    } else {
        None
    }
}

fn rd_flag(s: &str, pos: usize, len: usize) -> (r: Option<(bool, usize)>)
    requires
        pos <= len,
        len == s@.len(),
    ensures
        match r {
            Some((b, p)) => dec_flag(s@, pos as int) == Some((b, p as int)) && p <= len,
            None => dec_flag(s@, pos as int) is None,
        },
{
    if pos < len {
        let c = s.get_char(pos);
        if c == '1' {
            Some((true, pos + 1))
        } else if c == '0' {
            Some((false, pos + 1))
        } else {
            None
        }
    } else {
        None
    }
}

fn rd_opt_num(s: &str, pos: usize, len: usize) -> (r: Option<(Option<u64>, usize)>)
    requires
        pos <= len,
        len == s@.len(),
    ensures
        match r {
            Some((o, p)) => dec_opt_num(s@, pos as int) == Some((o, p as int)) && p <= len,
            None => dec_opt_num(s@, pos as int) is None,
        },
{
    match rd_flag(s, pos, len) {
        Some((true, p)) => match rd_num(s, p, len) {
            Some((v, p2)) => Some((Some(v), p2)),
            None => None,
        },
        Some((false, p)) => Some((None, p)),
        None => None,
    }
}

fn rd_text(s: &str, pos: usize, len: usize) -> (r: Option<(String, usize)>)
    requires
        pos <= len,
        len == s@.len(),
    ensures
        match r {
            Some((t, p)) => dec_text(s@, pos as int) == Some((t@, p as int)) && p <= len,
            None => dec_text(s@, pos as int) is None,
        },
{
    match rd_num(s, pos, len) {
        Some((tlen, p)) => {
            if tlen <= (len - p) as u64 {
                let tl = tlen as usize;
                let t = s.substring_char(p, p + tl).to_owned();
                Some((t, p + tl))
            } else {
                None
            }
        },
        None => None,
    }
}

fn rd_opt_text(s: &str, pos: usize, len: usize) -> (r: Option<(Option<String>, usize)>)
    requires
        pos <= len,
        len == s@.len(),
    ensures
        match r {
            Some((o, p)) => ({
                let d = dec_opt_text(s@, pos as int);
                &&& d is Some
                &&& d.unwrap().1 == p as int
                &&& p <= len
                &&& match (o, d.unwrap().0) {
                    (Some(a), Some(b)) => a@ == b,
                    (None, None) => true,
                    _ => false,
                }
            }),
            None => dec_opt_text(s@, pos as int) is None,
        },
{
    match rd_flag(s, pos, len) {
        Some((true, p)) => match rd_text(s, p, len) {
            Some((t, p2)) => Some((Some(t), p2)),
            None => None,
        },
        Some((false, p)) => Some((None, p)),
        None => None,
    }
}

fn rd_id(s: &str, pos: usize, len: usize) -> (r: Option<(Option<u128>, usize)>)
    requires
        pos <= len,
        len == s@.len(),
    ensures
        match r {
            Some((o, p)) => dec_id(s@, pos as int) == Some((o, p as int)) && p <= len,
            None => dec_id(s@, pos as int) is None,
        },
{
    match rd_flag(s, pos, len) {
        Some((true, p)) => match rd_num(s, p, len) {
            Some((hi, p1)) => match rd_num(s, p1, len) {
                Some((lo, p2)) => {
                    proof {
                        assert((hi as int) * (ID_BASE as int) + (lo as int) <= (
                        u128::MAX as int));
                    }
                    Some((Some((hi as u128) * ID_BASE + (lo as u128)), p2))
                },
                None => None,
            },
            None => None,
        },
        Some((false, p)) => Some((None, p)),
        None => None,
    }
}

fn rd_hours(s: &str, pos: usize, len: usize) -> (r: Option<(TaskHours, usize)>)
    requires
        pos <= len,
        len == s@.len(),
    ensures
        match r {
            Some((h, p)) => dec_hours(s@, pos as int) == Some((h, p as int)) && p <= len,
            None => dec_hours(s@, pos as int) is None,
        },
{
    match rd_opt_num(s, pos, len) {
        Some((start, p1)) => match rd_opt_num(s, p1, len) {
            Some((end, p2)) => match rd_num(s, p2, len) {
                Some((duration, p3)) => match rd_char(s, p3, len, '\n') {
                    Some(p4) => Some((TaskHours { duration, end, start }, p4)),
                    None => None,
                },
                None => None,
            },
            None => None,
        },
        None => None,
    }
}

fn rd_hours_seq(s: &str, pos: usize, len: usize, count: u64, out: &mut Vec<TaskHours>) -> (r:
    Option<usize>)
    requires
        pos <= len,
        len == s@.len(),
    ensures
        match r {
            Some(p) => ({
                let d = dec_hours_seq(s@, pos as int, count as nat);
                &&& d is Some
                &&& d.unwrap().1 == p as int
                &&& p <= len
                &&& final(out)@ == old(out)@ + d.unwrap().0
            }),
            None => dec_hours_seq(s@, pos as int, count as nat) is None,
        },
    decreases count,
{
    if count == 0 {
        proof {
            assert(out@ =~= out@ + Seq::<TaskHours>::empty());
        }
        Some(pos)
    } else {
        match rd_hours(s, pos, len) {
            Some((h, p)) => {
                out.push(h);
                let r2 = rd_hours_seq(s, p, len, count - 1, out);
                proof {
                    if r2 is Some {
                        let d1 = dec_hours_seq(s@, p as int, (count - 1) as nat);
                        assert(out@ =~= old(out)@ + (seq![h] + d1.unwrap().0));
                    }
                }
                r2
            },
            None => None,
        }
    }
}

/// The transient-field relation between a loaded task and its stored record:
/// the persisted fields agree, the committed name restarts as the name, the
/// edit state restarts idle, and a stored identifier is kept.
pub open spec fn task_matches_rec(tv: TaskView, rec: TaskRec) -> bool {
    &&& tv.name == rec.name
    &&& tv.tag == rec.tag
    &&& tv.pending_name == rec.name
    &&& tv.hours == rec.hours
    &&& tv.is_active == rec.is_active
    &&& tv.state == TaskState::Idle
    &&& (rec.id matches Some(id) ==> tv.id == id)
}

fn rd_task(s: &str, pos: usize, len: usize) -> (r: Option<(Task, usize)>)
    requires
        pos <= len,
        len == s@.len(),
    ensures
        match r {
            Some((t, p)) => ({
                let d = dec_task(s@, pos as int);
                &&& d is Some
                &&& d.unwrap().1 == p as int
                &&& p <= len
                &&& task_matches_rec(t@, d.unwrap().0)
            }),
            None => dec_task(s@, pos as int) is None,
        },
{
    match rd_id(s, pos, len) {
        Some((opt_id, p1)) => match rd_text(s, p1, len) {
            Some((name, p2)) => match rd_opt_text(s, p2, len) {
                Some((tag, p3)) => match rd_flag(s, p3, len) {
                    Some((is_active, p4)) => match rd_num(s, p4, len) {
                        Some((count, p5)) => match rd_char(s, p5, len, '\n') {
                            Some(p6) => {
                                let mut hours: Vec<TaskHours> = Vec::new();
                                match rd_hours_seq(s, p6, len, count, &mut hours) {
                                    Some(p7) => {
                                        let id = match opt_id {
                                            Some(v) => v,
                                            None => crate::task::fresh_id(),
                                        };
                                        let pending_name = name.clone();
                                        let t = Task {
                                            id,
                                            name,
                                            tag,
                                            pending_name,
                                            hours,
                                            is_active,
                                            state: TaskState::Idle,
                                        };
                                        Some((t, p7))
                                    },
                                    None => None,
                                }
                            },
                            None => None,
                        },
                        None => None,
                    },
                    None => None,
                },
                None => None,
            },
            None => None,
        },
        None => None,
    }
}

fn rd_task_seq(s: &str, pos: usize, len: usize, count: u64, out: &mut Vec<Task>) -> (r: Option<
    usize>)
    requires
        pos <= len,
        len == s@.len(),
    ensures
        match r {
            Some(p) => ({
                let d = dec_task_seq(s@, pos as int, count as nat);
                &&& d is Some
                &&& d.unwrap().1 == p as int
                &&& p <= len
                &&& final(out)@.len() == old(out)@.len() + d.unwrap().0.len()
                &&& forall|i: int| 0 <= i < old(out)@.len() ==> final(out)@[i] == old(out)@[i]
                &&& forall|i: int|
                    old(out)@.len() <= i < final(out)@.len() ==> task_matches_rec(
                        (#[trigger] final(out)@[i])@,
                        d.unwrap().0[i - old(out)@.len()],
                    )
            }),
            None => dec_task_seq(s@, pos as int, count as nat) is None,
        },
    decreases count,
{
    if count == 0 {
        Some(pos)
    } else {
        match rd_task(s, pos, len) {
            Some((t, p)) => {
                out.push(t);
                let ghost mid = out@;
                let r2 = rd_task_seq(s, p, len, count - 1, out);
                proof {
                    if r2 is Some {
                        let d = dec_task_seq(s@, pos as int, count as nat);
                        let d1 = dec_task_seq(s@, p as int, (count - 1) as nat);
                        assert(d.unwrap().0 =~= seq![d.unwrap().0[0]] + d1.unwrap().0);
                        assert forall|i: int|
                            old(out)@.len() <= i < out@.len() implies task_matches_rec(
                            (#[trigger] out@[i])@,
                            d.unwrap().0[i - old(out)@.len()],
                        ) by {
                            if i == old(out)@.len() {
                                assert(out@[i] == mid[mid.len() - 1]);
                                assert(d.unwrap().0[0] == dec_task(s@, pos as int).unwrap().0);
                            } else {
                                assert(task_matches_rec(out@[i]@, d1.unwrap().0[i - mid.len()]));
                                assert(d.unwrap().0[i - old(out)@.len()] == d1.unwrap().0[i - mid.len()]);
                            }
                        }
                    }
                }
                r2
            },
            None => None,
        }
    }
}

// ---------------------------------------------------------------------------
// Validation and the public load.
// ---------------------------------------------------------------------------

fn wf_hours_exec(h: TaskHours) -> (r: bool)
    ensures
        r == crate::task::wf_hours(h),
{
    match h.end {
        Some(e) => match h.start {
            Some(st) => st <= e && h.duration == e - st,
            None => false,
        },
        None => h.start.is_some() && h.duration == 0,
    }
}

fn check_task_wf(t: &Task) -> (r: bool)
    ensures
        r == crate::task::wf_task(t@),
{
    let n = t.hours.len();
    let mut ok = true;
    let mut i: usize = 0;
    while i < n
        invariant
            i <= n,
            n == t.hours.len(),
            ok == (forall|j: int|
                0 <= j < i ==> crate::task::wf_hours(#[trigger] t.hours@[j]) && (j < n - 1
                    ==> !crate::task::open_hours(t.hours@[j]))),
        decreases n - i,
    {
        let h = t.hours[i];
        let closed_ok = if i < n - 1 {
            h.end.is_some()
        } else {
            true
        };
        ok = ok && wf_hours_exec(h) && closed_ok;
        i = i + 1;
    }
    let flag_ok = if n == 0 {
        !t.is_active
    } else {
        t.is_active == t.hours[n - 1].end.is_none()
    };
    ok && flag_ok
}

fn count_active_tasks(v: &Vec<Task>) -> (r: usize)
    ensures
        r as nat == crate::registry::count_active(v@.map_values(|t: Task| t@)),
{
    let ghost views = v@.map_values(|t: Task| t@);
    let n = v.len();
    let mut c: usize = 0;
    let mut i: usize = 0;
    while i < n
        invariant
            i <= n,
            n == v@.len(),
            views == v@.map_values(|t: Task| t@),
            c <= i,
            c as nat == crate::registry::count_active(views.subrange(0, i as int)),
        decreases n - i,
    {
        proof {
            assert(views.subrange(0, i + 1).drop_last() =~= views.subrange(0, i as int));
            assert(views.subrange(0, i + 1).last() == views[i as int]);
        }
        if v[i].is_active {
            c = c + 1;
        }
        i = i + 1;
    }
    proof {
        assert(views.subrange(0, n as int) =~= views);
    }
    c
}

/// The persisted view a stored record denotes once loaded, before a fresh
/// identifier is drawn for it.
pub open spec fn rec_view(rec: TaskRec) -> TaskView {
    TaskView {
        id: 0,
        name: rec.name,
        tag: rec.tag,
        pending_name: rec.name,
        hours: rec.hours,
        is_active: rec.is_active,
        state: TaskState::Idle,
    }
}

/// A document loads successfully exactly when it parses and the task list it
/// denotes is well-formed with at most one active task.
pub open spec fn spec_load_ok(s: Seq<char>) -> bool {
    match dec_document(s) {
        Some(recs) => {
            let views = recs.map_values(|r: TaskRec| rec_view(r));
            crate::registry::wf_tasks(views) && crate::registry::count_active(views) <= 1
        },
        None => false,
    }
}

/// Reads a whole document back into a task list. Success exactly when the
/// document parses and denotes a well-formed list; everything else is a
/// format error. Records without an identifier get a fresh one; edit state
/// and the committed name restart at their defaults.
pub fn load_from_document(s: &str) -> (r: Result<Vec<Task>, crate::persist::LoadError>)
    ensures
        (r is Ok) == spec_load_ok(s@),
        r matches Ok(v) ==> ({
            let recs = dec_document(s@).unwrap();
            let views = v@.map_values(|t: Task| t@);
            &&& dec_document(s@) is Some
            &&& v@.len() == recs.len()
            &&& forall|i: int|
                0 <= i < recs.len() ==> task_matches_rec((#[trigger] v@[i])@, recs[i])
            &&& crate::registry::wf_tasks(views)
            &&& crate::registry::count_active(views) <= 1
            &&& crate::registry::count_editing(views) == 0
        }),
        r matches Err(e) ==> e == crate::persist::LoadError::Format,
{
    let len = s.unicode_len();
    match rd_num(s, 0, len) {
        Some((count, p)) => match rd_char(s, p, len, '\n') {
            Some(p1) => {
                let mut tasks: Vec<Task> = Vec::new();
                match rd_task_seq(s, p1, len, count, &mut tasks) {
                    Some(p2) => {
                        if p2 == len {
                            let ghost recs = dec_task_seq(
                                s@,
                                p1 as int,
                                count as nat,
                            ).unwrap().0;
                            proof {
                                assert(dec_document(s@) == Some(recs));
                            }
                            let ghost tvs = tasks@.map_values(|t: Task| t@);
                            let ghost rvs = recs.map_values(|r: TaskRec| rec_view(r));
                            let n = tasks.len();
                            let mut ok = true;
                            let mut i: usize = 0;
                            while i < n
                                invariant
                                    i <= n,
                                    n == tasks@.len(),
                                    ok == (forall|j: int|
                                        0 <= j < i ==> crate::task::wf_task(
                                            (#[trigger] tasks@[j])@,
                                        )),
                                decreases n - i,
                            {
                                ok = ok && check_task_wf(&tasks[i]);
                                i = i + 1;
                            }
                            let actives = count_active_tasks(&tasks);
                            proof {
                                assert(recs.len() == tvs.len());
                                assert forall|j: int| 0 <= j < n implies crate::task::wf_task(
                                    #[trigger] rvs[j],
                                ) == crate::task::wf_task(tvs[j]) && rvs[j].is_active
                                    == tvs[j].is_active by {
                                    assert(rvs[j] == rec_view(recs[j]));
                                    assert(task_matches_rec(tasks@[j]@, recs[j]));
                                    assert(rvs[j].hours == tvs[j].hours);
                                }
                                assert(ok ==> crate::registry::wf_tasks(rvs)) by {
                                    if ok {
                                        assert forall|j: int|
                                            0 <= j < rvs.len() implies crate::task::wf_task(
                                            #[trigger] rvs[j],
                                        ) by {
                                            assert(crate::task::wf_task(tasks@[j]@));
                                            assert(tvs[j] == tasks@[j]@);
                                        }
                                    }
                                }
                                assert(crate::registry::wf_tasks(rvs) ==> ok) by {
                                    if crate::registry::wf_tasks(rvs) {
                                        assert forall|j: int|
                                            0 <= j < n implies crate::task::wf_task(
                                            (#[trigger] tasks@[j])@,
                                        ) by {
                                            assert(crate::task::wf_task(rvs[j]));
                                            assert(tvs[j] == tasks@[j]@);
                                        }
                                    }
                                }
                                crate::registry::lemma_count_active_congruent(tvs, rvs);
                            }
                            if ok && actives <= 1 {
                                proof {
                                    assert forall|j: int|
                                        0 <= j < tvs.len() implies (#[trigger] tvs[j]).state
                                        != TaskState::Editing by {
                                        assert(task_matches_rec(tasks@[j]@, recs[j]));
                                    }
                                    crate::registry::lemma_count_editing_zero(tvs);
                                }
                                Ok(tasks)
                            } else {
                                Err(crate::persist::LoadError::Format)
                            }
                        } else {
                            Err(crate::persist::LoadError::Format)
                        }
                    },
                    None => Err(crate::persist::LoadError::Format),
                }
            },
            None => Err(crate::persist::LoadError::Format),
        },
        None => Err(crate::persist::LoadError::Format),
    }
}

/// Law: saving a well-formed task list and loading the result succeeds and
/// reconstructs the same list — identifiers, names, tags, spans and active
/// flags all equal; only the edit state and the committed name restart.
pub proof fn lemma_save_load_roundtrip(ts: Seq<TaskView>)
    requires
        ts.len() <= u64::MAX,
        forall|i: int| 0 <= i < ts.len() ==> spec_encodable_task(#[trigger] ts[i]),
        crate::registry::wf_tasks(ts),
        crate::registry::count_active(ts) <= 1,
    ensures
        dec_document(enc_document(ts)) == Some(ts.map_values(|t: TaskView| spec_rec_of(t))),
        spec_load_ok(enc_document(ts)),
        forall|i: int| 0 <= i < ts.len() ==> task_matches_rec(
            TaskView {
                pending_name: (#[trigger] ts[i]).name,
                state: TaskState::Idle,
                ..ts[i]
            },
            ts.map_values(|t: TaskView| spec_rec_of(t))[i],
        ),
{
    lemma_document_roundtrip(ts);
    let recs = ts.map_values(|t: TaskView| spec_rec_of(t));
    let rvs = recs.map_values(|r: TaskRec| rec_view(r));
    assert forall|j: int| 0 <= j < ts.len() implies crate::task::wf_task(#[trigger] rvs[j])
        == crate::task::wf_task(ts[j]) && rvs[j].is_active == ts[j].is_active by {
        assert(rvs[j] == rec_view(spec_rec_of(ts[j])));
        assert(rvs[j].hours == ts[j].hours);
    }
    crate::registry::lemma_count_active_congruent(ts, rvs);
}

} // verus!
