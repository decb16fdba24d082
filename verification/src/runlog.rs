//! The training-curve reader: the v0.8 run log split into its three arms.
//!
//! The log interleaves three stages, each announced by a header line
//! (`=== A:`, `=== B1:`, `=== B2:`) and closed by `=== v0.8 finished`. Inside
//! a stage, `step` lines carry the train loss, `checkpoint step` lines the
//! validation loss, and a run cut short by its time budget reports
//! `time budget reached at step N` followed by `checkpoint final`, whose
//! validation loss belongs to step `N`. Numbers are kept as the tokens the
//! log writes; the caller parses them.

use crate::text::{
    chars_of, find_line_end, has_prefix, line_at, lines_from, range_has_prefix,
    split_words, text_lines, words,
};
use vstd::prelude::*;

verus! {

/// One logged loss: the stage (0 = A, 1 = B1, 2 = B2), the step token and
/// the loss token.
#[derive(Debug)]
pub struct LogPoint {
    pub stage: usize,
    pub step: String,
    pub loss: String,
}

/// A logged loss as plain values.
pub open spec fn point_view(p: LogPoint) -> (usize, Seq<char>, Seq<char>) {
    (p.stage, p.step@, p.loss@)
}

/// What the reader has gathered: train and validation losses in log order.
pub struct RunLog {
    pub train: Vec<LogPoint>,
    pub val: Vec<LogPoint>,
}

/// A log line the reader needs a field of lacks it.
#[derive(Clone, Copy, Debug, PartialEq, Eq, Structural)]
pub enum LogError {
    /// The line with this (1-based) number has too few fields.
    MissingField { line: usize },
}

/// The reader's state between lines.
pub struct LogScan {
    pub stage: Option<usize>,
    /// Per stage, the token of the last step seen ("0" before any).
    pub last_step: Seq<Seq<char>>,
    pub train: Seq<(usize, Seq<char>, Seq<char>)>,
    pub val: Seq<(usize, Seq<char>, Seq<char>)>,
}

/// The state before the first line.
pub open spec fn log_start() -> LogScan {
    LogScan {
        stage: None,
        last_step: seq!["0"@, "0"@, "0"@],
        train: Seq::empty(),
        val: Seq::empty(),
    }
}

/// The stage in force after reading `line` in stage `stage`.
pub open spec fn stage_after(stage: Option<usize>, line: Seq<char>) -> Option<usize> {
    if has_prefix(line, "=== A:"@) {
        Some(0)
    } else if has_prefix(line, "=== B1:"@) {
        Some(1)
    } else if has_prefix(line, "=== B2:"@) {
        Some(2)
    } else if has_prefix(line, "=== v0.8 finished"@) {
        None
    } else {
        stage
    }
}

/// Read one line; `None` when the line lacks a field it needs.
pub open spec fn log_line(st: LogScan, line: Seq<char>) -> Option<LogScan> {
    let stage = stage_after(st.stage, line);
    match stage {
        None => Some(LogScan { stage: None, ..st }),
        Some(s) => {
            let f = words(line);
            if has_prefix(line, "checkpoint step"@) {
                if f.len() < 7 {
                    None
                } else {
                    Some(LogScan { stage, val: st.val.push((s, f[2], f[6])), ..st })
                }
            } else if has_prefix(line, "time budget reached at step"@) {
                if f.len() < 6 {
                    None
                } else {
                    Some(LogScan { stage, last_step: st.last_step.update(s as int, f[5]), ..st })
                }
            } else if has_prefix(line, "checkpoint final"@) {
                if f.len() < 6 {
                    None
                } else {
                    Some(LogScan { stage, val: st.val.push((s, st.last_step[s as int], f[5])), ..st })
                }
            } else if has_prefix(line, "step "@) && f.len() >= 5 {
                Some(
                    LogScan {
                        stage,
                        train: st.train.push((s, f[1], f[4])),
                        last_step: st.last_step.update(s as int, f[1]),
                        ..st
                    },
                )
            } else {
                Some(LogScan { stage, ..st })
            }
        },
    }
}

/// Read `lines` from state `st`; the first line is number `number`. The
/// error is the number of the first line that lacks a field.
pub open spec fn log_run(lines: Seq<Seq<char>>, st: LogScan, number: nat) -> Result<LogScan, nat>
    decreases lines.len(),
{
    if lines.len() == 0 {
        Ok(st)
    } else {
        match log_line(st, lines[0]) {
            None => Err(number),
            Some(next) => log_run(lines.drop_first(), next, number + 1),
        }
    }
}

/// What reading the log `text` gives.
pub open spec fn read_log(text: Seq<char>) -> Result<LogScan, nat> {
    log_run(text_lines(text), log_start(), 1)
}

/// Read a run log: every train and validation loss of the three stages, in
/// log order, or the number of the first line that lacks a field it needs.
pub fn parse_log(text: &str) -> (r: Result<RunLog, LogError>)
    ensures
        match r {
            Ok(log) => read_log(text@) matches Ok(scan) && log.train@.map_values(|p: LogPoint| point_view(p)) == scan.train
                && log.val@.map_values(|p: LogPoint| point_view(p)) == scan.val,
            Err(LogError::MissingField { line }) => read_log(text@) == Err::<LogScan, nat>(line as nat),
        },
{
    let t = chars_of(text);
    let n = t.len();
    let head_a = chars_of("=== A:");
    let head_b1 = chars_of("=== B1:");
    let head_b2 = chars_of("=== B2:");
    let finished = chars_of("=== v0.8 finished");
    let checkpoint_step = chars_of("checkpoint step");
    let budget = chars_of("time budget reached at step");
    let checkpoint_final = chars_of("checkpoint final");
    let step = chars_of("step ");
    let mut stage: Option<usize> = None;
    let mut last_step: Vec<String> = vec![String::from_str("0"), String::from_str("0"), String::from_str("0")];
    let mut train: Vec<LogPoint> = Vec::new();
    let mut val: Vec<LogPoint> = Vec::new();
    let mut p: usize = 0;
    let mut done: usize = 0;
    assert(last_step.deep_view() =~= log_start().last_step);
    assert(train@.map_values(|q: LogPoint| point_view(q)) =~= log_start().train);
    assert(val@.map_values(|q: LogPoint| point_view(q)) =~= log_start().val);
    while p < n
        invariant
            n == t@.len(),
            t@ == text@,
            p <= n,
            done <= p,
            head_a@ == "=== A:"@,
            head_b1@ == "=== B1:"@,
            head_b2@ == "=== B2:"@,
            finished@ == "=== v0.8 finished"@,
            checkpoint_step@ == "checkpoint step"@,
            budget@ == "time budget reached at step"@,
            checkpoint_final@ == "checkpoint final"@,
            step@ == "step "@,
            last_step@.len() == 3,
            stage matches Some(s) ==> s < 3,
            read_log(text@) == log_run(
                lines_from(t@, p as nat),
                LogScan {
                    stage,
                    last_step: last_step.deep_view(),
                    train: train@.map_values(|q: LogPoint| point_view(q)),
                    val: val@.map_values(|q: LogPoint| point_view(q)),
                },
                (done + 1) as nat,
            ),
        decreases n - p,
    {
        let j = find_line_end(&t, p);
        let hi = if j < n && j > p && t[j - 1] == '\r' { j - 1 } else { j };
        let ghost line = line_at(t@, p as nat, j as nat);
        assert(line == t@.subrange(p as int, hi as int));
        let ghost before = LogScan {
            stage,
            last_step: last_step.deep_view(),
            train: train@.map_values(|q: LogPoint| point_view(q)),
            val: val@.map_values(|q: LogPoint| point_view(q)),
        };
        let ghost rest = if j < n { lines_from(t@, (j + 1) as nat) } else { Seq::empty() };
        assert(lines_from(t@, p as nat) == seq![line] + rest);
        assert((seq![line] + rest).drop_first() =~= rest);
        if range_has_prefix(&t, p, hi, &head_a) {
            stage = Some(0);
        } else if range_has_prefix(&t, p, hi, &head_b1) {
            stage = Some(1);
        } else if range_has_prefix(&t, p, hi, &head_b2) {
            stage = Some(2);
        } else if range_has_prefix(&t, p, hi, &finished) {
            stage = None;
        }
        assert(stage == stage_after(before.stage, line));
        if let Some(s) = stage {
            let f = split_words(&t, p, hi);
            if range_has_prefix(&t, p, hi, &checkpoint_step) {
                if f.len() < 7 {
                    return Err(LogError::MissingField { line: done + 1 });
                }
                let ghost vb = val@;
                val.push(LogPoint { stage: s, step: f[2].clone(), loss: f[6].clone() });
                assert(val@.map_values(|q: LogPoint| point_view(q)) =~= before.val.push((s, f.deep_view()[2], f.deep_view()[6])));
            } else if range_has_prefix(&t, p, hi, &budget) {
                if f.len() < 6 {
                    return Err(LogError::MissingField { line: done + 1 });
                }
                last_step.set(s, f[5].clone());
                assert(last_step.deep_view() =~= before.last_step.update(s as int, f.deep_view()[5]));
            } else if range_has_prefix(&t, p, hi, &checkpoint_final) {
                if f.len() < 6 {
                    return Err(LogError::MissingField { line: done + 1 });
                }
                val.push(LogPoint { stage: s, step: last_step[s].clone(), loss: f[5].clone() });
                assert(val@.map_values(|q: LogPoint| point_view(q)) =~= before.val.push((s, before.last_step[s as int], f.deep_view()[5])));
            } else if range_has_prefix(&t, p, hi, &step) && f.len() >= 5 {
                train.push(LogPoint { stage: s, step: f[1].clone(), loss: f[4].clone() });
                last_step.set(s, f[1].clone());
                assert(train@.map_values(|q: LogPoint| point_view(q)) =~= before.train.push((s, f.deep_view()[1], f.deep_view()[4])));
                assert(last_step.deep_view() =~= before.last_step.update(s as int, f.deep_view()[1]));
            }
        }
        p = if j < n { j + 1 } else { n };
        done = done + 1;
        assert(lines_from(t@, p as nat) == rest);
    }
    assert(lines_from(t@, p as nat) =~= Seq::<Seq<char>>::empty());
    Ok(RunLog { train, val })
}

/// The (step, loss) tokens of one stage, in log order.
pub fn of_stage(points: &Vec<LogPoint>, stage: usize) -> (r: Vec<(String, String)>)
    ensures
        r.deep_view() == points@.filter(|p: LogPoint| p.stage == stage).map_values(
            |p: LogPoint| (p.step@, p.loss@),
        ),
{
    let mut r: Vec<(String, String)> = Vec::new();
    let mut i: usize = 0;
    while i < points.len()
        invariant
            i <= points@.len(),
            r.deep_view() == points@.take(i as int).filter(|p: LogPoint| p.stage == stage).map_values(
                |p: LogPoint| (p.step@, p.loss@),
            ),
        decreases points@.len() - i,
    {
        proof {
            reveal(Seq::filter);
            assert(points@.take(i + 1).drop_last() =~= points@.take(i as int));
        }
        if points[i].stage == stage {
            let ghost before = r.deep_view();
            r.push((points[i].step.clone(), points[i].loss.clone()));
            assert(r.deep_view() =~= before.push((points@[i as int].step@, points@[i as int].loss@)));
        }
        assert(r.deep_view() =~= points@.take(i + 1).filter(|p: LogPoint| p.stage == stage).map_values(
            |p: LogPoint| (p.step@, p.loss@),
        ));
        i = i + 1;
    }
    assert(points@.take(i as int) =~= points@);
    r
}

/// Whether `end` extends `st`: the points already read stay, in order, at
/// most `n` points of each kind are added, and each added point names one
/// of the three stages.
pub open spec fn extends(st: LogScan, end: LogScan, n: nat) -> bool {
    &&& st.train.len() <= end.train.len() <= st.train.len() + n
    &&& st.val.len() <= end.val.len() <= st.val.len() + n
    &&& end.train.subrange(0, st.train.len() as int) == st.train
    &&& end.val.subrange(0, st.val.len() as int) == st.val
    &&& forall|k: int| st.train.len() <= k < end.train.len() ==> #[trigger] end.train[k].0 < 3
    &&& forall|k: int| st.val.len() <= k < end.val.len() ==> #[trigger] end.val[k].0 < 3
}

proof fn lemma_extends_trans(a: LogScan, b: LogScan, c: LogScan, m: nat, n: nat)
    requires
        extends(a, b, m),
        extends(b, c, n),
    ensures
        extends(a, c, m + n),
{
    assert(c.train.subrange(0, a.train.len() as int) =~= b.train.subrange(0, a.train.len() as int));
    assert(c.val.subrange(0, a.val.len() as int) =~= b.val.subrange(0, a.val.len() as int));
    assert forall|k: int| a.train.len() <= k < c.train.len() implies #[trigger] c.train[k].0 < 3 by {
        if k < b.train.len() {
            assert(c.train[k] == c.train.subrange(0, b.train.len() as int)[k]);
        }
    }
    assert forall|k: int| a.val.len() <= k < c.val.len() implies #[trigger] c.val[k].0 < 3 by {
        if k < b.val.len() {
            assert(c.val[k] == c.val.subrange(0, b.val.len() as int)[k]);
        }
    }
}

/// Reading the log only ever appends: a run that succeeds keeps every point
/// read before it in place and order, adds at most one train and one
/// validation point per line, each for one of the three stages; a run that
/// fails names one of the lines it was given. (The stage in force is one of
/// the three, as it is before the first line.)
pub proof fn lemma_log_run_appends(lines: Seq<Seq<char>>, st: LogScan, number: nat)
    requires
        st.stage matches Some(s) ==> s < 3,
    ensures
        log_run(lines, st, number) matches Ok(end) ==> extends(st, end, lines.len()),
        log_run(lines, st, number) matches Err(line) ==> number <= line < number + lines.len(),
    decreases lines.len(),
{
    if lines.len() > 0 {
        match log_line(st, lines[0]) {
            None => {},
            Some(next) => {
                assert(next.stage matches Some(s) ==> s < 3);
                lemma_log_run_appends(lines.drop_first(), next, number + 1);
                assert(extends(st, next, 1)) by {
                    assert(next.train.subrange(0, st.train.len() as int) =~= st.train);
                    assert(next.val.subrange(0, st.val.len() as int) =~= st.val);
                }
                if let Ok(end) = log_run(lines, st, number) {
                    lemma_extends_trans(st, next, end, 1, (lines.len() - 1) as nat);
                }
            },
        }
    } else {
        assert(st.train.subrange(0, st.train.len() as int) =~= st.train);
        assert(st.val.subrange(0, st.val.len() as int) =~= st.val);
    }
}

/// Reading a whole log keeps every point in log order from an empty start:
/// at most one train and one validation point per line, each for one of the
/// three stages, and a failure names a line of the log.
pub proof fn lemma_read_log_bounds(text: Seq<char>)
    ensures
        read_log(text) matches Ok(scan) ==> scan.train.len() <= text_lines(text).len()
            && scan.val.len() <= text_lines(text).len() && (forall|k: int|
            0 <= k < scan.train.len() ==> #[trigger] scan.train[k].0 < 3) && (forall|k: int|
            0 <= k < scan.val.len() ==> #[trigger] scan.val[k].0 < 3),
        read_log(text) matches Err(line) ==> 1 <= line <= text_lines(text).len(),
{
    lemma_log_run_appends(text_lines(text), log_start(), 1);
}

} // verus!
