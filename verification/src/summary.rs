//! The aggregator: folds per-source statuses into a flat summary of three
//! counters under a fixed, exhaustive severity mapping, and derives the
//! command exit code from the summary.
use vstd::prelude::*;

verus! {

use crate::status::{SourceStatus, StatusView};

/// The severity of a status; every status variant maps to exactly one.
#[derive(Clone, Copy, Debug, PartialEq, Eq, Structural)]
pub enum Severity {
    Okay,
    Warning,
    Error,
}

/// The fixed severity mapping: all-clear is fine; dangling links, stray
/// real files and conflicts warn; a missing source, a missing target and a
/// permission failure are errors. The match is total over the status
/// taxonomy, so adding a status variant forces a severity here.
pub open spec fn spec_severity(s: StatusView) -> Severity {
    match s {
        StatusView::Okay { .. } => Severity::Okay,
        StatusView::SourceNotFound => Severity::Error,
        StatusView::TargetNotFound => Severity::Error,
        StatusView::BrokenLinks(..) => Severity::Warning,
        StatusView::Conflicts(..) => Severity::Warning,
        StatusView::RealFiles(..) => Severity::Warning,
        StatusView::PermissionDenied(..) => Severity::Error,
    }
}

/// The severity of one status.
pub fn severity(s: &SourceStatus) -> (r: Severity)
    ensures
        r == spec_severity(s@),
{
    match s {
        SourceStatus::Okay { .. } => Severity::Okay,
        SourceStatus::SourceNotFound => Severity::Error,
        SourceStatus::TargetNotFound => Severity::Error,
        SourceStatus::BrokenLinks(..) => Severity::Warning,
        SourceStatus::Conflicts(..) => Severity::Warning,
        SourceStatus::RealFiles(..) => Severity::Warning,
        SourceStatus::PermissionDenied(..) => Severity::Error,
    }
}

/// A sequence of statuses as mathematical values.
pub open spec fn statuses_view(s: Seq<SourceStatus>) -> Seq<StatusView> {
    Seq::new(s.len(), |i: int| s[i]@)
}

/// How many statuses of `v` have severity `sev`.
pub open spec fn count_severity(v: Seq<StatusView>, sev: Severity) -> nat
    decreases v.len(),
{
    if v.len() == 0 {
        0
    } else {
        count_severity(v.drop_last(), sev) + if spec_severity(v.last()) == sev {
            1nat
        } else {
            0nat
        }
    }
}

/// The severity mapping is exhaustive: the three severity counters of any
/// sequence of statuses always sum to its length.
pub proof fn lemma_severity_counts_total(v: Seq<StatusView>)
    ensures
        count_severity(v, Severity::Okay) + count_severity(v, Severity::Warning) + count_severity(
            v,
            Severity::Error,
        ) == v.len(),
    decreases v.len(),
{
    if v.len() > 0 {
        lemma_severity_counts_total(v.drop_last());
    }
}

/// The flat summary of a batch of statuses.
#[derive(Clone, Copy, Debug, PartialEq, Eq, Structural)]
pub struct Summary {
    pub ok: usize,
    pub warning: usize,
    pub error: usize,
}

/// Folds statuses into the three severity counters; the counters always
/// sum to the number of statuses given.
pub fn summarize(statuses: &Vec<SourceStatus>) -> (s: Summary)
    ensures
        s.ok == count_severity(statuses_view(statuses@), Severity::Okay),
        s.warning == count_severity(statuses_view(statuses@), Severity::Warning),
        s.error == count_severity(statuses_view(statuses@), Severity::Error),
        s.ok + s.warning + s.error == statuses@.len(),
{
    let ghost vw = statuses_view(statuses@);
    let mut ok: usize = 0;
    let mut warning: usize = 0;
    let mut error: usize = 0;
    let mut i: usize = 0;
    proof {
        assert(vw.take(0) =~= Seq::<StatusView>::empty());
    }
    while i < statuses.len()
        invariant
            i <= statuses@.len(),
            vw == statuses_view(statuses@),
            vw.len() == statuses@.len(),
            ok as nat == count_severity(vw.take(i as int), Severity::Okay),
            warning as nat == count_severity(vw.take(i as int), Severity::Warning),
            error as nat == count_severity(vw.take(i as int), Severity::Error),
            ok + warning + error == i,
        decreases statuses@.len() - i,
    {
        proof {
            assert(vw.take(i as int + 1).drop_last() =~= vw.take(i as int));
            assert(vw.take(i as int + 1).last() == vw[i as int]);
            assert(vw[i as int] == statuses@[i as int]@);
        }
        let sev = severity(&statuses[i]);
        match sev {
            Severity::Okay => {
                ok += 1;
            },
            Severity::Warning => {
                warning += 1;
            },
            Severity::Error => {
                error += 1;
            },
        }
        i += 1;
    }
    proof {
        assert(vw.take(statuses@.len() as int) =~= vw);
    }
    Summary { ok, warning, error }
}

/// How many of a batch's per-pair outcomes succeeded.
pub open spec fn count_true(s: Seq<bool>) -> nat
    decreases s.len(),
{
    if s.len() == 0 {
        0
    } else {
        count_true(s.drop_last()) + if s.last() {
            1nat
        } else {
            0nat
        }
    }
}

/// Folds the per-pair outcomes of a batch command into its closing line
/// and its exit decision: how many pairs succeeded, how many failed, and
/// a non-zero exit code exactly when anything failed.
pub fn batch_outcome(results: &Vec<bool>) -> (r: (usize, usize, i32))
    ensures
        r.0 == count_true(results@),
        r.0 + r.1 == results@.len(),
        r.2 == 1 <==> r.1 > 0,
        r.2 == 0 <==> r.1 == 0,
{
    let mut succeeded: usize = 0;
    let mut failed: usize = 0;
    let mut i: usize = 0;
    proof {
        assert(results@.take(0) =~= Seq::<bool>::empty());
    }
    while i < results.len()
        invariant
            i <= results@.len(),
            succeeded as nat == count_true(results@.take(i as int)),
            succeeded + failed == i,
        decreases results@.len() - i,
    {
        proof {
            assert(results@.take(i as int + 1).drop_last() =~= results@.take(i as int));
            assert(results@.take(i as int + 1).last() == results@[i as int]);
        }
        if results[i] {
            succeeded += 1;
        } else {
            failed += 1;
        }
        i += 1;
    }
    proof {
        assert(results@.take(results@.len() as int) =~= results@);
    }
    let code: i32 = if failed > 0 {
        1
    } else {
        0
    };
    (succeeded, failed, code)
}

/// The exit code a status command reports: non-zero exactly when any
/// warning or error was counted.
pub fn command_exit_code(s: &Summary) -> (r: i32)
    ensures
        s.warning + s.error > 0 ==> r == 1,
        s.warning + s.error == 0 ==> r == 0,
{
    if s.warning > 0 || s.error > 0 {
        1
    } else {
        0
    }
}

} // verus!
