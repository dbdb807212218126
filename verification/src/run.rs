//! The report of a check run and the bookkeeping of selected and skipped counts.

use vstd::prelude::*;
use crate::answer::{CheckRecord, SelectedExpectation};

verus! {

/// How often scope narrowing was tried, accepted and rejected during a run.
#[derive(Clone, Copy, Debug, PartialEq, Eq, Structural)]
pub struct NarrowingStats {
    pub attempted: usize,
    pub accepted: usize,
    pub rejected: usize,
}

impl NarrowingStats {
    pub fn new() -> (r: NarrowingStats)
        ensures
            r.attempted == 0,
            r.accepted == 0,
            r.rejected == 0,
    {
        NarrowingStats { attempted: 0, accepted: 0, rejected: 0 }
    }
}

/// What a check run did: its records, the expectations it did not select, and the
/// final selected, skipped and silent counts.
pub struct CheckRunReport {
    pub records: Vec<CheckRecord>,
    pub non_selected: Vec<SelectedExpectation>,
    pub selected: usize,
    pub skipped: usize,
    pub silent: usize,
    pub narrowing: NarrowingStats,
}

/// A failed check run: the error and what had been done before it.
pub struct CheckRunError {
    pub error: String,
    pub report: CheckRunReport,
}

/// `a` and `b` hold the same record.
pub open spec fn same_record(a: CheckRecord, b: CheckRecord) -> bool {
    &&& a.timestamp == b.timestamp
    &&& a.number == b.number
    &&& a.result == b.result
    &&& a.prompt == b.prompt
    &&& a.expected == b.expected
    &&& a.observed == b.observed
    &&& a.evidence == b.evidence
    &&& a.scope@ == b.scope@
    &&& a.scope_hash == b.scope_hash
    &&& a.id == b.id
    &&& a.display_id == b.display_id
    &&& a.cache_key == b.cache_key
}

/// `a` and `b` hold the same records, in the same order.
pub open spec fn same_records(a: Seq<CheckRecord>, b: Seq<CheckRecord>) -> bool {
    a.len() == b.len() && forall|k: int| 0 <= k < a.len() ==> same_record(#[trigger] a[k], b[k])
}

/// A copy of each record, in order.
pub fn copy_records(v: &Vec<CheckRecord>) -> (r: Vec<CheckRecord>)
    ensures
        same_records(r@, v@),
{
    let mut r: Vec<CheckRecord> = Vec::new();
    let mut i: usize = 0;
    while i < v.len()
        invariant
            i <= v.len(),
            r@.len() == i,
            forall|k: int| 0 <= k < i ==> same_record(#[trigger] r@[k], v@[k]),
        decreases v.len() - i,
    {
        r.push(v[i].duplicate());
        i += 1;
    }
    r
}

/// A copy of each selected expectation, in order.
pub fn copy_selected(v: &Vec<SelectedExpectation>) -> (r: Vec<SelectedExpectation>)
    ensures
        r@ == v@,
{
    let mut r: Vec<SelectedExpectation> = Vec::new();
    let mut i: usize = 0;
    while i < v.len()
        invariant
            i <= v.len(),
            r@ == v@.take(i as int),
        decreases v.len() - i,
    {
        r.push(v[i].duplicate());
        assert(v@.take(i + 1) =~= v@.take(i as int).push(v@[i as int]));
        i += 1;
    }
    assert(v@.take(v.len() as int) =~= v@);
    r
}

/// Bundles the parts of a finished run into its report.
pub fn check_run_report(
    records: Vec<CheckRecord>,
    non_selected: Vec<SelectedExpectation>,
    selected: usize,
    skipped: usize,
    silent: usize,
    narrowing: NarrowingStats,
) -> (r: CheckRunReport)
    ensures
        r.records == records,
        r.non_selected == non_selected,
        r.selected == selected,
        r.skipped == skipped,
        r.silent == silent,
        r.narrowing == narrowing,
{
    CheckRunReport { records, non_selected, selected, skipped, silent, narrowing }
}

/// The error of a run that stopped, with a copy of what it had done so far.
pub fn check_run_error(
    records: &Vec<CheckRecord>,
    non_selected: &Vec<SelectedExpectation>,
    selected: usize,
    skipped: usize,
    silent: usize,
    narrowing: NarrowingStats,
    error: String,
) -> (r: CheckRunError)
    ensures
        r.error == error,
        same_records(r.report.records@, records@),
        r.report.non_selected@ == non_selected@,
        r.report.selected == selected,
        r.report.skipped == skipped,
        r.report.silent == silent,
        r.report.narrowing == narrowing,
{
    CheckRunError {
        error,
        report: CheckRunReport {
            records: copy_records(records),
            non_selected: copy_selected(non_selected),
            selected,
            skipped,
            silent,
            narrowing,
        },
    }
}

/// Moves `expectations` out of the selected set: they join the non-selected list, the
/// selected count drops by their number (not below zero), and the skipped and silent
/// counts grow by it.
pub fn mark_expectations_skipped(
    expectations: Vec<SelectedExpectation>,
    non_selected: &mut Vec<SelectedExpectation>,
    selected: &mut usize,
    skipped: &mut usize,
    silent: &mut usize,
)
    requires
        *old(skipped) + expectations@.len() <= usize::MAX,
        *old(silent) + expectations@.len() <= usize::MAX,
    ensures
        final(non_selected)@ == old(non_selected)@ + expectations@,
        *final(selected) == if *old(selected) >= expectations@.len() {
            *old(selected) - expectations@.len()
        } else {
            0
        },
        *final(skipped) == *old(skipped) + expectations@.len(),
        *final(silent) == *old(silent) + expectations@.len(),
        *old(selected) >= expectations@.len() ==> *final(selected) + *final(skipped) == *old(selected)
            + *old(skipped),
{
    let count = expectations.len();
    let mut expectations = expectations;
    non_selected.append(&mut expectations);
    *selected = selected.saturating_sub(count);
    *skipped = *skipped + count;
    *silent = *silent + count;
}

} // verus!
