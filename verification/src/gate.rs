//! `canon gate`: the pre-commit decision over cached answers.
//!
//! A commit that changes `.canon/**` must change nothing else, and passes as it
//! is. Otherwise every selected expectation needs a cached answer for the staged
//! tree; `canon gate` fails when one is missing, or when one fails that did not fail
//! at `HEAD` (a regression).

use vstd::prelude::*;
use crate::answer::{CheckRecord, CheckResult, SelectedExpectation};
use crate::gitparse::{canon_path_spec, is_canon_only_staged_change_bytes, is_canon_project_path_bytes};
use crate::run::same_record;
use crate::text::str_eq;

verus! {

/// Whether `canon gate`'s arguments hold the option it refuses.
pub fn gate_refuses_ignore_cache(args: &Vec<String>) -> (r: bool)
    ensures
        r == exists|i: int| 0 <= i < args@.len() && #[trigger] args@[i]@ == "--ignore-cache"@,
{
    let mut i: usize = 0;
    while i < args.len()
        invariant
            i <= args.len(),
            forall|j: int| 0 <= j < i ==> #[trigger] args@[j]@ != "--ignore-cache"@,
        decreases args.len() - i,
    {
        if str_eq(args[i].as_str(), "--ignore-cache") {
            return true;
        }
        i += 1;
    }
    false
}

/// What the staged paths decide before any cache is read.
#[derive(Clone, Copy, Debug, PartialEq, Eq, Structural)]
pub enum GateStagedDecision {
    /// `.canon/**` changes are mixed with others: `canon gate` fails.
    Mixed,
    /// Only `.canon/**` changed: `canon gate` passes.
    CanonOnly,
    /// Nothing under `.canon` changed: the cached answers decide.
    CheckCache,
}

pub open spec fn has_canon_change(paths: Seq<Vec<u8>>) -> bool {
    exists|i: int| 0 <= i < paths.len() && canon_path_spec(#[trigger] paths[i]@)
}

pub fn gate_staged_decision(changed_paths: &Vec<Vec<u8>>) -> (r: GateStagedDecision)
    ensures
        has_canon_change(changed_paths@) && !(forall|i: int| 0 <= i < changed_paths@.len() ==> canon_path_spec(
            #[trigger] changed_paths@[i]@,
        )) ==> r == GateStagedDecision::Mixed,
        has_canon_change(changed_paths@) && (forall|i: int| 0 <= i < changed_paths@.len() ==> canon_path_spec(
            #[trigger] changed_paths@[i]@,
        )) ==> r == GateStagedDecision::CanonOnly,
        !has_canon_change(changed_paths@) ==> r == GateStagedDecision::CheckCache,
{
    let mut found = false;
    let mut i: usize = 0;
    while i < changed_paths.len()
        invariant
            i <= changed_paths.len(),
            found == exists|j: int| 0 <= j < i && canon_path_spec(#[trigger] changed_paths@[j]@),
        decreases changed_paths.len() - i,
    {
        if is_canon_project_path_bytes(changed_paths[i].as_slice()) {
            found = true;
        }
        i += 1;
    }
    if !found {
        GateStagedDecision::CheckCache
    } else if is_canon_only_staged_change_bytes(changed_paths) {
        GateStagedDecision::CanonOnly
    } else {
        GateStagedDecision::Mixed
    }
}

/// The usage error of `canon gate` given `--ignore-cache`.
pub fn gate_ignore_cache_message() -> (r: &'static str)
    ensures
        r@ == "canon gate does not accept --ignore-cache"@,
{
    "canon gate does not accept --ignore-cache"
}

/// The message of a gate that found mixed changes.
pub fn gate_mixed_changes_message() -> (r: &'static str)
    ensures
        r@ == "canon gate: .canon/** changes must not be mixed with non-.canon changes"@,
{
    "canon gate: .canon/** changes must not be mixed with non-.canon changes"
}

/// The cached answer of an expectation for one tree.
pub enum GateCacheResult {
    Pass,
    Fail(CheckRecord),
    Missing,
}

/// The cached answer that a reusable history record (if any) gives.
pub fn exact_gate_cache_result_for_source(record: Option<CheckRecord>) -> (r: GateCacheResult)
    ensures
        match record {
            None => r is Missing,
            Some(rec) => if rec.result == CheckResult::Pass {
                r is Pass
            } else {
                r == GateCacheResult::Fail(rec)
            },
        },
{
    match record {
        Some(rec) => if rec.passed() {
            GateCacheResult::Pass
        } else {
            GateCacheResult::Fail(rec)
        },
        None => GateCacheResult::Missing,
    }
}

/// What `canon gate` found: expectations without a cached answer and records that
/// regressed to a cached failure.
pub struct GateFindings {
    pub missing: Vec<SelectedExpectation>,
    pub failing: Vec<CheckRecord>,
}

/// The expectations among the first `n` whose current answer is missing.
pub open spec fn gate_missing(exps: Seq<SelectedExpectation>, current: Seq<GateCacheResult>, n: int) -> Seq<SelectedExpectation>
    decreases n,
{
    if n <= 0 {
        Seq::empty()
    } else if current[n - 1] is Missing {
        gate_missing(exps, current, n - 1).push(exps[n - 1])
    } else {
        gate_missing(exps, current, n - 1)
    }
}

/// The records among the first `n` that fail now and did not fail before.
pub open spec fn gate_failing(previous: Seq<GateCacheResult>, current: Seq<GateCacheResult>, n: int) -> Seq<CheckRecord>
    decreases n,
{
    if n <= 0 {
        Seq::empty()
    } else {
        match current[n - 1] {
            GateCacheResult::Fail(rec) => if previous[n - 1] is Fail {
                gate_failing(previous, current, n - 1)
            } else {
                gate_failing(previous, current, n - 1).push(rec)
            },
            _ => gate_failing(previous, current, n - 1),
        }
    }
}

/// Compares each expectation's cached answer at `HEAD` (`previous`) with the one
/// for the staged tree (`current`).
pub fn gate_findings(expectations: &Vec<SelectedExpectation>, previous: &Vec<GateCacheResult>, current: &Vec<GateCacheResult>) -> (r: GateFindings)
    requires
        previous@.len() == expectations@.len(),
        current@.len() == expectations@.len(),
    ensures
        r.missing@ == gate_missing(expectations@, current@, expectations@.len() as int),
        r.failing@.len() == gate_failing(previous@, current@, expectations@.len() as int).len(),
        forall|k: int|
            0 <= k < r.failing@.len() ==> same_record(
                #[trigger] r.failing@[k],
                gate_failing(previous@, current@, expectations@.len() as int)[k],
            ),
{
    let mut missing: Vec<SelectedExpectation> = Vec::new();
    let mut failing: Vec<CheckRecord> = Vec::new();
    let mut i: usize = 0;
    while i < expectations.len()
        invariant
            i <= expectations.len(),
            previous@.len() == expectations@.len(),
            current@.len() == expectations@.len(),
            missing@ == gate_missing(expectations@, current@, i as int),
            failing@.len() == gate_failing(previous@, current@, i as int).len(),
            forall|k: int|
                0 <= k < failing@.len() ==> same_record(
                    #[trigger] failing@[k],
                    gate_failing(previous@, current@, i as int)[k],
                ),
        decreases expectations.len() - i,
    {
        match &current[i] {
            GateCacheResult::Fail(rec) => {
                let was_failing = match &previous[i] {
                    GateCacheResult::Fail(_) => true,
                    _ => false,
                };
                if !was_failing {
                    failing.push(rec.duplicate());
                }
            },
            GateCacheResult::Missing => {
                missing.push(expectations[i].duplicate());
            },
            GateCacheResult::Pass => {},
        }
        i += 1;
    }
    GateFindings { missing, failing }
}

/// Each of the first `n` expectations is cached as a pass now, or as a failure that
/// was already a failure at `HEAD`.
pub open spec fn no_new_problem(previous: Seq<GateCacheResult>, current: Seq<GateCacheResult>, n: int) -> bool {
    forall|k: int| 0 <= k < n ==> (#[trigger] current[k] is Pass || (current[k] is Fail && previous[k] is Fail))
}

/// `canon gate` finds nothing exactly when every expectation's staged answer is a
/// cached pass, or a cached failure that `HEAD` already had: a commit is refused only
/// for a missing answer or a new failure.
pub proof fn law_gate_finds_nothing_iff_no_new_problem(
    exps: Seq<SelectedExpectation>,
    previous: Seq<GateCacheResult>,
    current: Seq<GateCacheResult>,
    n: int,
)
    requires
        0 <= n <= exps.len(),
        previous.len() == exps.len(),
        current.len() == exps.len(),
    ensures
        (gate_missing(exps, current, n).len() == 0 && gate_failing(previous, current, n).len() == 0)
            <==> no_new_problem(previous, current, n),
    decreases n,
{
    if n > 0 {
        law_gate_finds_nothing_iff_no_new_problem(exps, previous, current, n - 1);
        let k = n - 1;
        if !no_new_problem(previous, current, n) {
            if no_new_problem(previous, current, n - 1) {
                assert(!(current[k] is Pass || (current[k] is Fail && previous[k] is Fail)));
            }
        }
        if no_new_problem(previous, current, n) {
            assert(current[k] is Pass || (current[k] is Fail && previous[k] is Fail));
            assert(no_new_problem(previous, current, n - 1));
        }
    }
}

/// `canon gate` passes when nothing is missing and nothing regressed.
pub fn gate_passes(findings: &GateFindings) -> (r: bool)
    ensures
        r == (findings.missing@.len() == 0 && findings.failing@.len() == 0),
{
    findings.missing.len() == 0 && findings.failing.len() == 0
}

/// The display ids of `exps` separated by `, `.
pub open spec fn display_ids_joined(exps: Seq<SelectedExpectation>) -> Seq<char>
    decreases exps.len(),
{
    if exps.len() == 0 {
        Seq::empty()
    } else if exps.len() == 1 {
        exps[0].display_id@
    } else {
        display_ids_joined(exps.drop_last()) + ", "@ + exps.last().display_id@
    }
}

pub fn join_display_ids(exps: &Vec<SelectedExpectation>) -> (r: String)
    ensures
        r@ == display_ids_joined(exps@),
{
    let mut out = String::new();
    let mut i: usize = 0;
    while i < exps.len()
        invariant
            i <= exps.len(),
            out@ == display_ids_joined(exps@.take(i as int)),
        decreases exps.len() - i,
    {
        assert(exps@.take(i + 1).drop_last() =~= exps@.take(i as int));
        if i > 0 {
            out.append(", ");
        }
        out.append(exps[i].display_id.as_str());
        proof {
            if i == 0 {
                assert(out@ =~= exps@.take(1)[0].display_id@);
            }
        }
        i += 1;
    }
    assert(exps@.take(exps.len() as int) =~= exps@);
    out
}

/// The line that names the expectations without a cached answer.
pub fn gate_missing_message(missing: &Vec<SelectedExpectation>) -> (r: String)
    ensures
        r@ == "canon gate: missing cached answers for expectations: "@ + display_ids_joined(missing@),
{
    let mut m = String::from_str("canon gate: missing cached answers for expectations: ");
    let ids = join_display_ids(missing);
    m.append(ids.as_str());
    m
}

/// The advice after missing answers: regressions are fixed first.
pub fn gate_missing_cache_advice(has_regressions: bool) -> (r: Option<&'static str>)
    ensures
        has_regressions ==> (r matches Some(s) && s@ == "canon gate: fix staged regressions before filling missing cache"@),
        !has_regressions ==> (r matches Some(s) && s@ == "canon gate: run `canon check` before committing"@),
{
    if has_regressions {
        Some("canon gate: fix staged regressions before filling missing cache")
    } else {
        Some("canon gate: run `canon check` before committing")
    }
}

} // verus!
