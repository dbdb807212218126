//! The decisions of a check run, as a state machine.
//!
//! The caller performs each [`RunAction`] (a cache lookup, an interrogation, a
//! scope hash, storing a record) and hands back what came of it as a [`RunEvent`];
//! [`CheckRun::step`] decides what comes next. The run asks the selected
//! expectations in order, stops after the first record that does not pass unless
//! every expectation is to be checked, verifies each narrower scope that an
//! evaluator proposes with an independent interrogation, and stops after a turn
//! that crossed the token limit, compacted its context or asked to stop.

use vstd::prelude::*;
use crate::answer::{clone_strings, CheckRecord, CheckResult, SelectedExpectation};
use crate::output::{record_requires_human_review, review_spec};
use crate::policy::{
    is_reusable_history_record, narrowed_scope_is_accepted, restore_record_to_enforced_scope,
    reusable_spec, saturating_sum, turn_exceeds_break_after_tokens, InterrogationResult,
};
use crate::run::{
    check_run_error, check_run_report, mark_expectations_skipped, same_record, same_records,
    CheckRunError, CheckRunReport, NarrowingStats,
};
use crate::scope::{is_strict_scope_subset, scope_views, strict_subset};
use crate::finalsel::{
    cache_passes, cache_remaining, final_selected_after_current_pass_cache, final_selected_expectations,
    first_failure, split_by, CheckCacheHit,
};

verus! {

/// What the turns of one expectation asked for: to stop after it because of the
/// token limit, a context compaction, or an explicit request.
#[derive(Clone, Copy, Debug, PartialEq, Eq, Structural)]
pub struct TurnFlags {
    pub token_break: bool,
    pub compacted: bool,
    pub stop_after_current: bool,
}

/// What the run waits for.
pub enum RunPhase {
    /// Ready to begin the next expectation, or to finish.
    Ready,
    /// A cached record for the current expectation was asked for.
    AwaitCache,
    /// The current expectation is being interrogated.
    AwaitInterrogation,
    /// The narrower scope an evaluator proposed is being verified.
    AwaitVerification { enforced_scope: Vec<String>, initial: CheckRecord, flags: TurnFlags },
    /// The narrowing was rejected; the hash of the enforced scope is needed to
    /// restore the wide record.
    AwaitEnforcedHash { enforced_scope: Vec<String>, initial: CheckRecord, flags: TurnFlags },
    /// The record of the current expectation is being stored.
    AwaitStored { record: CheckRecord, stop: bool },
    /// The run is over.
    Finished,
}

/// What came of the last action.
pub enum RunEvent {
    Begin,
    /// The cached record of the current expectation, if the cache holds one.
    CacheLookup(Option<CheckRecord>),
    /// The interrogation of the current expectation, and the scope it ended under.
    Interrogated { enforced_scope: Vec<String>, result: InterrogationResult },
    /// The independent interrogation under the narrower scope.
    Verified(InterrogationResult),
    EnforcedScopeHash(String),
    /// The record was stored and written out.
    Stored,
}

/// What the caller does next.
pub enum RunAction {
    /// Look for a cached record of the expectation at this position.
    LookupCache(usize),
    /// Interrogate the expectation at this position.
    Interrogate(usize),
    /// Interrogate the expectation at this position again, under `scope`.
    VerifyNarrowing { index: usize, scope: Vec<String> },
    /// Compute the hash of this scope.
    HashEnforcedScope(Vec<String>),
    /// Store the record: a fresh one is added to history when `append_history`
    /// holds and recorded as the latest non-pass where it does not pass; either is
    /// written to the output.
    Store { record: CheckRecord, fresh: bool, append_history: bool },
    /// The run is over; its report is ready.
    Finish,
}

/// A check run in progress.
pub struct CheckRun {
    pub records: Vec<CheckRecord>,
    pub non_selected: Vec<SelectedExpectation>,
    pub selected: usize,
    pub skipped: usize,
    pub silent: usize,
    pub narrowing: NarrowingStats,
    /// The expectations to ask, in order.
    pub queue: Vec<SelectedExpectation>,
    /// The position in `queue` of the current expectation.
    pub position: usize,
    pub ignore_cache: bool,
    pub stop_after_non_pass: bool,
    pub break_after_tokens: Option<u64>,
    pub phase: RunPhase,
    /// How many candidates the run was given.
    pub candidates: usize,
    /// How many expectations were skipped before the run began.
    pub base_skipped: usize,
    /// The expectations that were not selected before the run began.
    pub base_non_selected: Ghost<Seq<SelectedExpectation>>,
}

/// The flags of one interrogation.
pub open spec fn turn_flags(r: InterrogationResult, limit: Option<u64>) -> TurnFlags {
    TurnFlags {
        token_break: match (limit, r.turn_usage) {
            (Some(l), Some(u)) => saturating_sum(u.input_tokens, u.output_tokens) > l,
            _ => false,
        },
        compacted: r.context_compacted,
        stop_after_current: r.stop_after_current_expectation,
    }
}

pub open spec fn or_flags(a: TurnFlags, b: TurnFlags) -> TurnFlags {
    TurnFlags {
        token_break: a.token_break || b.token_break,
        compacted: a.compacted || b.compacted,
        stop_after_current: a.stop_after_current || b.stop_after_current,
    }
}

/// A record whose answer needs no review and whose scope is strictly narrower than
/// the enforced scope must be verified before its scope is trusted.
pub open spec fn needs_verification(record: CheckRecord, enforced: Seq<String>) -> bool {
    !review_spec(record) && strict_subset(scope_views(record.scope@), scope_views(enforced))
}

/// Whether the run stops after this record.
pub open spec fn stops_after(record: CheckRecord, flags: TurnFlags, stop_after_non_pass: bool) -> bool {
    (stop_after_non_pass && record.result != CheckResult::Pass) || flags.token_break
        || flags.compacted || flags.stop_after_current
}

/// The event that the phase waits for.
pub open spec fn expects(phase: RunPhase, event: RunEvent) -> bool {
    match phase {
        RunPhase::Ready => event is Begin,
        RunPhase::AwaitCache => event is CacheLookup,
        RunPhase::AwaitInterrogation => event is Interrogated,
        RunPhase::AwaitVerification { .. } => event is Verified,
        RunPhase::AwaitEnforcedHash { .. } => event is EnforcedScopeHash,
        RunPhase::AwaitStored { .. } => event is Stored,
        RunPhase::Finished => false,
    }
}

/// The record belongs to the expectation at the run's current position.
pub open spec fn belongs_here(run: CheckRun, record: CheckRecord) -> bool {
    run.position < run.queue@.len() && record.id@ == run.queue@[run.position as int].id@
}

/// A record that an event carries belongs to the current expectation.
pub open spec fn event_belongs(run: CheckRun, event: RunEvent) -> bool {
    match event {
        RunEvent::CacheLookup(Some(rec)) => belongs_here(run, rec),
        RunEvent::Interrogated { result, .. } => belongs_here(run, result.record),
        RunEvent::Verified(r) => belongs_here(run, r.record),
        _ => true,
    }
}

/// Each record made so far is that of the expectation at its position in the
/// queue, and a record held while the current expectation settles is its own.
pub open spec fn records_follow_queue(run: CheckRun) -> bool {
    &&& run.records@.len() <= run.queue@.len()
    &&& forall|k: int| 0 <= k < run.records@.len() ==> #[trigger] run.records@[k].id@ == run.queue@[k].id@
    &&& match run.phase {
        RunPhase::AwaitVerification { initial, .. } => belongs_here(run, initial),
        RunPhase::AwaitEnforcedHash { initial, .. } => belongs_here(run, initial),
        RunPhase::AwaitStored { record, .. } => belongs_here(run, record),
        _ => true,
    }
}

/// Phases in which the current expectation had its narrowing counted.
pub open spec fn counted_phase(phase: RunPhase) -> bool {
    phase is AwaitVerification || phase is AwaitEnforcedHash || phase is AwaitStored
}


/// Beginning the expectation at the current position, or finishing.
pub open spec fn begin_post(old: CheckRun, new: CheckRun, action: RunAction) -> bool {
    &&& new.records == old.records
    &&& new.position == old.position
    &&& new.narrowing == old.narrowing
    &&& old.position >= old.queue@.len() ==> new.phase is Finished && action is Finish
    &&& old.position < old.queue@.len() && !old.ignore_cache ==> new.phase is AwaitCache
        && action == RunAction::LookupCache(old.position)
    &&& old.position < old.queue@.len() && old.ignore_cache ==> new.phase is AwaitInterrogation
        && action == RunAction::Interrogate(old.position)
}

/// Settling on `record` as the current expectation's record: it is handed out to
/// be stored, added to history where it is reusable.
pub open spec fn settle_post(old: CheckRun, record: CheckRecord, flags: TurnFlags, new: CheckRun, action: RunAction) -> bool {
    &&& new.records == old.records
    &&& new.position == old.position
    &&& new.phase == RunPhase::AwaitStored {
        record,
        stop: stops_after(record, flags, old.stop_after_non_pass),
    }
    &&& action matches RunAction::Store { record: r, fresh, append_history }
    &&& same_record(r, record)
    &&& fresh
    &&& append_history == reusable_spec(record)
}

pub open spec fn narrowing_with(n: NarrowingStats, attempted: int, accepted: int, rejected: int) -> bool {
    n.attempted == attempted && n.accepted == accepted && n.rejected == rejected
}

/// What one step does, for each phase and the event it waits for.
pub open spec fn step_post(old: CheckRun, event: RunEvent, new: CheckRun, action: RunAction) -> bool {
    let limit = old.break_after_tokens;
    let n = old.narrowing;
    match old.phase {
        RunPhase::Ready => begin_post(old, new, action),
        RunPhase::AwaitCache => match event {
            RunEvent::CacheLookup(Some(rec)) => {
                &&& new.records == old.records
                &&& new.position == old.position
                &&& new.narrowing == old.narrowing
                &&& new.phase == RunPhase::AwaitStored {
                    record: rec,
                    stop: old.stop_after_non_pass && rec.result != CheckResult::Pass,
                }
                &&& action matches RunAction::Store { record: r, fresh, append_history }
                &&& same_record(r, rec)
                &&& !fresh
                &&& !append_history
            },
            _ => {
                &&& new.records == old.records
                &&& new.position == old.position
                &&& new.narrowing == old.narrowing
                &&& new.phase is AwaitInterrogation
                &&& action == RunAction::Interrogate(old.position)
            },
        },
        RunPhase::AwaitInterrogation => match event {
            RunEvent::Interrogated { enforced_scope, result } => {
                let flags = turn_flags(result, limit);
                if needs_verification(result.record, enforced_scope@) {
                    &&& new.records == old.records
                    &&& new.position == old.position
                    &&& narrowing_with(new.narrowing, n.attempted + 1, n.accepted as int, n.rejected as int)
                    &&& new.phase == RunPhase::AwaitVerification {
                        enforced_scope,
                        initial: result.record,
                        flags,
                    }
                    &&& action matches RunAction::VerifyNarrowing { index, scope }
                    &&& index == old.position
                    &&& scope@ == result.record.scope@
                } else {
                    &&& new.narrowing == old.narrowing
                    &&& settle_post(old, result.record, flags, new, action)
                }
            },
            _ => false,
        },
        RunPhase::AwaitVerification { enforced_scope, initial, flags } => match event {
            RunEvent::Verified(narrowed) => {
                let both = or_flags(flags, turn_flags(narrowed, limit));
                if narrowed.record.observed@ == initial.observed@ && reusable_spec(narrowed.record) {
                    &&& narrowing_with(new.narrowing, n.attempted as int, n.accepted + 1, n.rejected as int)
                    &&& settle_post(old, narrowed.record, both, new, action)
                } else {
                    &&& new.records == old.records
                    &&& new.position == old.position
                    &&& narrowing_with(new.narrowing, n.attempted as int, n.accepted as int, n.rejected + 1)
                    &&& new.phase == RunPhase::AwaitEnforcedHash { enforced_scope, initial, flags: both }
                    &&& action matches RunAction::HashEnforcedScope(s)
                    &&& s@ == enforced_scope@
                }
            },
            _ => false,
        },
        RunPhase::AwaitEnforcedHash { enforced_scope, initial, flags } => match event {
            RunEvent::EnforcedScopeHash(h) => {
                &&& new.narrowing == old.narrowing
                &&& new.phase matches RunPhase::AwaitStored { record, stop }
                &&& record == (CheckRecord { scope: record.scope, scope_hash: h, ..initial })
                &&& record.scope@ == enforced_scope@
                &&& settle_post(old, record, flags, new, action)
            },
            _ => false,
        },
        RunPhase::AwaitStored { record, stop } => {
            &&& new.records@ == old.records@.push(record)
            &&& new.position == old.position + 1
            &&& new.narrowing == old.narrowing
            &&& stop ==> new.phase is Finished && action is Finish
            &&& !stop ==> begin_post(CheckRun { records: new.records, position: new.position, ..old }, new, action)
        },
        RunPhase::Finished => false,
    }
}

/// Without `--all`, a run ends after the first record it stores that does not
/// pass, whether the record came from the cache or from an interrogation: when a
/// step hands out such a record to be stored, the step after it is stored finishes
/// the run.
pub proof fn law_non_pass_ends_run(
    r0: CheckRun,
    e0: RunEvent,
    r1: CheckRun,
    a1: RunAction,
    r2: CheckRun,
    a2: RunAction,
)
    requires
        r0.stop_after_non_pass,
        step_post(r0, e0, r1, a1),
        r1.same_frame(&r0),
        a1 matches RunAction::Store { record, .. } && record.result != CheckResult::Pass,
        step_post(r1, RunEvent::Stored, r2, a2),
    ensures
        a2 is Finish,
        r2.phase is Finished,
        r2.records@.len() == r1.records@.len() + 1,
{
    let record = a1->Store_record;
    match r0.phase {
        RunPhase::Ready => {
            assert(!(a1 is Store));
        },
        RunPhase::AwaitStored { .. } => {
            assert(!(a1 is Store));
        },
        _ => {},
    }
    assert(r1.phase matches RunPhase::AwaitStored { record: held, stop } && stop && held.result == record.result);
}

/// The candidates kept and removed by the cooldown among the first `k` together
/// number `k` while no lookup failed, and never more than `k`.
proof fn lemma_split_counts(sel: Seq<SelectedExpectation>, removed: Seq<Result<bool, String>>, k: int)
    requires
        0 <= k <= sel.len() == removed.len(),
    ensures
        split_by(sel, removed, k, true).len() + split_by(sel, removed, k, false).len() <= k,
        first_failure(removed, k) is None ==> split_by(sel, removed, k, true).len() + split_by(
            sel,
            removed,
            k,
            false,
        ).len() == k,
    decreases k,
{
    if k > 0 {
        lemma_split_counts(sel, removed, k - 1);
    }
}

proof fn lemma_first_failure_bound(removed: Seq<Result<bool, String>>, k: int)
    ensures
        first_failure(removed, k) matches Some(i) ==> 0 <= i < k && i < removed.len(),
    decreases k,
{
    if k > 0 && k <= removed.len() {
        lemma_first_failure_bound(removed, k - 1);
    }
}

proof fn lemma_cache_counts(sel: Seq<SelectedExpectation>, hits: Seq<Option<CheckCacheHit>>, k: int)
    requires
        0 <= k <= sel.len() == hits.len(),
    ensures
        cache_remaining(sel, hits, k).len() + cache_passes(sel, hits, k).len() == k,
    decreases k,
{
    if k > 0 {
        lemma_cache_counts(sel, hits, k - 1);
    }
}

/// The counts of a whole run's report, given how many candidates it started from,
/// how many were skipped and which were not selected before it: the silent skips
/// follow the given non-selected expectations, each is counted as skipped, and
/// with the final selection they make up the candidates; no more records are made
/// than expectations are selected.
pub open spec fn report_counts(r: CheckRunReport, candidates: nat, base_skipped: nat, base: Seq<SelectedExpectation>) -> bool {
    let s = r.non_selected@.len() - base.len();
    &&& r.non_selected@.len() >= base.len()
    &&& r.non_selected@.take(base.len() as int) == base
    &&& r.silent == s
    &&& r.skipped == base_skipped + s
    &&& r.selected + s == candidates
    &&& r.records@.len() <= r.selected
}

/// The expectations of the passing cache hits, in order.
pub open spec fn pass_expectations(ps: Seq<(SelectedExpectation, CheckCacheHit)>) -> Seq<SelectedExpectation> {
    Seq::new(ps.len(), |i: int| ps[i].0)
}

impl CheckRun {
    /// The cooldown step of the final selection: `removed` tells for each candidate
    /// whether a fresh pass removes it, or why its history could not be read. The
    /// removed candidates are skipped silently; the first failed lookup stops the
    /// step with its error, after the candidates removed before it were skipped.
    /// The candidates that stay are returned, and are what the run now selects.
    pub fn apply_cooldown(&mut self, candidates: Vec<SelectedExpectation>, removed: Vec<Result<bool, String>>) -> (r: Result<Vec<SelectedExpectation>, String>)
        requires
            candidates@.len() == removed@.len(),
            old(self).skipped + candidates@.len() <= usize::MAX,
            old(self).silent + candidates@.len() <= usize::MAX,
        ensures
            match first_failure(removed@, removed@.len() as int) {
                Some(i) => {
                    &&& r matches Err(e) && e == removed@[i]->Err_0
                    &&& final(self).non_selected@ == old(self).non_selected@ + split_by(candidates@, removed@, i, false)
                    &&& final(self).silent == old(self).silent + split_by(candidates@, removed@, i, false).len()
                },
                None => {
                    &&& r matches Ok(v) && v@ == split_by(candidates@, removed@, candidates@.len() as int, true)
                    &&& final(self).non_selected@ == old(self).non_selected@ + split_by(
                        candidates@,
                        removed@,
                        candidates@.len() as int,
                        false,
                    )
                    &&& final(self).silent == old(self).silent + split_by(
                        candidates@,
                        removed@,
                        candidates@.len() as int,
                        false,
                    ).len()
                },
            },
            final(self).skipped - old(self).skipped == final(self).silent - old(self).silent,
            final(self).records == old(self).records,
            final(self).queue == old(self).queue,
            final(self).position == old(self).position,
            final(self).phase == old(self).phase,
            final(self).narrowing == old(self).narrowing,
            final(self).candidates == old(self).candidates,
            final(self).base_skipped == old(self).base_skipped,
            final(self).base_non_selected == old(self).base_non_selected,
            old(self).counts_ok() && old(self).queue@.len() == 0 && old(self).selected == candidates@.len() ==> {
                &&& final(self).counts_ok()
                &&& r matches Ok(v) ==> final(self).selected == v@.len()
            },
    {
        let ghost cand = candidates@;
        let ghost rem = removed@;
        proof {
            lemma_split_counts(cand, rem, cand.len() as int);
            if let Some(i) = first_failure(rem, rem.len() as int) {
                lemma_first_failure_bound(rem, rem.len() as int);
                lemma_split_counts(cand, rem, i);
            }
        }
        match final_selected_expectations(candidates, removed) {
            Ok(selection) => {
                self.skip(selection.skipped);
                Ok(selection.selected)
            },
            Err(err) => {
                self.skip(err.skipped);
                Err(err.error)
            },
        }
    }

    /// The pass-cache step of the final selection: `hits` holds each candidate's
    /// exact-cache hit. A passing hit skips its candidate silently; the others are
    /// returned, in order, and are what the run now selects.
    pub fn apply_pass_cache(&mut self, candidates: Vec<SelectedExpectation>, hits: Vec<Option<CheckCacheHit>>) -> (r: Vec<SelectedExpectation>)
        requires
            candidates@.len() == hits@.len(),
            old(self).skipped + candidates@.len() <= usize::MAX,
            old(self).silent + candidates@.len() <= usize::MAX,
        ensures
            r@ == cache_remaining(candidates@, hits@, candidates@.len() as int),
            final(self).non_selected@ == old(self).non_selected@ + pass_expectations(
                cache_passes(candidates@, hits@, candidates@.len() as int),
            ),
            final(self).silent == old(self).silent + cache_passes(candidates@, hits@, candidates@.len() as int).len(),
            final(self).skipped - old(self).skipped == final(self).silent - old(self).silent,
            final(self).records == old(self).records,
            final(self).queue == old(self).queue,
            final(self).position == old(self).position,
            final(self).phase == old(self).phase,
            final(self).narrowing == old(self).narrowing,
            final(self).candidates == old(self).candidates,
            final(self).base_skipped == old(self).base_skipped,
            final(self).base_non_selected == old(self).base_non_selected,
            old(self).counts_ok() && old(self).queue@.len() == 0 && old(self).selected == candidates@.len() ==> {
                &&& final(self).counts_ok()
                &&& final(self).selected == r@.len()
            },
    {
        proof {
            lemma_cache_counts(candidates@, hits@, candidates@.len() as int);
        }
        let selection = final_selected_after_current_pass_cache(candidates, hits);
        let mut passes: Vec<SelectedExpectation> = Vec::new();
        let mut i: usize = 0;
        while i < selection.skipped_passes.len()
            invariant
                i <= selection.skipped_passes@.len(),
                passes@ == pass_expectations(selection.skipped_passes@).take(i as int),
            decreases selection.skipped_passes.len() - i,
        {
            passes.push(selection.skipped_passes[i].0.duplicate());
            assert(passes@ =~= pass_expectations(selection.skipped_passes@).take(i + 1));
            i += 1;
        }
        assert(pass_expectations(selection.skipped_passes@).take(i as int) =~= pass_expectations(
            selection.skipped_passes@,
        ));
        self.skip(passes);
        selection.selected
    }
}

impl CheckRun {
    /// The run's invariant: one record per expectation done, and every narrowing
    /// attempt either accepted, rejected or being verified.
    pub open spec fn wf(&self) -> bool {
        &&& self.records@.len() == self.position
        &&& self.position <= self.queue@.len() <= usize::MAX
        &&& (!(self.phase is Ready) && !(self.phase is Finished)) ==> self.position
            < self.queue@.len()
        &&& self.narrowing.attempted == self.narrowing.accepted + self.narrowing.rejected + if self.phase is AwaitVerification {
            1int
        } else {
            0int
        }
        &&& self.narrowing.attempted <= self.position + if counted_phase(self.phase) {
            1int
        } else {
            0int
        }
    }

    /// The fields that a step leaves alone.
    pub open spec fn same_frame(&self, other: &CheckRun) -> bool {
        &&& self.non_selected == other.non_selected
        &&& self.selected == other.selected
        &&& self.skipped == other.skipped
        &&& self.silent == other.silent
        &&& self.queue == other.queue
        &&& self.ignore_cache == other.ignore_cache
        &&& self.stop_after_non_pass == other.stop_after_non_pass
        &&& self.break_after_tokens == other.break_after_tokens
        &&& self.candidates == other.candidates
        &&& self.base_skipped == other.base_skipped
        &&& self.base_non_selected == other.base_non_selected
    }

    /// The run's counts: every candidate either stays selected or was skipped
    /// silently (by the cooldown or a passing cache hit); each silent skip is counted
    /// as skipped and appended, in order, to the expectations given as not selected;
    /// and no more records are made than expectations are selected.
    pub open spec fn counts_ok(&self) -> bool {
        &&& self.selected + self.silent == self.candidates
        &&& self.skipped == self.base_skipped + self.silent
        &&& self.non_selected@.len() == self.base_non_selected@.len() + self.silent
        &&& self.non_selected@.take(self.base_non_selected@.len() as int) == self.base_non_selected@
        &&& (self.queue@.len() == 0 || self.queue@.len() == self.selected)
        &&& self.records@.len() <= self.position <= self.queue@.len()
    }

    /// A run over the `selected` candidates, with `skipped` already skipped and
    /// `non_selected` not selected; `check_all` keeps going after a record that
    /// does not pass.
    pub fn new(
        selected: usize,
        skipped: usize,
        non_selected: Vec<SelectedExpectation>,
        ignore_cache: bool,
        check_all: bool,
        break_after_tokens: Option<u64>,
    ) -> (r: CheckRun)
        ensures
            r.wf(),
            r.phase is Ready,
            r.records@.len() == 0,
            r.queue@.len() == 0,
            r.position == 0,
            r.non_selected == non_selected,
            r.selected == selected,
            r.skipped == skipped,
            r.silent == 0,
            r.narrowing.attempted == 0 && r.narrowing.accepted == 0 && r.narrowing.rejected == 0,
            r.ignore_cache == ignore_cache,
            r.stop_after_non_pass == !check_all,
            r.break_after_tokens == break_after_tokens,
            r.candidates == selected,
            r.base_skipped == skipped,
            r.base_non_selected@ == non_selected@,
            r.counts_ok(),
            records_follow_queue(r),
    {
        let ghost base = non_selected@;
        assert(non_selected@.take(non_selected@.len() as int) =~= non_selected@);
        CheckRun {
            records: Vec::new(),
            non_selected,
            selected,
            skipped,
            silent: 0,
            narrowing: NarrowingStats::new(),
            queue: Vec::new(),
            position: 0,
            ignore_cache,
            stop_after_non_pass: !check_all,
            break_after_tokens,
            phase: RunPhase::Ready,
            candidates: selected,
            base_skipped: skipped,
            base_non_selected: Ghost(base),
        }
    }

    /// Moves `expectations` out of the selection: they are skipped, silently.
    pub fn skip(&mut self, expectations: Vec<SelectedExpectation>)
        requires
            old(self).skipped + expectations@.len() <= usize::MAX,
            old(self).silent + expectations@.len() <= usize::MAX,
        ensures
            final(self).non_selected@ == old(self).non_selected@ + expectations@,
            final(self).selected == if old(self).selected >= expectations@.len() {
                old(self).selected - expectations@.len()
            } else {
                0
            },
            final(self).skipped == old(self).skipped + expectations@.len(),
            final(self).silent == old(self).silent + expectations@.len(),
            final(self).records == old(self).records,
            final(self).queue == old(self).queue,
            final(self).position == old(self).position,
            final(self).narrowing == old(self).narrowing,
            final(self).phase == old(self).phase,
            final(self).ignore_cache == old(self).ignore_cache,
            final(self).stop_after_non_pass == old(self).stop_after_non_pass,
            final(self).break_after_tokens == old(self).break_after_tokens,
            final(self).candidates == old(self).candidates,
            final(self).base_skipped == old(self).base_skipped,
            final(self).base_non_selected == old(self).base_non_selected,
            old(self).counts_ok() && old(self).queue@.len() == 0 && old(self).selected >= expectations@.len()
                ==> final(self).counts_ok(),
    {
        let ghost before = self.non_selected@;
        mark_expectations_skipped(
            expectations,
            &mut self.non_selected,
            &mut self.selected,
            &mut self.skipped,
            &mut self.silent,
        );
        proof {
            let b = self.base_non_selected@.len() as int;
            if b <= before.len() {
                assert(self.non_selected@.take(b) =~= before.take(b));
            }
        }
    }

    /// Fixes the expectations to ask, in order; the selected count becomes theirs.
    pub fn set_queue(&mut self, queue: Vec<SelectedExpectation>)
        requires
            old(self).phase is Ready,
            old(self).position == 0,
            old(self).records@.len() == 0,
            old(self).narrowing.attempted == 0,
            old(self).narrowing.accepted == 0,
            old(self).narrowing.rejected == 0,
        ensures
            final(self).wf(),
            final(self).phase is Ready,
            final(self).queue == queue,
            final(self).selected == queue@.len(),
            final(self).position == 0,
            final(self).records == old(self).records,
            final(self).non_selected == old(self).non_selected,
            final(self).skipped == old(self).skipped,
            final(self).silent == old(self).silent,
            final(self).narrowing == old(self).narrowing,
            final(self).ignore_cache == old(self).ignore_cache,
            final(self).stop_after_non_pass == old(self).stop_after_non_pass,
            final(self).break_after_tokens == old(self).break_after_tokens,
            final(self).candidates == old(self).candidates,
            final(self).base_skipped == old(self).base_skipped,
            final(self).base_non_selected == old(self).base_non_selected,
            old(self).counts_ok() && queue@.len() == old(self).selected ==> final(self).counts_ok(),
            records_follow_queue(*final(self)),
    {
        self.selected = queue.len();
        self.queue = queue;
    }

    fn begin(&mut self) -> (action: RunAction)
        requires
            old(self).position <= old(self).queue@.len(),
        ensures
            begin_post(*old(self), *final(self), action),
            final(self).same_frame(&*old(self)),
    {
        if self.position >= self.queue.len() {
            self.phase = RunPhase::Finished;
            RunAction::Finish
        } else if !self.ignore_cache {
            self.phase = RunPhase::AwaitCache;
            RunAction::LookupCache(self.position)
        } else {
            self.phase = RunPhase::AwaitInterrogation;
            RunAction::Interrogate(self.position)
        }
    }

    fn settle(&mut self, record: CheckRecord, flags: TurnFlags) -> (action: RunAction)
        ensures
            settle_post(*old(self), record, flags, *final(self), action),
            final(self).narrowing == old(self).narrowing,
            final(self).same_frame(&*old(self)),
    {
        let stop = (self.stop_after_non_pass && !record.passed()) || flags.token_break
            || flags.compacted || flags.stop_after_current;
        let append_history = is_reusable_history_record(&record);
        let copy = record.duplicate();
        self.phase = RunPhase::AwaitStored { record, stop };
        RunAction::Store { record: copy, fresh: true, append_history }
    }

    /// Takes the event that the current phase waits for and decides what comes next.
    pub fn step(&mut self, event: RunEvent) -> (action: RunAction)
        requires
            old(self).wf(),
            expects(old(self).phase, event),
            event_belongs(*old(self), event),
        ensures
            final(self).wf(),
            final(self).same_frame(&*old(self)),
            step_post(*old(self), event, *final(self), action),
            old(self).counts_ok() ==> final(self).counts_ok(),
            records_follow_queue(*old(self)) ==> records_follow_queue(*final(self)),
    {
        let mut phase = RunPhase::Finished;
        std::mem::swap(&mut phase, &mut self.phase);
        assert(phase == old(self).phase);
        assert(self.position == old(self).position && self.queue == old(self).queue);
        assert(self.narrowing == old(self).narrowing && self.records == old(self).records);
        match phase {
            RunPhase::Ready => self.begin(),
            RunPhase::AwaitCache => match event {
                RunEvent::CacheLookup(Some(rec)) => {
                    let stop = self.stop_after_non_pass && !rec.passed();
                    let copy = rec.duplicate();
                    self.phase = RunPhase::AwaitStored { record: rec, stop };
                    RunAction::Store { record: copy, fresh: false, append_history: false }
                },
                _ => {
                    self.phase = RunPhase::AwaitInterrogation;
                    RunAction::Interrogate(self.position)
                },
            },
            RunPhase::AwaitInterrogation => match event {
                RunEvent::Interrogated { enforced_scope, result } => {
                    let flags = TurnFlags {
                        token_break: turn_exceeds_break_after_tokens(&result, self.break_after_tokens),
                        compacted: result.context_compacted,
                        stop_after_current: result.stop_after_current_expectation,
                    };
                    if !record_requires_human_review(&result.record) && is_strict_scope_subset(
                        &result.record.scope,
                        &enforced_scope,
                    ) {
                        self.narrowing.attempted = self.narrowing.attempted + 1;
                        let scope = clone_strings(&result.record.scope);
                        let index = self.position;
                        self.phase = RunPhase::AwaitVerification {
                            enforced_scope,
                            initial: result.record,
                            flags,
                        };
                        RunAction::VerifyNarrowing { index, scope }
                    } else {
                        self.settle(result.record, flags)
                    }
                },
                _ => {
                    proof {
                        assert(false);
                    }
                    RunAction::Finish
                },
            },
            RunPhase::AwaitVerification { enforced_scope, initial, flags } => match event {
                RunEvent::Verified(narrowed) => {
                    let nb = turn_exceeds_break_after_tokens(&narrowed, self.break_after_tokens);
                    let both = TurnFlags {
                        token_break: flags.token_break || nb,
                        compacted: flags.compacted || narrowed.context_compacted,
                        stop_after_current: flags.stop_after_current
                            || narrowed.stop_after_current_expectation,
                    };
                    if narrowed_scope_is_accepted(&initial, &narrowed.record) {
                        self.narrowing.accepted = self.narrowing.accepted + 1;
                        self.settle(narrowed.record, both)
                    } else {
                        self.narrowing.rejected = self.narrowing.rejected + 1;
                        let s = clone_strings(&enforced_scope);
                        self.phase = RunPhase::AwaitEnforcedHash { enforced_scope, initial, flags: both };
                        RunAction::HashEnforcedScope(s)
                    }
                },
                _ => {
                    proof {
                        assert(false);
                    }
                    RunAction::Finish
                },
            },
            RunPhase::AwaitEnforcedHash { enforced_scope, initial, flags } => match event {
                RunEvent::EnforcedScopeHash(h) => {
                    let record = restore_record_to_enforced_scope(initial, &enforced_scope, h);
                    self.settle(record, flags)
                },
                _ => {
                    proof {
                        assert(false);
                    }
                    RunAction::Finish
                },
            },
            RunPhase::AwaitStored { record, stop } => {
                self.records.push(record);
                self.position = self.position + 1;
                if stop {
                    self.phase = RunPhase::Finished;
                    RunAction::Finish
                } else {
                    self.begin()
                }
            },
            RunPhase::Finished => {
                proof {
                    assert(false);
                }
                RunAction::Finish
            },
        }
    }

    /// The report of the run as it stands.
    pub fn report(self) -> (r: CheckRunReport)
        ensures
            r.records == self.records,
            r.non_selected == self.non_selected,
            r.selected == self.selected,
            r.skipped == self.skipped,
            r.silent == self.silent,
            r.narrowing == self.narrowing,
            self.counts_ok() ==> report_counts(r, self.candidates as nat, self.base_skipped as nat, self.base_non_selected@),
            records_follow_queue(self) ==> forall|k: int|
                0 <= k < r.records@.len() ==> #[trigger] r.records@[k].id@ == self.queue@[k].id@,
    {
        check_run_report(
            self.records,
            self.non_selected,
            self.selected,
            self.skipped,
            self.silent,
            self.narrowing,
        )
    }

    /// The run failed with `error`; the report holds what was done before.
    pub fn error(&self, error: String) -> (r: CheckRunError)
        ensures
            r.error == error,
            same_records(r.report.records@, self.records@),
            r.report.non_selected@ == self.non_selected@,
            r.report.selected == self.selected,
            r.report.skipped == self.skipped,
            r.report.silent == self.silent,
            r.report.narrowing == self.narrowing,
            self.counts_ok() ==> report_counts(
                r.report,
                self.candidates as nat,
                self.base_skipped as nat,
                self.base_non_selected@,
            ),
    {
        check_run_error(
            &self.records,
            &self.non_selected,
            self.selected,
            self.skipped,
            self.silent,
            self.narrowing,
            error,
        )
    }
}

} // verus!
