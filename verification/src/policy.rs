//! The interrogation policy: what is kept of an evaluator response, when a narrower
//! scope is trusted, and when a turn ends the run.

use vstd::prelude::*;
use crate::answer::{
    answer_state, clone_strings, empty_evidence_text, idk_text, malformed_text, observed_state,
    unparseable_text, CheckRecord, CheckRecordOutcome, CheckResult, ObservedAnswerState,
    ParsedAnswer, SelectedExpectation, EMPTY_EVIDENCE_OBSERVED, OBSERVED_IDK, OBSERVED_MALFORMED,
    UNPARSEABLE_OBSERVED,
};
use crate::output::review_spec;
use crate::protocol::TokenUsage;
use crate::scope::{
    is_full_scope, lemma_scope_within_self, scope_is_full, scope_is_within, scope_views,
    scope_within,
};
use crate::text::{is_blank, str_blank, str_eq};

verus! {

/// What one interrogation produced: its record, the turn's token usage, whether the
/// context was compacted, and whether the run should stop after this expectation.
pub struct InterrogationResult {
    pub record: CheckRecord,
    pub turn_usage: Option<TokenUsage>,
    pub context_compacted: bool,
    pub stop_after_current_expectation: bool,
}

/// `a + b`, saturating at `u64::MAX`.
pub open spec fn saturating_sum(a: u64, b: u64) -> u64 {
    if a + b > u64::MAX {
        u64::MAX
    } else {
        (a + b) as u64
    }
}

/// A turn breaks the run when a token limit is set and the turn's input plus output
/// tokens (saturating) exceed it.
pub fn turn_exceeds_break_after_tokens(
    interrogation: &InterrogationResult,
    break_after_tokens: Option<u64>,
) -> (r: bool)
    ensures
        r == match (break_after_tokens, interrogation.turn_usage) {
            (Some(limit), Some(usage)) => saturating_sum(usage.input_tokens, usage.output_tokens)
                > limit,
            _ => false,
        },
{
    match (break_after_tokens, interrogation.turn_usage) {
        (Some(limit), Some(usage)) => usage.input_tokens.saturating_add(usage.output_tokens) > limit,
        _ => false,
    }
}

pub fn turn_has_context_compaction(interrogation: &InterrogationResult) -> (r: bool)
    ensures
        r == interrogation.context_compacted,
{
    interrogation.context_compacted
}

/// A record may be reused from history when its observed value is an answer for its
/// expected one.
pub open spec fn reusable_spec(record: CheckRecord) -> bool {
    match record.expected {
        Some(e) => answer_state(e@, record.observed@) == ObservedAnswerState::Answer,
        None => false,
    }
}

pub fn is_reusable_history_record(record: &CheckRecord) -> (r: bool)
    ensures
        r == reusable_spec(*record),
        r == !review_spec(*record),
{
    match record.expected_text() {
        Some(expected) => ObservedAnswerState::from_expected_and_observed(
            expected,
            record.observed.as_str(),
        ).is_reusable_history(),
        None => false,
    }
}

/// A narrower scope is trusted only when the second interrogation, made within it,
/// observed the same value and that value is a reusable answer.
pub fn narrowed_scope_is_accepted(wide: &CheckRecord, narrowed: &CheckRecord) -> (r: bool)
    ensures
        r == (narrowed.observed@ == wide.observed@ && reusable_spec(*narrowed)),
{
    str_eq(narrowed.observed.as_str(), wide.observed.as_str()) && is_reusable_history_record(
        narrowed,
    )
}

/// The record with its scope and scope hash put back to the enforced scope.
pub fn restore_record_to_enforced_scope(
    record: CheckRecord,
    enforced_scope: &Vec<String>,
    enforced_scope_hash: String,
) -> (r: CheckRecord)
    ensures
        r == (CheckRecord { scope: r.scope, scope_hash: enforced_scope_hash, ..record }),
        r.scope@ == enforced_scope@,
{
    let mut record = record;
    record.scope = clone_strings(enforced_scope);
    record.scope_hash = enforced_scope_hash;
    record
}

/// The text that `format!("{:?}", list)` gives for a list of strings.
pub uninterp spec fn debug_list_text(values: Seq<Seq<char>>) -> Seq<char>;

/// Renders a list of strings with `Debug` (`format!("{:?}", values)`): brackets,
/// each string quoted with `str::escape_debug`, separated by `, `. The contract
/// only ties the text to the list; the escaping rules depend on Unicode tables.
#[verifier::external_body]
fn debug_string_list(values: &Vec<String>) -> (r: String)
    ensures
        r@ == debug_list_text(scope_views(values@)),
{
    format!("{:?}", values.as_slice())
}

/// `evaluator response scope <response> widens enforced scope <enforced>`.
pub open spec fn widened_message(response_scope: Seq<Seq<char>>, enforced: Seq<Seq<char>>) -> Seq<char> {
    "evaluator response scope "@ + debug_list_text(response_scope) + " widens enforced scope "@
        + debug_list_text(enforced)
}

pub fn rejected_widened_scope_message(response_scope: &Vec<String>, enforced_scope: &Vec<String>) -> (r: String)
    ensures
        r@ == widened_message(scope_views(response_scope@), scope_views(enforced_scope@)),
{
    let mut out = String::from_str("evaluator response scope ");
    out.append(debug_string_list(response_scope).as_str());
    out.append(" widens enforced scope ");
    out.append(debug_string_list(enforced_scope).as_str());
    out
}

/// The evidence kept when a widened scope is rejected: the message, after the
/// evaluator's own evidence and a line break when that is not blank.
pub open spec fn widened_evidence(evidence: Seq<char>, message: Seq<char>) -> Seq<char> {
    if is_blank(evidence) {
        message
    } else {
        evidence + "\n"@ + message
    }
}

pub fn rejected_widened_scope_evidence(response: &ParsedAnswer, enforced_scope: &Vec<String>) -> (r: String)
    ensures
        r@ == widened_evidence(
            response.evidence@,
            widened_message(scope_views(response.scope@), scope_views(enforced_scope@)),
        ),
{
    let message = rejected_widened_scope_message(&response.scope, enforced_scope);
    if str_blank(response.evidence.as_str()) {
        message
    } else {
        let mut out = response.evidence.clone();
        out.append("\n");
        out.append(message.as_str());
        out
    }
}

/// A response whose scope widens the enforced scope is not kept as it is: an `idk`
/// keeps its answer with the rejection added to its evidence, anything else becomes
/// unparseable with the rejection as evidence; both take the enforced scope.
pub open spec fn enforce_spec(response: ParsedAnswer, enforced: Seq<Seq<char>>) -> (Seq<char>, Seq<char>, Seq<Seq<char>>) {
    let scope = scope_views(response.scope@);
    if response.answer@ == unparseable_text() || scope_within(scope, enforced) {
        (response.answer@, response.evidence@, scope)
    } else if response.answer@ == idk_text() {
        (response.answer@, widened_evidence(response.evidence@, widened_message(scope, enforced)), enforced)
    } else {
        (unparseable_text(), widened_message(scope, enforced), enforced)
    }
}

pub open spec fn answer_view(a: ParsedAnswer) -> (Seq<char>, Seq<char>, Seq<Seq<char>>) {
    (a.answer@, a.evidence@, scope_views(a.scope@))
}

pub fn enforce_response_scope(response: ParsedAnswer, enforced_scope: &Vec<String>) -> (r: ParsedAnswer)
    ensures
        answer_view(r) == enforce_spec(response, scope_views(enforced_scope@)),
{
    if str_eq(response.answer.as_str(), UNPARSEABLE_OBSERVED) || scope_is_within(
        &response.scope,
        enforced_scope,
    ) {
        proof {
            assert(answer_view(response) == (response.answer@, response.evidence@, scope_views(response.scope@)));
        }
        return response;
    }
    if str_eq(response.answer.as_str(), OBSERVED_IDK) {
        let evidence = rejected_widened_scope_evidence(&response, enforced_scope);
        let r = ParsedAnswer {
            answer: response.answer,
            evidence,
            scope: clone_strings(enforced_scope),
        };
        assert(scope_views(r.scope@) =~= scope_views(enforced_scope@));
        return r;
    }
    let r = ParsedAnswer {
        answer: String::from_str(UNPARSEABLE_OBSERVED),
        evidence: rejected_widened_scope_message(&response.scope, enforced_scope),
        scope: clone_strings(enforced_scope),
    };
    assert(scope_views(r.scope@) =~= scope_views(enforced_scope@));
    r
}

/// An `idk` given within a scope narrower than the whole repository is retried at
/// full scope.
pub open spec fn restricted_idk_spec(answer: Seq<char>, enforced: Seq<Seq<char>>) -> bool {
    answer == idk_text() && !is_full_scope(enforced)
}

pub fn is_restricted_scope_idk_retry_candidate(response: &ParsedAnswer, enforced_scope: &Vec<String>) -> (r: bool)
    ensures
        r == restricted_idk_spec(response.answer@, scope_views(enforced_scope@)),
{
    str_eq(response.answer.as_str(), OBSERVED_IDK) && !scope_is_full(enforced_scope)
}

/// A response with blank evidence becomes the empty-evidence answer, unless it is
/// malformed, unparseable, or a restricted `idk` awaiting its retry.
pub open spec fn empty_evidence_applies(answer: Seq<char>, evidence: Seq<char>, enforced: Seq<Seq<char>>) -> bool {
    &&& is_blank(evidence)
    &&& answer != malformed_text()
    &&& answer != unparseable_text()
    &&& !restricted_idk_spec(answer, enforced)
}

pub fn normalize_empty_evidence_response(response: ParsedAnswer, enforced_scope: &Vec<String>) -> (r: ParsedAnswer)
    ensures
        empty_evidence_applies(response.answer@, response.evidence@, scope_views(enforced_scope@))
            ==> r.answer@ == empty_evidence_text() && r.evidence@
            == "evaluator response evidence was empty"@ && r.scope == response.scope,
        !empty_evidence_applies(response.answer@, response.evidence@, scope_views(enforced_scope@))
            ==> r == response,
{
    if str_blank(response.evidence.as_str()) && !str_eq(response.answer.as_str(), OBSERVED_MALFORMED)
        && !str_eq(response.answer.as_str(), UNPARSEABLE_OBSERVED)
        && !is_restricted_scope_idk_retry_candidate(&response, enforced_scope) {
        return ParsedAnswer {
            answer: String::from_str(EMPTY_EVIDENCE_OBSERVED),
            evidence: String::from_str("evaluator response evidence was empty"),
            scope: response.scope,
        };
    }
    response
}

/// The response as it is recorded: its scope enforced, blank evidence normalised,
/// and an unparseable response given the enforced scope.
pub fn finalize_parsed_answer(enforced_scope: &Vec<String>, response: ParsedAnswer) -> (r: ParsedAnswer)
    ensures
        ({
            let (answer, evidence, scope) = enforce_spec(response, scope_views(enforced_scope@));
            let normalized = empty_evidence_applies(answer, evidence, scope_views(enforced_scope@));
            let answer2 = if normalized {
                empty_evidence_text()
            } else {
                answer
            };
            &&& r.answer@ == answer2
            &&& r.evidence@ == if normalized {
                "evaluator response evidence was empty"@
            } else {
                evidence
            }
            &&& scope_views(r.scope@) == if answer2 == unparseable_text() {
                scope_views(enforced_scope@)
            } else {
                scope
            }
        }),
        scope_within(scope_views(r.scope@), scope_views(enforced_scope@)),
{
    let response = enforce_response_scope(response, enforced_scope);
    let mut response = normalize_empty_evidence_response(response, enforced_scope);
    if str_eq(response.answer.as_str(), UNPARSEABLE_OBSERVED) {
        response.scope = clone_strings(enforced_scope);
    }
    proof {
        lemma_scope_within_self(scope_views(enforced_scope@));
        assert(scope_views(response.scope@) =~= scope_views(enforced_scope@) || scope_within(
            scope_views(response.scope@),
            scope_views(enforced_scope@),
        ));
    }
    response
}

/// A restricted-scope `idk` is retried once at full scope.
pub fn should_retry_full_scope_after_restricted_idk(record: &CheckRecord, scope: &Vec<String>) -> (r: bool)
    ensures
        r == (!is_full_scope(scope_views(scope@)) && observed_state(record.observed@)
            == ObservedAnswerState::Idk),
{
    !scope_is_full(scope) && ObservedAnswerState::from_observed(record.observed.as_str())
        == ObservedAnswerState::Idk
}

/// A response passes when it needs no review and observed exactly the expected answer.
pub open spec fn response_result(expected: Seq<char>, observed: Seq<char>) -> CheckResult {
    if answer_state(expected, observed) == ObservedAnswerState::Answer && observed == expected {
        CheckResult::Pass
    } else {
        CheckResult::Fail
    }
}

/// The record of a finalised response to `expectation`.
pub fn record_from_response(
    timestamp: String,
    cache_key: Option<String>,
    expectation: &SelectedExpectation,
    response: ParsedAnswer,
    enforced_scope: Vec<String>,
    scope_hash: String,
) -> (r: CheckRecord)
    ensures
        r.result == response_result(expectation.a@, response.answer@),
        r.timestamp == timestamp,
        r.cache_key == cache_key,
        r.id == expectation.id,
        r.display_id == expectation.display_id,
        r.number == expectation.number,
        r.prompt == Some(expectation.q),
        r.expected == Some(expectation.a),
        r.observed == response.answer,
        r.evidence == response.evidence,
        r.scope == enforced_scope,
        r.scope_hash == scope_hash,
{
    let requires_human_review = ObservedAnswerState::from_expected_and_observed(
        expectation.a.as_str(),
        response.answer.as_str(),
    ).requires_human_review();
    let result = if !requires_human_review && str_eq(response.answer.as_str(), expectation.a.as_str()) {
        CheckResult::Pass
    } else {
        CheckResult::Fail
    };
    CheckRecord::from_expectation(
        timestamp,
        expectation,
        cache_key,
        CheckRecordOutcome {
            result,
            observed: response.answer,
            evidence: response.evidence,
            scope: enforced_scope,
            scope_hash,
        },
    )
}

} // verus!
