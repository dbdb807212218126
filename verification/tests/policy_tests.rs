use canon::answer::{CheckRecord, CheckResult, ParsedAnswer, SelectedExpectation};
use canon::policy::{
    enforce_response_scope, finalize_parsed_answer, is_restricted_scope_idk_retry_candidate,
    is_reusable_history_record, narrowed_scope_is_accepted, normalize_empty_evidence_response,
    record_from_response, rejected_widened_scope_evidence, rejected_widened_scope_message,
    restore_record_to_enforced_scope, should_retry_full_scope_after_restricted_idk,
    turn_exceeds_break_after_tokens, turn_has_context_compaction, InterrogationResult,
};
use canon::protocol::TokenUsage;
use canon::scope::{is_strict_scope_subset, scope_is_full, scope_is_within};

fn s(v: &[&str]) -> Vec<String> {
    v.iter().map(|x| x.to_string()).collect()
}

fn answer(a: &str, e: &str, scope: &[&str]) -> ParsedAnswer {
    ParsedAnswer { answer: a.to_string(), evidence: e.to_string(), scope: s(scope) }
}

fn rec(expected: &str, observed: &str) -> CheckRecord {
    CheckRecord {
        timestamp: "t".to_string(),
        number: 1,
        result: CheckResult::Fail,
        prompt: Some("q".to_string()),
        expected: Some(expected.to_string()),
        observed: observed.to_string(),
        evidence: "e".to_string(),
        scope: s(&["src/a.rs"]),
        scope_hash: "narrow".to_string(),
        id: "id".to_string(),
        display_id: "i".to_string(),
        cache_key: None,
    }
}

#[test]
fn scopes_nest_by_directory() {
    assert!(scope_is_within(&s(&["src/a.rs", "src"]), &s(&["src"])));
    assert!(!scope_is_within(&s(&["srcx"]), &s(&["src"])));
    assert!(scope_is_within(&s(&["anything"]), &s(&["."])));
    assert!(scope_is_within(&Vec::new(), &s(&["src"])));
    assert!(is_strict_scope_subset(&s(&["src/a.rs"]), &s(&["src"])));
    assert!(!is_strict_scope_subset(&s(&["src"]), &s(&["src"])));
    assert!(scope_is_full(&s(&["."])));
    assert!(!scope_is_full(&s(&[".", "src"])));
}

#[test]
fn widened_scope_message_lists_both_scopes() {
    assert_eq!(
        rejected_widened_scope_message(&s(&["b"]), &s(&["a"])),
        "evaluator response scope [\"b\"] widens enforced scope [\"a\"]"
    );
    assert_eq!(
        rejected_widened_scope_evidence(&answer("idk", "  ", &["b"]), &s(&["a"])),
        "evaluator response scope [\"b\"] widens enforced scope [\"a\"]"
    );
    assert_eq!(
        rejected_widened_scope_evidence(&answer("idk", "saw x", &["b"]), &s(&["a"])),
        "saw x\nevaluator response scope [\"b\"] widens enforced scope [\"a\"]"
    );
}

#[test]
fn scope_within_enforced_is_kept() {
    let r = enforce_response_scope(answer("yes", "ev", &["src/a.rs"]), &s(&["src"]));
    assert_eq!(r.answer, "yes");
    assert_eq!(r.scope, s(&["src/a.rs"]));
}

#[test]
fn widened_answer_becomes_unparseable() {
    let r = enforce_response_scope(answer("yes", "ev", &["docs"]), &s(&["src"]));
    assert_eq!(r.answer, "<unparseable>");
    assert_eq!(r.evidence, "evaluator response scope [\"docs\"] widens enforced scope [\"src\"]");
    assert_eq!(r.scope, s(&["src"]));
}

#[test]
fn widened_idk_stays_idk_with_enforced_scope() {
    let r = enforce_response_scope(answer("idk", "ev", &["docs"]), &s(&["src"]));
    assert_eq!(r.answer, "idk");
    assert_eq!(r.evidence, "ev\nevaluator response scope [\"docs\"] widens enforced scope [\"src\"]");
    assert_eq!(r.scope, s(&["src"]));
}

#[test]
fn empty_evidence_becomes_review_answer() {
    let r = normalize_empty_evidence_response(answer("yes", " ", &["src"]), &s(&["src"]));
    assert_eq!(r.answer, "<empty-evidence>");
    assert_eq!(r.evidence, "evaluator response evidence was empty");
    assert_eq!(r.scope, s(&["src"]));
    let idk = normalize_empty_evidence_response(answer("idk", "", &["src"]), &s(&["src"]));
    assert_eq!(idk.answer, "idk");
    let full_idk = normalize_empty_evidence_response(answer("idk", "", &["."]), &s(&["."]));
    assert_eq!(full_idk.answer, "<empty-evidence>");
    let malformed = normalize_empty_evidence_response(answer("malformed", "", &["."]), &s(&["."]));
    assert_eq!(malformed.answer, "malformed");
}

#[test]
fn restricted_idk_is_retried() {
    assert!(is_restricted_scope_idk_retry_candidate(&answer("idk", "", &[]), &s(&["src"])));
    assert!(!is_restricted_scope_idk_retry_candidate(&answer("idk", "", &[]), &s(&["."])));
    assert!(should_retry_full_scope_after_restricted_idk(&rec("yes", "idk"), &s(&["src"])));
    assert!(!should_retry_full_scope_after_restricted_idk(&rec("yes", "idk"), &s(&["."])));
    assert!(!should_retry_full_scope_after_restricted_idk(&rec("yes", "no"), &s(&["src"])));
}

#[test]
fn finalized_scope_never_widens() {
    let r = finalize_parsed_answer(&s(&["src"]), answer("<unparseable>", "bad", &["docs"]));
    assert_eq!(r.scope, s(&["src"]));
    assert_eq!(r.answer, "<unparseable>");
    let ok = finalize_parsed_answer(&s(&["src"]), answer("yes", "ev", &["src/a"]));
    assert_eq!(ok.scope, s(&["src/a"]));
}

#[test]
fn narrowing_is_accepted_for_same_reusable_answer() {
    assert!(narrowed_scope_is_accepted(&rec("yes", "no"), &rec("yes", "no")));
    assert!(!narrowed_scope_is_accepted(&rec("yes", "no"), &rec("yes", "yes")));
    assert!(!narrowed_scope_is_accepted(&rec("yes", "idk"), &rec("yes", "idk")));
    assert!(is_reusable_history_record(&rec("yes", "no")));
    assert!(!is_reusable_history_record(&rec("yes", "maybe")));
}

#[test]
fn restored_record_takes_enforced_scope() {
    let r = restore_record_to_enforced_scope(rec("yes", "no"), &s(&["src"]), "wide".to_string());
    assert_eq!(r.scope, s(&["src"]));
    assert_eq!(r.scope_hash, "wide");
    assert_eq!(r.observed, "no");
}

#[test]
fn token_break_and_compaction_signals() {
    let result = InterrogationResult {
        record: rec("yes", "yes"),
        turn_usage: Some(TokenUsage {
            total_tokens: 0,
            input_tokens: 60,
            cached_input_tokens: 0,
            output_tokens: 50,
            reasoning_output_tokens: 0,
        }),
        context_compacted: true,
        stop_after_current_expectation: false,
    };
    assert!(turn_exceeds_break_after_tokens(&result, Some(100)));
    assert!(!turn_exceeds_break_after_tokens(&result, Some(110)));
    assert!(!turn_exceeds_break_after_tokens(&result, None));
    assert!(turn_has_context_compaction(&result));
}

#[test]
fn record_passes_only_on_exact_expected_answer() {
    let e = SelectedExpectation {
        number: 4,
        id: "full".to_string(),
        display_id: "f".to_string(),
        q: "Q".to_string(),
        a: "yes".to_string(),
        cooldown: None,
        thinking: None,
    };
    let pass = record_from_response("ts".to_string(), None, &e, answer("yes", "ev", &["src"]), s(&["src"]), "h".to_string());
    assert_eq!(pass.result, CheckResult::Pass);
    assert_eq!(pass.number, 4);
    assert_eq!(pass.expected, Some("yes".to_string()));
    let fail = record_from_response("ts".to_string(), None, &e, answer("no", "ev", &["src"]), s(&["src"]), "h".to_string());
    assert_eq!(fail.result, CheckResult::Fail);
}
