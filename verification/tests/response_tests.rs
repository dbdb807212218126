use canon::catfile::parse_staged_tracked_file;
use canon::reuse::{compacted_history_lines, should_compact_history_for_seed};
use canon::response::custom_agent_instruction_block;
use canon::answer::{CheckRecord, CheckResult, SelectedExpectation};
use canon::response::{
    check_evaluator_answer, evaluator_answer_is_allowed, response_excerpt, unparseable_response,
    validate_evaluator_response_key_order,
};
use canon::reuse::{latest_history_record_matching_hash, latest_history_scope, record_with_current_expectation};
use canon::turnloop::{TurnMessage, TurnProgress, TurnRequestState};
use serde_json::Value;
use canon::answer::{OBSERVED_IDK, OBSERVED_MALFORMED};
use canon::response::{parse_scope_strings, review_required_reason, ReviewReason};
use canon::reuse::reset_records_to_full_scope_seed;

fn s(v: &[&str]) -> Vec<String> {
    v.iter().map(|x| x.to_string()).collect()
}

fn sel() -> SelectedExpectation {
    SelectedExpectation {
        number: 3,
        id: "id3".to_string(),
        display_id: "d3".to_string(),
        q: "Is it?".to_string(),
        a: "yes".to_string(),
        cooldown: None,
        thinking: None,
    }
}

fn rec(observed: &str, hash: &str, scope: &[&str]) -> CheckRecord {
    CheckRecord {
        timestamp: "1".to_string(),
        number: 1,
        result: if observed == "yes" { CheckResult::Pass } else { CheckResult::Fail },
        prompt: None,
        expected: None,
        observed: observed.to_string(),
        evidence: "e".to_string(),
        scope: s(scope),
        scope_hash: hash.to_string(),
        id: "old".to_string(),
        display_id: String::new(),
        cache_key: None,
    }
}

#[test]
fn response_keys_must_come_in_order() {
    assert!(validate_evaluator_response_key_order(&s(&["answer", "evidence", "scope"])).is_ok());
    assert_eq!(
        validate_evaluator_response_key_order(&s(&["evidence", "answer", "scope"])).unwrap_err(),
        "evaluator JSON response must contain keys in order answer, evidence, scope; got evidence, answer, scope"
    );
    assert_eq!(
        validate_evaluator_response_key_order(&Vec::new()).unwrap_err(),
        "evaluator JSON response must contain keys in order answer, evidence, scope; got "
    );
}

#[test]
fn allowed_answers() {
    for a in ["yes", "no", "idk", "malformed", "b"] {
        assert!(evaluator_answer_is_allowed(a));
    }
    for a in ["Yes", "ab", "B", ""] {
        assert!(!evaluator_answer_is_allowed(a));
    }
    assert_eq!(check_evaluator_answer("yes\nno").unwrap_err(), "answer must be a single-line string");
    assert_eq!(check_evaluator_answer("a\rb").unwrap_err(), "answer must be a single-line string");
    assert!(check_evaluator_answer("c").is_ok());
    assert!(check_evaluator_answer("Rust").is_ok());
    assert!(check_evaluator_answer("maybe").is_ok());
    assert!(check_evaluator_answer("").is_ok());
}

#[test]
fn excerpts_are_trimmed_and_cut() {
    assert_eq!(response_excerpt("   "), "<empty>");
    assert_eq!(response_excerpt("  hi \n"), "hi");
    let long = "x".repeat(700);
    let e = response_excerpt(&long);
    assert_eq!(e.len(), 603);
    assert!(e.ends_with("..."));
    let a = unparseable_response("bad", " {oops} ");
    assert_eq!(a.answer, "<unparseable>");
    assert_eq!(a.evidence, "evaluator response could not be parsed: bad\nresponse: {oops}");
    assert_eq!(a.scope, s(&["."]));
}

#[test]
fn turn_finishes_after_response_and_completion() {
    let mut t = TurnRequestState::new();
    t.turn_started("turn1".to_string());
    assert!(matches!(t.on_message(TurnMessage::AgentDelta("{\"a\"".to_string())), TurnProgress::Continue));
    assert!(matches!(t.on_message(TurnMessage::Other), TurnProgress::Continue));
    assert!(matches!(t.on_message(TurnMessage::TurnCompleted(None)), TurnProgress::Continue));
    match t.on_message(TurnMessage::Response(None)) {
        TurnProgress::Finish(text) => assert_eq!(text, "{\"a\""),
        _ => panic!("expected finish"),
    }
    assert_eq!(t.turn_id, Some("turn1".to_string()));
}

#[test]
fn completed_text_stands_in_for_blank_deltas() {
    let mut t = TurnRequestState::new();
    t.on_message(TurnMessage::AgentDelta("  ".to_string()));
    t.on_message(TurnMessage::ItemCompleted("full".to_string()));
    t.on_message(TurnMessage::Response(None));
    match t.on_message(TurnMessage::TurnCompleted(None)) {
        TurnProgress::Finish(text) => assert_eq!(text, "full"),
        _ => panic!("expected finish"),
    }
}

#[test]
fn held_error_fails_the_turn() {
    let mut t = TurnRequestState::new();
    let e = Value::String("boom".to_string());
    assert!(matches!(t.on_message(TurnMessage::ErrorNotice(Some(e.clone()))), TurnProgress::Continue));
    match t.on_message(TurnMessage::TurnCompleted(None)) {
        TurnProgress::Fail(v) => assert_eq!(v, e),
        _ => panic!("expected failure"),
    }
    let mut u = TurnRequestState::new();
    assert!(matches!(u.on_message(TurnMessage::OtherError(e.clone())), TurnProgress::Fail(_)));
    let mut w = TurnRequestState::new();
    w.interrupt();
    assert!(matches!(w.on_message(TurnMessage::TurnCompleted(Some(e))), TurnProgress::Interrupted));
}

#[test]
fn newest_matching_record_is_reused() {
    let records = vec![rec("yes", "h1", &["."]), rec("no", "h2", &["src"]), rec("yes", "h3", &["."])];
    let hashes = vec![Some("h1".to_string()), Some("h2".to_string()), Some("other".to_string())];
    let r = latest_history_record_matching_hash(&records, &hashes, &sel()).unwrap();
    assert_eq!(r.scope_hash, "h2");
    assert_eq!(r.id, "id3");
    assert_eq!(r.display_id, "d3");
    assert_eq!(r.number, 3);
    assert_eq!(r.prompt, Some("Is it?".to_string()));
    let idk = vec![rec("idk", "h1", &["."])];
    assert!(latest_history_record_matching_hash(&idk, &vec![Some("h1".to_string())], &sel()).is_none());
    assert!(latest_history_record_matching_hash(&records, &vec![None, None, None], &sel()).is_none());
}

#[test]
fn latest_answer_scope_seeds_the_next_interrogation() {
    let records = vec![rec("yes", "h", &["src"]), rec("idk", "h", &["lib"])];
    assert_eq!(latest_history_scope(&records, "yes"), Some(s(&["src"])));
    assert_eq!(latest_history_scope(&Vec::new(), "yes"), None);
    let r = record_with_current_expectation(rec("no", "h", &["."]), &sel());
    assert_eq!(r.expected, Some("yes".to_string()));
}

#[test]
fn staged_entries_parse() {
    let f = parse_staged_tracked_file(b"100644 abc123 0\tsrc/main.rs").unwrap().unwrap();
    assert_eq!(f.path, b"src/main.rs".to_vec());
    assert_eq!(f.object_id, "abc123");
    assert!(parse_staged_tracked_file(b"100644 abc123 2\tsrc/main.rs").unwrap().is_none());
    assert_eq!(parse_staged_tracked_file(b"100644 abc123 0").err().unwrap(), "git ls-files entry missing path separator");
    assert_eq!(parse_staged_tracked_file(b"100644\tx").err().unwrap(), "git ls-files entry missing object id");
    assert_eq!(parse_staged_tracked_file(b"100644 abc\tx").err().unwrap(), "git ls-files entry missing stage");
    assert_eq!(parse_staged_tracked_file(b" \tx").err().unwrap(), "git ls-files entry missing mode");
    assert_eq!(parse_staged_tracked_file(b"\xff\tx").err().unwrap(), "git ls-files entry metadata must be valid UTF-8");
}

#[test]
fn history_compaction_keeps_the_newest_valid_lines() {
    let lines = s(&["a", "b", "c"]);
    assert_eq!(compacted_history_lines(&lines, &vec![true, true, true], 3), None);
    assert_eq!(compacted_history_lines(&lines, &vec![true, true, true], 2), Some(s(&["b", "c"])));
    assert_eq!(compacted_history_lines(&lines, &vec![true, false, true], 5), Some(s(&["a", "c"])));
    assert!(should_compact_history_for_seed(32, 16));
    assert!(!should_compact_history_for_seed(33, 16));
}

#[test]
fn project_policy_block() {
    assert_eq!(custom_agent_instruction_block("  \n"), "");
    assert_eq!(
        custom_agent_instruction_block(" Be strict. "),
        "Project-specific evaluator policy loaded from check.yml:\nBe strict."
    );
}

#[test]
fn review_reasons_follow_the_answer_state() {
    use_review_reasons();
}

fn use_review_reasons() {
    assert_eq!(review_required_reason(Some("yes"), "yes", true), None);
    assert_eq!(review_required_reason(Some("yes"), "maybe", true), Some(ReviewReason::Unknown));
    assert_eq!(review_required_reason(None, OBSERVED_IDK, true), Some(ReviewReason::FullScopeIdk));
    assert_eq!(review_required_reason(None, OBSERVED_IDK, false), None);
    assert_eq!(review_required_reason(None, OBSERVED_MALFORMED, false), Some(ReviewReason::Malformed));
    assert_eq!(ReviewReason::Malformed.text("bad shape"), "bad shape");
    assert_eq!(ReviewReason::FullScopeIdk.text("w"), "full-scope idk");
    assert_eq!(ReviewReason::Unknown.text("w"), "unknown observed answer state");
}

#[test]
fn lazy_reset_rewrites_only_the_newest_answer() {
    let mut records = vec![rec("yes", "h1", &["src"]), rec("no", "h2", &["lib"]), rec("idk", "h3", &["doc"])];
    assert!(reset_records_to_full_scope_seed(&mut records, "yes"));
    assert_eq!(records[0].scope, s(&["src"]));
    assert_eq!(records[1].scope, s(&["."]));
    assert_eq!(records[1].scope_hash, "h2");
    assert_eq!(records[2].scope, s(&["doc"]));
    assert!(!reset_records_to_full_scope_seed(&mut records, "yes"));
    let mut none = vec![rec("idk", "h", &["x"])];
    assert!(!reset_records_to_full_scope_seed(&mut none, "yes"));
    assert_eq!(none[0].scope, s(&["x"]));
}

#[test]
fn response_scopes_must_be_normalized() {
    assert_eq!(parse_scope_strings(&s(&[".", "src/lib.rs"])).unwrap(), s(&[".", "src/lib.rs"]));
    assert_eq!(parse_scope_strings(&s(&["src/"])).unwrap_err(), "scope entry must be normalized: src/");
    assert!(parse_scope_strings(&s(&["/abs"])).is_err());
    assert!(parse_scope_strings(&Vec::new()).unwrap().is_empty());
}
