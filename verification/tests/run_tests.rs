use canon::answer::{CheckRecord, CheckRecordOutcome, CheckResult, Cooldown, SelectedExpectation};
use canon::checkrun::{CheckRun, RunAction, RunEvent, RunPhase};
use canon::config::{AgentConfig, ModelConfig};
use canon::fallback::{FallbackStep, ModelFallback};
use canon::finalsel::CheckCacheHit;
use canon::policy::InterrogationResult;
use canon::protocol::{EvaluatorError, EvaluatorFailureKind, TokenUsage};
use canon::records::{
    error_interrogation_result, error_record_from_interrogation_error, full_scope_retry_scope,
    history_cache_key, interrogate_with_full_scope_retry,
};
use canon::sessions::InterrogationState;
use canon::threads::{thread_reuse_log, ThreadAction, ThreadEvent, ThreadStage, ThreadTurn};

fn s(v: &[&str]) -> Vec<String> {
    v.iter().map(|x| x.to_string()).collect()
}

fn agent() -> AgentConfig {
    AgentConfig {
        model: ModelConfig { primary: None, fallbacks: Vec::new() },
        thinking: "low".to_string(),
        instructions: "Check things.".to_string(),
        ignore: Vec::new(),
        plugins: Vec::new(),
    }
}

fn sel(n: usize) -> SelectedExpectation {
    SelectedExpectation {
        number: n,
        id: format!("id{}", n),
        display_id: format!("d{}", n),
        q: format!("q{}", n),
        a: "yes".to_string(),
        cooldown: None,
        thinking: None,
    }
}

fn rec(n: usize, observed: &str, result: CheckResult, scope: &[&str]) -> CheckRecord {
    CheckRecord {
        timestamp: "t".to_string(),
        number: n,
        result,
        prompt: Some(format!("q{}", n)),
        expected: Some("yes".to_string()),
        observed: observed.to_string(),
        evidence: "because".to_string(),
        scope: s(scope),
        scope_hash: "h".to_string(),
        id: format!("id{}", n),
        display_id: format!("d{}", n),
        cache_key: None,
    }
}

fn result(record: CheckRecord) -> InterrogationResult {
    InterrogationResult { record, turn_usage: None, context_compacted: false, stop_after_current_expectation: false }
}

fn run(queue: Vec<SelectedExpectation>, ignore_cache: bool, check_all: bool) -> CheckRun {
    let mut r = CheckRun::new(queue.len(), 0, Vec::new(), ignore_cache, check_all, None);
    r.set_queue(queue);
    r
}

#[test]
fn run_stops_after_first_failure() {
    let mut r = run(vec![sel(1), sel(2)], true, false);
    assert!(matches!(r.step(RunEvent::Begin), RunAction::Interrogate(0)));
    let a = r.step(RunEvent::Interrogated {
        enforced_scope: s(&["."]),
        result: result(rec(1, "no", CheckResult::Fail, &["."])),
    });
    match a {
        RunAction::Store { record, fresh, append_history } => {
            assert_eq!(record.observed, "no");
            assert!(fresh);
            assert!(append_history);
        }
        _ => panic!("expected store"),
    }
    assert!(matches!(r.step(RunEvent::Stored), RunAction::Finish));
    assert!(matches!(r.phase, RunPhase::Finished));
    let report = r.report();
    assert_eq!(report.records.len(), 1);
    assert_eq!(report.selected, 2);
}

#[test]
fn run_checks_all_when_asked() {
    let mut r = run(vec![sel(1), sel(2)], false, true);
    assert!(matches!(r.step(RunEvent::Begin), RunAction::LookupCache(0)));
    let a = r.step(RunEvent::CacheLookup(Some(rec(1, "no", CheckResult::Fail, &["."]))));
    assert!(matches!(a, RunAction::Store { fresh: false, append_history: false, .. }));
    assert!(matches!(r.step(RunEvent::Stored), RunAction::LookupCache(1)));
    assert!(matches!(r.step(RunEvent::CacheLookup(None)), RunAction::Interrogate(1)));
    let a = r.step(RunEvent::Interrogated {
        enforced_scope: s(&["."]),
        result: result(rec(2, "yes", CheckResult::Pass, &["."])),
    });
    assert!(matches!(a, RunAction::Store { fresh: true, .. }));
    assert!(matches!(r.step(RunEvent::Stored), RunAction::Finish));
    assert_eq!(r.report().records.len(), 2);
}

#[test]
fn narrowed_scope_is_verified_and_accepted() {
    let mut r = run(vec![sel(1)], true, false);
    r.step(RunEvent::Begin);
    let a = r.step(RunEvent::Interrogated {
        enforced_scope: s(&["."]),
        result: result(rec(1, "yes", CheckResult::Pass, &["src"])),
    });
    match a {
        RunAction::VerifyNarrowing { index, scope } => {
            assert_eq!(index, 0);
            assert_eq!(scope, s(&["src"]));
        }
        _ => panic!("expected verification"),
    }
    assert_eq!(r.narrowing.attempted, 1);
    let a = r.step(RunEvent::Verified(result(rec(1, "yes", CheckResult::Pass, &["src"]))));
    assert!(matches!(a, RunAction::Store { fresh: true, append_history: true, .. }));
    assert_eq!(r.narrowing.accepted, 1);
    assert_eq!(r.narrowing.rejected, 0);
}

#[test]
fn rejected_narrowing_restores_the_wide_record() {
    let mut r = run(vec![sel(1)], true, false);
    r.step(RunEvent::Begin);
    r.step(RunEvent::Interrogated {
        enforced_scope: s(&["."]),
        result: result(rec(1, "yes", CheckResult::Pass, &["src"])),
    });
    let a = r.step(RunEvent::Verified(result(rec(1, "no", CheckResult::Fail, &["src"]))));
    match a {
        RunAction::HashEnforcedScope(scope) => assert_eq!(scope, s(&["."])),
        _ => panic!("expected hash request"),
    }
    assert_eq!(r.narrowing.rejected, 1);
    match r.step(RunEvent::EnforcedScopeHash("wide".to_string())) {
        RunAction::Store { record, .. } => {
            assert_eq!(record.observed, "yes");
            assert_eq!(record.scope, s(&["."]));
            assert_eq!(record.scope_hash, "wide");
        }
        _ => panic!("expected store"),
    }
}

#[test]
fn token_break_stops_the_run() {
    let mut r = CheckRun::new(2, 0, Vec::new(), true, true, Some(10));
    r.set_queue(vec![sel(1), sel(2)]);
    r.step(RunEvent::Begin);
    let mut res = result(rec(1, "yes", CheckResult::Pass, &["."]));
    res.turn_usage = Some(TokenUsage {
        total_tokens: 30,
        input_tokens: 20,
        cached_input_tokens: 0,
        output_tokens: 10,
        reasoning_output_tokens: 0,
    });
    r.step(RunEvent::Interrogated { enforced_scope: s(&["."]), result: res });
    assert!(matches!(r.step(RunEvent::Stored), RunAction::Finish));
}

#[test]
fn skipping_before_the_queue() {
    let mut r = CheckRun::new(3, 1, Vec::new(), false, false, None);
    r.skip(vec![sel(3)]);
    assert_eq!(r.selected, 2);
    assert_eq!(r.skipped, 2);
    assert_eq!(r.silent, 1);
    assert_eq!(r.non_selected.len(), 1);
    let e = r.error("interrupted".to_string());
    assert_eq!(e.error, "interrupted");
    assert_eq!(e.report.skipped, 2);
}

#[test]
fn empty_queue_finishes_at_once() {
    let mut r = run(Vec::new(), false, false);
    assert!(matches!(r.step(RunEvent::Begin), RunAction::Finish));
}

#[test]
fn fallback_moves_on_after_technical_failures() {
    let mut state = InterrogationState::new();
    let mut f = ModelFallback::new(vec![Some("a".to_string()), None]);
    assert!(matches!(f.next_step(), FallbackStep::Ask(0)));
    let err = EvaluatorError::failure(EvaluatorFailureKind::UsageLimit, "limit".to_string());
    assert!(f.record_failure(&mut state, &err).is_ok());
    assert!(state.model_is_unavailable(Some("a")));
    assert!(matches!(f.next_step(), FallbackStep::Ask(1)));
    let err = EvaluatorError::failure(EvaluatorFailureKind::RateLimit, "slow".to_string());
    assert!(f.record_failure(&mut state, &err).is_ok());
    assert!(!state.model_is_unavailable(None));
    match f.next_step() {
        FallbackStep::Exhausted(m) => {
            assert_eq!(m, "all evaluator models failed: a: limit; <default>: slow")
        }
        _ => panic!("expected exhaustion"),
    }
}

#[test]
fn fallback_stops_on_other_failures() {
    let mut state = InterrogationState::new();
    let mut f = ModelFallback::new(vec![None, Some("b".to_string())]);
    let err = EvaluatorError::message("bad response".to_string());
    assert_eq!(f.record_failure(&mut state, &err), Err("bad response".to_string()));
    assert_eq!(f.index, 0);
}

#[test]
fn thread_turn_starts_then_reuses() {
    let mut state = InterrogationState::new();
    let scope = s(&["src"]);
    let (mut turn, a) = ThreadTurn::begin(&state, &scope);
    assert!(matches!(a, ThreadAction::StartSession));
    let a = turn.step(&mut state, "dev", ThreadEvent::Started(Ok("t1".to_string())));
    assert!(matches!(a, ThreadAction::Ask(ref id) if id == "t1"));
    assert!(matches!(turn.step(&mut state, "dev", ThreadEvent::Answered(None)), ThreadAction::CollectRetired));
    assert!(matches!(turn.step(&mut state, "dev", ThreadEvent::Retired(Vec::new())), ThreadAction::Finished(Ok(()))));
    assert_eq!(thread_reuse_log(&state, "t1", "fallback"), "dev");
    assert_eq!(thread_reuse_log(&state, "t9", "fallback"), "fallback");
    let (turn2, a) = ThreadTurn::begin(&state, &scope);
    assert!(turn2.had_existing_session);
    assert!(matches!(a, ThreadAction::Ask(ref id) if id == "t1"));
}

#[test]
fn full_context_window_restarts_once() {
    let mut state = InterrogationState::new();
    let scope = s(&["src"]);
    let (mut turn, _) = ThreadTurn::begin(&state, &scope);
    turn.step(&mut state, "dev", ThreadEvent::Started(Ok("t1".to_string())));
    turn.step(&mut state, "dev", ThreadEvent::Answered(None));
    turn.step(&mut state, "dev", ThreadEvent::Retired(Vec::new()));
    let (mut turn, _) = ThreadTurn::begin(&state, &scope);
    let full = EvaluatorError::failure(EvaluatorFailureKind::ContextWindow, "full".to_string());
    assert!(matches!(turn.step(&mut state, "dev", ThreadEvent::Answered(Some(full))), ThreadAction::StartSession));
    assert_eq!(state.sessions_by_scope.len(), 0);
    assert_eq!(turn.stage, ThreadStage::AwaitStart { retry: true });
    turn.step(&mut state, "dev", ThreadEvent::Started(Ok("t2".to_string())));
    let again = EvaluatorError::failure(EvaluatorFailureKind::ContextWindow, "full".to_string());
    match turn.step(&mut state, "dev", ThreadEvent::Answered(Some(again))) {
        ThreadAction::Finished(Err(e)) => assert_eq!(e.message, "full"),
        _ => panic!("expected failure"),
    }
}

#[test]
fn retired_active_thread_is_not_kept() {
    let mut state = InterrogationState::new();
    let scope = s(&["src"]);
    let (mut turn, _) = ThreadTurn::begin(&state, &scope);
    turn.step(&mut state, "dev", ThreadEvent::Started(Ok("t1".to_string())));
    turn.step(&mut state, "dev", ThreadEvent::Answered(None));
    turn.step(&mut state, "dev", ThreadEvent::Retired(s(&["t1"])));
    assert_eq!(state.sessions_by_scope.len(), 0);
    assert_eq!(state.session_instructions.len(), 0);
}

#[test]
fn history_cache_key_hashes_the_settings() {
    let a = agent();
    assert_eq!(history_cache_key(&a, &Vec::new(), &sel(1)), "ZJTXfPwNKlv2MJsFc8nI");
    let mut b = agent();
    b.plugins = s(&["p@m"]);
    b.model.primary = Some("gpt-x".to_string());
    b.model.fallbacks = s(&["gpt-y"]);
    let mut e = sel(1);
    e.thinking = Some("high".to_string());
    e.cooldown = Some(Cooldown { seconds: 3600 });
    assert_eq!(history_cache_key(&b, &s(&["target/**"]), &e), "37j0LZr504TFTygC7xBH");
}

#[test]
fn error_record_carries_the_error() {
    let a = agent();
    let r = error_record_from_interrogation_error(&a, &Vec::new(), &sel(1), &s(&["src"]), "boom", "h".to_string(), "now".to_string());
    assert_eq!(r.result, CheckResult::Fail);
    assert_eq!(r.observed, "<unparseable>");
    assert_eq!(r.evidence, "boom");
    assert_eq!(r.scope, s(&["src"]));
    assert_eq!(r.timestamp, "now");
    assert_eq!(r.cache_key, Some("ZJTXfPwNKlv2MJsFc8nI".to_string()));
    let res = error_interrogation_result(r);
    assert!(res.turn_usage.is_none());
    assert!(!res.stop_after_current_expectation);
    let o = CheckRecordOutcome { result: CheckResult::Pass, observed: "yes".to_string(), evidence: "e".to_string(), scope: s(&["."]), scope_hash: "x".to_string() };
    let c = CheckRecord::current_from_expectation(&a, &Vec::new(), &sel(2), o, "t".to_string());
    assert_eq!(c.number, 2);
    assert_eq!(c.prompt, Some("q2".to_string()));
}

#[test]
fn restricted_idk_is_retried_at_full_scope() {
    let first = result(rec(1, "idk", CheckResult::Fail, &["src"]));
    assert_eq!(full_scope_retry_scope(&first, &s(&["src"])), Some(s(&["."])));
    assert_eq!(full_scope_retry_scope(&first, &s(&["."])), None);
    let answered = result(rec(1, "yes", CheckResult::Pass, &["src"]));
    assert_eq!(full_scope_retry_scope(&answered, &s(&["src"])), None);
    let mut compacted = result(rec(1, "idk", CheckResult::Fail, &["src"]));
    compacted.context_compacted = true;
    let retried = interrogate_with_full_scope_retry(&compacted, None, result(rec(1, "yes", CheckResult::Pass, &["."])));
    assert!(retried.stop_after_current_expectation);
    assert_eq!(retried.record.observed, "yes");
    let plain = interrogate_with_full_scope_retry(&first, None, result(rec(1, "yes", CheckResult::Pass, &["."])));
    assert!(!plain.stop_after_current_expectation);
}

fn numbers(v: &[SelectedExpectation]) -> Vec<usize> {
    v.iter().map(|e| e.number).collect()
}

#[test]
fn final_selection_counts_add_up() {
    let mut r = CheckRun::new(4, 1, vec![sel(9)], false, false, None);
    let kept = r
        .apply_cooldown(vec![sel(1), sel(2), sel(3), sel(4)], vec![Ok(false), Ok(true), Ok(false), Ok(false)])
        .unwrap();
    assert_eq!(numbers(&kept), vec![1, 3, 4]);
    assert_eq!((r.selected, r.silent, r.skipped), (3, 1, 2));
    assert_eq!(numbers(&r.non_selected), vec![9, 2]);
    let hits = vec![
        None,
        Some(CheckCacheHit { record: rec(3, "yes", CheckResult::Pass, &["."]) }),
        Some(CheckCacheHit { record: rec(4, "no", CheckResult::Fail, &["."]) }),
    ];
    let rest = r.apply_pass_cache(kept, hits);
    assert_eq!(numbers(&rest), vec![1, 4]);
    assert_eq!((r.selected, r.silent, r.skipped), (2, 2, 3));
    assert_eq!(numbers(&r.non_selected), vec![9, 2, 3]);
    r.set_queue(rest);
    let report = r.report();
    assert_eq!(report.selected + report.silent, 4);
    assert_eq!(report.skipped, 1 + report.silent);
    assert!(report.records.len() <= report.selected);
}

#[test]
fn cooldown_lookup_failure_keeps_earlier_skips() {
    let mut r = CheckRun::new(3, 0, Vec::new(), false, false, None);
    let result = r.apply_cooldown(vec![sel(1), sel(2), sel(3)], vec![Ok(true), Err("unreadable".to_string()), Ok(true)]);
    assert!(matches!(result, Err(ref e) if e == "unreadable"));
    assert_eq!((r.selected, r.silent, r.skipped), (2, 1, 1));
    assert_eq!(numbers(&r.non_selected), vec![1]);
}
