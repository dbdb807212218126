use canon::answer::{CheckRecord, CheckResult, SelectedExpectation};
use canon::finish::check_command_passed;
use canon::gate::gate_ignore_cache_message;
use canon::gate::{
    exact_gate_cache_result_for_source, gate_findings, gate_missing_cache_advice,
    gate_missing_message, gate_mixed_changes_message, gate_passes, gate_refuses_ignore_cache,
    gate_staged_decision, join_display_ids, GateCacheResult, GateStagedDecision,
};
use canon::run::{check_run_report, NarrowingStats};

fn s(v: &[&str]) -> Vec<String> {
    v.iter().map(|x| x.to_string()).collect()
}

fn sel(n: usize) -> SelectedExpectation {
    SelectedExpectation {
        number: n,
        id: format!("id{}", n),
        display_id: format!("d{}", n),
        q: format!("q{}", n),
        a: "yes".to_string(),
        cooldown: None,
        thinking: None,
    }
}

fn rec(n: usize, result: CheckResult) -> CheckRecord {
    CheckRecord {
        timestamp: "t".to_string(),
        number: n,
        result,
        prompt: Some(format!("q{}", n)),
        expected: Some("yes".to_string()),
        observed: "no".to_string(),
        evidence: "e".to_string(),
        scope: s(&["."]),
        scope_hash: "h".to_string(),
        id: format!("id{}", n),
        display_id: format!("d{}", n),
        cache_key: None,
    }
}

#[test]
fn gate_refuses_ignore_cache_option() {
    assert!(gate_refuses_ignore_cache(&s(&["-a", "--ignore-cache"])));
    assert!(!gate_refuses_ignore_cache(&s(&["-a"])));
}

#[test]
fn canon_changes_stand_alone() {
    let canon = b".canon/check.yml".to_vec();
    let other = b"src/main.rs".to_vec();
    assert_eq!(gate_staged_decision(&vec![canon.clone(), other.clone()]), GateStagedDecision::Mixed);
    assert_eq!(gate_staged_decision(&vec![canon]), GateStagedDecision::CanonOnly);
    assert_eq!(gate_staged_decision(&vec![other]), GateStagedDecision::CheckCache);
    assert_eq!(gate_staged_decision(&Vec::new()), GateStagedDecision::CheckCache);
    assert_eq!(
        gate_mixed_changes_message(),
        "canon gate: .canon/** changes must not be mixed with non-.canon changes"
    );
}

#[test]
fn cache_results_from_records() {
    assert!(matches!(exact_gate_cache_result_for_source(None), GateCacheResult::Missing));
    assert!(matches!(exact_gate_cache_result_for_source(Some(rec(1, CheckResult::Pass))), GateCacheResult::Pass));
    assert!(matches!(exact_gate_cache_result_for_source(Some(rec(1, CheckResult::Fail))), GateCacheResult::Fail(_)));
}

#[test]
fn only_regressions_and_missing_answers_block() {
    let exps = vec![sel(1), sel(2), sel(3), sel(4)];
    let previous = vec![
        GateCacheResult::Fail(rec(1, CheckResult::Fail)),
        GateCacheResult::Pass,
        GateCacheResult::Pass,
        GateCacheResult::Missing,
    ];
    let current = vec![
        GateCacheResult::Fail(rec(1, CheckResult::Fail)),
        GateCacheResult::Fail(rec(2, CheckResult::Fail)),
        GateCacheResult::Pass,
        GateCacheResult::Missing,
    ];
    let f = gate_findings(&exps, &previous, &current);
    assert_eq!(f.failing.len(), 1);
    assert_eq!(f.failing[0].number, 2);
    assert_eq!(f.missing.len(), 1);
    assert_eq!(f.missing[0].number, 4);
    assert!(!gate_passes(&f));
    assert_eq!(
        gate_missing_message(&f.missing),
        "canon gate: missing cached answers for expectations: d4"
    );
    assert_eq!(
        gate_missing_cache_advice(true),
        Some("canon gate: fix staged regressions before filling missing cache")
    );
    assert_eq!(gate_missing_cache_advice(false), Some("canon gate: run `canon check` before committing"));
    let clean = gate_findings(&vec![sel(1)], &vec![GateCacheResult::Fail(rec(1, CheckResult::Fail))], &vec![GateCacheResult::Fail(rec(1, CheckResult::Fail))]);
    assert!(gate_passes(&clean));
    assert_eq!(join_display_ids(&vec![sel(1), sel(2)]), "d1, d2");
}

#[test]
fn check_command_needs_every_record_to_pass() {
    let n = NarrowingStats { attempted: 0, accepted: 0, rejected: 0 };
    let ok = check_run_report(vec![rec(1, CheckResult::Pass)], Vec::new(), 1, 0, 0, n);
    assert!(check_command_passed(&ok, false));
    assert!(!check_command_passed(&ok, true));
    let bad = check_run_report(vec![rec(1, CheckResult::Pass), rec(2, CheckResult::Fail)], Vec::new(), 2, 0, 0, n);
    assert!(!check_command_passed(&bad, false));
}

#[test]
fn gate_refuses_ignore_cache_with_usage_text() {
    assert_eq!(gate_ignore_cache_message(), "canon gate does not accept --ignore-cache");
}
