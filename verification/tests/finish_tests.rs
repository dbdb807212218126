use canon::answer::{CheckRecord, CheckResult};
use canon::finish::{
    check_agent_message, check_finish_error_stats, check_finish_report_stats,
    command_error_has_public_diagnostic, command_error_report_line, pass_improvement_notice,
    pass_improvement_notice_if_gate_passes, report_error_count, report_failed_count,
    report_passed_count, selected_expectation_from_record, staged_pass_notice_count_if_gate_passes,
    staged_passes_not_pass_at_head_count, CommandError, NoteCommand, ALL_CHECKS_PASSED_MESSAGE,
    FIX_ISSUES_MESSAGE,
};
use canon::run::{
    check_run_error, check_run_report, mark_expectations_skipped, CheckRunReport, NarrowingStats,
};
use canon::answer::SelectedExpectation;

fn rec(result: CheckResult, observed: &str, prompt: Option<&str>) -> CheckRecord {
    CheckRecord {
        timestamp: "t".to_string(),
        number: 3,
        result,
        prompt: prompt.map(|p| p.to_string()),
        expected: Some("yes".to_string()),
        observed: observed.to_string(),
        evidence: "e".to_string(),
        scope: vec![".".to_string()],
        scope_hash: "h".to_string(),
        id: "id".to_string(),
        display_id: "d".to_string(),
        cache_key: None,
    }
}

fn report(records: Vec<CheckRecord>) -> CheckRunReport {
    check_run_report(records, Vec::new(), 0, 0, 0, NarrowingStats::new())
}

fn sel(n: usize) -> SelectedExpectation {
    SelectedExpectation {
        number: n,
        id: format!("id{}", n),
        display_id: format!("d{}", n),
        q: "q".to_string(),
        a: "yes".to_string(),
        cooldown: None,
        thinking: None,
    }
}

#[test]
fn improvement_notices() {
    assert_eq!(pass_improvement_notice(0), None);
    assert_eq!(pass_improvement_notice(1), Some("▷ +1 pass compared to HEAD. Commit the staged changes!".to_string()));
    assert_eq!(pass_improvement_notice(3), Some("▷ +3 passes compared to HEAD. Commit the staged changes!".to_string()));
    assert_eq!(pass_improvement_notice_if_gate_passes(false, 3), None);
    assert_eq!(staged_pass_notice_count_if_gate_passes(true, 2), 2);
}

#[test]
fn agent_message_after_check() {
    let pass = report(vec![rec(CheckResult::Pass, "yes", Some("q"))]);
    assert_eq!(check_agent_message(None, &pass), ALL_CHECKS_PASSED_MESSAGE);
    let fail = report(vec![rec(CheckResult::Pass, "yes", Some("q")), rec(CheckResult::Fail, "no", Some("q"))]);
    assert_eq!(check_agent_message(None, &fail), FIX_ISSUES_MESSAGE);
    assert_eq!(check_agent_message(Some("notice".to_string()), &fail), "notice");
}

#[test]
fn gained_passes_over_head() {
    let r = report(vec![
        rec(CheckResult::Pass, "yes", Some("q")),
        rec(CheckResult::Pass, "yes", Some("q")),
        rec(CheckResult::Fail, "no", Some("q")),
        rec(CheckResult::Pass, "yes", None),
    ]);
    assert_eq!(staged_passes_not_pass_at_head_count(&r, &vec![Some(false), Some(true), Some(false), Some(false)]), 1);
}

#[test]
fn expectation_from_record_needs_question_and_answer() {
    let s = selected_expectation_from_record(&rec(CheckResult::Pass, "yes", Some("Q?"))).unwrap();
    assert_eq!(s.number, 3);
    assert_eq!(s.q, "Q?");
    assert_eq!(s.a, "yes");
    assert!(selected_expectation_from_record(&rec(CheckResult::Pass, "yes", None)).is_none());
}

#[test]
fn finish_counts() {
    let r = report(vec![
        rec(CheckResult::Pass, "yes", Some("q")),
        rec(CheckResult::Fail, "no", Some("q")),
        rec(CheckResult::Fail, "idk", Some("q")),
        rec(CheckResult::Fail, "idk", Some("q")),
    ]);
    assert_eq!(report_passed_count(&r), 1);
    assert_eq!(report_failed_count(&r), 1);
    assert_eq!(report_error_count(&r), 2);
    let stats = check_finish_report_stats(&r);
    assert_eq!(stats.errors, 2);
    let e = check_finish_error_stats(1);
    assert_eq!((e.passed, e.failed, e.errors, e.skipped), (0, 0, 1, 0));
}

#[test]
fn command_errors() {
    assert!(!command_error_has_public_diagnostic(&CommandError::CheckFailed));
    assert!(!command_error_has_public_diagnostic(&CommandError::GateFailed));
    assert!(command_error_has_public_diagnostic(&CommandError::UnknownCommand("x".to_string())));
    assert_eq!(CommandError::UnknownOption("-z".to_string()).message(), "unknown option: -z");
    assert_eq!(command_error_report_line(&CommandError::Message("bad".to_string())), Some("Error: bad".to_string()));
    assert_eq!(command_error_report_line(&CommandError::CheckFailed), None);
}

#[test]
fn note_command_words() {
    assert_eq!(NoteCommand::parse("pwd"), Some(NoteCommand::Pwd));
    assert_eq!(NoteCommand::parse("p"), Some(NoteCommand::Path));
    assert_eq!(NoteCommand::parse("rm"), Some(NoteCommand::Delete));
    assert_eq!(NoteCommand::parse("g"), Some(NoteCommand::Search));
    assert_eq!(NoteCommand::parse("write"), Some(NoteCommand::Write));
    assert_eq!(NoteCommand::parse("x"), None);
}

#[test]
fn skipping_moves_counts() {
    let mut non_selected = vec![sel(1)];
    let mut selected = 3usize;
    let mut skipped = 1usize;
    let mut silent = 0usize;
    mark_expectations_skipped(vec![sel(2), sel(3)], &mut non_selected, &mut selected, &mut skipped, &mut silent);
    assert_eq!((selected, skipped, silent), (1, 3, 2));
    assert_eq!(non_selected.len(), 3);
    mark_expectations_skipped(vec![sel(4), sel(5)], &mut non_selected, &mut selected, &mut skipped, &mut silent);
    assert_eq!(selected, 0);
}

#[test]
fn run_error_copies_progress() {
    let recs = vec![rec(CheckResult::Pass, "yes", Some("q"))];
    let e = check_run_error(&recs, &vec![sel(1)], 1, 2, 0, NarrowingStats::new(), "interrupted".to_string());
    assert_eq!(e.error, "interrupted");
    assert_eq!(e.report.records.len(), 1);
    assert_eq!(e.report.skipped, 2);
}
