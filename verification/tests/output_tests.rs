use canon::answer::{CheckRecord, CheckResult, ParsedAnswer};
use canon::output::{
    compact_json_string_array, escape_check_output_text, pad_summary_line,
    push_check_output_unicode_escape, record_requires_human_review, render_check_output_record,
    render_check_summary, render_query_output, report_output_skipped_count,
};
use canon::run::{CheckRunReport, NarrowingStats};

fn record(display_id: &str, result: CheckResult, expected: Option<&str>, observed: &str) -> CheckRecord {
    CheckRecord {
        timestamp: "2024-01-01T00:00:00Z".to_string(),
        number: 1,
        result,
        prompt: Some("Is the sky blue?".to_string()),
        expected: expected.map(|e| e.to_string()),
        observed: observed.to_string(),
        evidence: "looked\nup".to_string(),
        scope: vec!["src".to_string(), "docs/a \"b\".md".to_string()],
        scope_hash: "hash".to_string(),
        id: format!("{}full", display_id),
        display_id: display_id.to_string(),
        cache_key: None,
    }
}

fn report(records: Vec<CheckRecord>, skipped: usize) -> CheckRunReport {
    CheckRunReport {
        records,
        non_selected: Vec::new(),
        selected: 0,
        skipped,
        silent: 0,
        narrowing: NarrowingStats { attempted: 0, accepted: 0, rejected: 0 },
    }
}

#[test]
fn escape_keeps_plain_text() {
    assert_eq!(escape_check_output_text("plain text é"), "plain text é");
}

#[test]
fn escape_turns_line_feed_tab_and_return_into_short_escapes() {
    assert_eq!(escape_check_output_text("a\nb\tc\rd"), "a\\nb\\tc\\rd");
}

#[test]
fn escape_turns_other_controls_and_line_breaks_into_unicode_escapes() {
    assert_eq!(escape_check_output_text("x\u{7}y"), "x\\u0007y");
    assert_eq!(escape_check_output_text("\u{b}\u{c}"), "\\u000b\\u000c");
    assert_eq!(escape_check_output_text("\u{85}"), "\\u0085");
    assert_eq!(escape_check_output_text("\u{2028}\u{2029}"), "\\u2028\\u2029");
    assert_eq!(escape_check_output_text("\u{7f}"), "\\u007f");
}

#[test]
fn unicode_escape_uses_at_least_four_lowercase_digits() {
    let mut out = String::from("<");
    push_check_output_unicode_escape(&mut out, '\u{1b}');
    assert_eq!(out, "<\\u001b");
    let mut wide = String::new();
    push_check_output_unicode_escape(&mut wide, '\u{1f600}');
    assert_eq!(wide, "\\u1f600");
}

#[test]
fn json_array_quotes_and_escapes() {
    let values = vec!["a\"b".to_string(), "c\\d".to_string(), "e\nf\u{1}".to_string()];
    assert_eq!(compact_json_string_array(&values), "[\"a\\\"b\",\"c\\\\d\",\"e\\nf\\u0001\"]");
    assert_eq!(compact_json_string_array(&Vec::new()), "[]");
}

#[test]
fn passing_record_is_one_ok_line() {
    let r = record("abc", CheckResult::Pass, Some("yes"), "yes");
    assert_eq!(render_check_output_record(&r), "abc. OK\n");
}

#[test]
fn failed_record_has_six_lines_with_scope() {
    let r = record("abc", CheckResult::Fail, Some("yes"), "no");
    let out = render_check_output_record(&r);
    assert_eq!(
        out,
        "abc. FAILED\nIs the sky blue?\nExpected: yes\nObserved: no\nEvidence: looked\\nup\nScope: [\"src\",\"docs/a \\\"b\\\".md\"]\n"
    );
    assert_eq!(out.matches('\n').count(), 6);
}

#[test]
fn review_record_has_five_lines_without_scope() {
    let r = record("abc", CheckResult::Fail, Some("yes"), "idk");
    let out = render_check_output_record(&r);
    assert_eq!(
        out,
        "abc. ERROR\nIs the sky blue?\nExpected: yes\nObserved: idk\nEvidence: looked\\nup\n"
    );
    assert_eq!(out.matches('\n').count(), 5);
}

#[test]
fn answer_outside_closed_vocabulary_needs_review() {
    let r = record("abc", CheckResult::Fail, Some("yes"), "maybe");
    assert!(record_requires_human_review(&r));
    let free = record("abc", CheckResult::Fail, Some("42"), "41");
    assert!(!record_requires_human_review(&free));
    let none = record("abc", CheckResult::Fail, None, "41");
    assert!(record_requires_human_review(&none));
}

#[test]
fn record_without_expected_text_renders_empty_expected_line() {
    let r = record("z", CheckResult::Fail, None, "x");
    assert_eq!(
        render_check_output_record(&r),
        "z. ERROR\nIs the sky blue?\nExpected: \nObserved: x\nEvidence: looked\\nup\n"
    );
}

#[test]
fn query_output_has_three_lines() {
    let a = ParsedAnswer {
        answer: "yes".to_string(),
        evidence: "e\tf".to_string(),
        scope: vec![".".to_string()],
    };
    assert_eq!(render_query_output(&a), "Observed: yes\nEvidence: e\\tf\nScope: [\".\"]\n");
}

#[test]
fn summary_line_is_centred_in_eighty_columns() {
    let line = pad_summary_line(" 1 passed in 0.01s ");
    assert_eq!(line.len(), 80);
    assert_eq!(line, format!("{} 1 passed in 0.01s {}", "=".repeat(30), "=".repeat(31)));
}

#[test]
fn wide_summary_keeps_one_equals_sign_each_side() {
    let inner = " ".to_string() + &"x".repeat(100) + " ";
    let line = pad_summary_line(&inner);
    assert_eq!(line, format!("={}=", inner));
}

#[test]
fn summary_lists_failed_errors_passed_skipped() {
    let r = report(
        vec![
            record("a", CheckResult::Pass, Some("yes"), "yes"),
            record("b", CheckResult::Fail, Some("yes"), "no"),
            record("c", CheckResult::Fail, Some("yes"), "idk"),
        ],
        2,
    );
    let inner = " 1 failed, 1 error, 1 passed, 2 skipped in 1.50s ";
    let expected = format!("{}\n", pad_summary_line(inner));
    assert_eq!(render_check_summary(&r, "1.50"), expected);
    assert_eq!(report_output_skipped_count(&r), 2);
}

#[test]
fn summary_pluralises_errors_and_defaults_to_zero_passed() {
    let r = report(
        vec![
            record("b", CheckResult::Fail, Some("yes"), "idk"),
            record("c", CheckResult::Fail, Some("yes"), "malformed"),
        ],
        0,
    );
    assert_eq!(render_check_summary(&r, "0.10"), format!("{}\n", pad_summary_line(" 2 errors in 0.10s ")));
    let empty = report(Vec::new(), 0);
    assert_eq!(render_check_summary(&empty, "0.00"), format!("{}\n", pad_summary_line(" 0 passed in 0.00s ")));
}
