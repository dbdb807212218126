use canon::protocol::{
    app_server_failure_from_message, app_server_failure_kind, app_server_failure_kind_from_code,
    app_server_protocol_error, carryover_tokens, finish_app_server_cleanup, format_number,
    is_compaction_item_type, is_context_window_failure, is_model_technical_failure,
    render_token_usage_summary, thread_reuse_policy_should_rollback, turn_idle_timed_out,
    turn_text, AppServerErrorFields, CarryoverTokenTarget, EvaluatorError, EvaluatorFailureKind,
    TokenUsage,
};
use canon::turns::{
    record_context_compaction_event, record_token_usage_update, ContextCompactionEvent,
    TokenUsageUpdate,
};

fn usage(total: u64, input: u64, cached: u64, output: u64, reasoning: u64) -> TokenUsage {
    TokenUsage {
        total_tokens: total,
        input_tokens: input,
        cached_input_tokens: cached,
        output_tokens: output,
        reasoning_output_tokens: reasoning,
    }
}

#[test]
fn format_number_groups_thousands() {
    assert_eq!(format_number(0), "0");
    assert_eq!(format_number(999), "999");
    assert_eq!(format_number(1000), "1,000");
    assert_eq!(format_number(1234567), "1,234,567");
    assert_eq!(format_number(u64::MAX), "18,446,744,073,709,551,615");
}

#[test]
fn token_usage_summary_line() {
    assert_eq!(
        render_token_usage_summary(usage(1500, 1200, 100, 300, 50)),
        "Token usage: total=1,500 input=1,200 (+ 100 cached) output=300 (reasoning 50)"
    );
}

#[test]
fn usage_adds_fieldwise() {
    let sum = usage(1, 2, 3, 4, 5).add(usage(10, 20, 30, 40, 50));
    assert_eq!(sum, usage(11, 22, 33, 44, 55));
    assert_eq!(usage(1, 2, 3, 4, 5).add(TokenUsage::zero()), usage(1, 2, 3, 4, 5));
}

#[test]
fn carryover_is_input_plus_output() {
    assert_eq!(carryover_tokens(usage(0, 7, 100, 5, 100)), 12);
}

#[test]
fn rollback_when_previous_reached_min_or_current_passed_max() {
    let target = CarryoverTokenTarget { min: 100, max: 200 };
    assert!(thread_reuse_policy_should_rollback(100, 0, target));
    assert!(thread_reuse_policy_should_rollback(0, 201, target));
    assert!(!thread_reuse_policy_should_rollback(99, 200, target));
}

#[test]
fn failure_codes_map_to_kinds() {
    assert_eq!(app_server_failure_kind_from_code("usageLimitExceeded"), EvaluatorFailureKind::UsageLimit);
    assert_eq!(app_server_failure_kind_from_code("rate_limit_exceeded"), EvaluatorFailureKind::RateLimit);
    assert_eq!(app_server_failure_kind_from_code("modelUnavailable"), EvaluatorFailureKind::ModelUnavailable);
    assert_eq!(app_server_failure_kind_from_code("context_length_exceeded"), EvaluatorFailureKind::ContextWindow);
    assert_eq!(app_server_failure_kind_from_code("teapot"), EvaluatorFailureKind::UnknownAppServer);
}

#[test]
fn error_fields_prefer_code_then_type_then_info() {
    let f = AppServerErrorFields { code: None, kind: Some("t".to_string()), codex_error_info: Some("i".to_string()) };
    assert_eq!(f.code(), Some("t".to_string()));
    let g = AppServerErrorFields { code: None, kind: None, codex_error_info: Some("modelUnavailable".to_string()) };
    assert_eq!(app_server_failure_kind(Some(g)), EvaluatorFailureKind::ModelUnavailable);
    assert_eq!(app_server_failure_kind(None), EvaluatorFailureKind::UnknownAppServer);
}

#[test]
fn failure_from_message_has_no_kind() {
    let e = app_server_failure_from_message("turn/start", "boom");
    assert_eq!(e.kind(), None);
    assert_eq!(e.message_str(), "app-server turn/start failed: boom");
    assert!(!is_model_technical_failure(&e));
}

#[test]
fn protocol_error_is_unknown_app_server_failure() {
    let e = app_server_protocol_error("bad frame".to_string());
    assert_eq!(e.kind(), Some(EvaluatorFailureKind::UnknownAppServer));
    assert!(is_model_technical_failure(&e));
    assert!(!is_context_window_failure(&e));
    let w = EvaluatorError::failure(EvaluatorFailureKind::ContextWindow, "full".to_string());
    assert!(is_context_window_failure(&w));
}

#[test]
fn compaction_item_types() {
    assert!(is_compaction_item_type("contextCompaction"));
    assert!(is_compaction_item_type("compacted"));
    assert!(!is_compaction_item_type("compact"));
}

#[test]
fn turn_text_prefers_non_blank_deltas() {
    assert_eq!(turn_text("delta".to_string(), "done".to_string()), "delta");
    assert_eq!(turn_text(" \n\t".to_string(), "done".to_string()), "done");
}

#[test]
fn idle_timeout_after_six_hundred_seconds() {
    assert!(turn_idle_timed_out(1_000, 601_000));
    assert!(!turn_idle_timed_out(1_000, 600_999));
    assert!(!turn_idle_timed_out(5_000, 1_000));
}

#[test]
fn cleanup_joins_errors() {
    assert_eq!(finish_app_server_cleanup(Vec::new()), Ok(()));
    assert_eq!(
        finish_app_server_cleanup(vec!["kill failed".to_string(), "wait failed".to_string()]),
        Err("kill failed; wait failed".to_string())
    );
}

#[test]
fn token_usage_updates_are_numbered_and_summed_per_turn() {
    let mut by_turn: Vec<(String, TokenUsage)> = Vec::new();
    let mut updates: Vec<(String, Vec<TokenUsageUpdate>)> = Vec::new();
    for (turn, u) in [("t1", usage(10, 6, 0, 4, 0)), ("t2", usage(1, 1, 0, 0, 0)), ("t1", usage(5, 3, 1, 2, 1))] {
        record_token_usage_update(
            &mut by_turn,
            &mut updates,
            TokenUsageUpdate {
                sequence: 0,
                thread_id: "th".to_string(),
                turn_id: turn.to_string(),
                token_usage: serde_json::Value::Null,
                last_usage: u,
            },
        );
    }
    assert_eq!(by_turn.len(), 2);
    assert_eq!(by_turn[0].0, "t1");
    assert_eq!(by_turn[0].1, usage(15, 9, 1, 6, 1));
    assert_eq!(by_turn[1].1, usage(1, 1, 0, 0, 0));
    let seqs: Vec<u64> = updates[0].1.iter().map(|u| u.sequence).collect();
    assert_eq!(seqs, vec![1, 2]);
    assert_eq!(updates[1].1[0].sequence, 1);
}

#[test]
fn compaction_events_are_numbered_per_turn() {
    let mut by_turn: Vec<(String, Vec<ContextCompactionEvent>)> = Vec::new();
    for turn in ["a", "a", "b", "a"] {
        record_context_compaction_event(
            &mut by_turn,
            ContextCompactionEvent {
                sequence: 0,
                thread_id: "th".to_string(),
                turn_id: turn.to_string(),
                method: "thread/compacted".to_string(),
                event: serde_json::Value::Null,
            },
        );
    }
    let a: Vec<u64> = by_turn[0].1.iter().map(|e| e.sequence).collect();
    assert_eq!(a, vec![1, 2, 3]);
    assert_eq!(by_turn[1].1.len(), 1);
}
