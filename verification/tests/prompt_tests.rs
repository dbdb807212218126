use canon::protocol::{pick_notification_error, ErrorPick};
use canon::prompt::{developer_instructions, render_instruction_template, replace_all, trim_end_str};
use canon::protocol::{
    is_assistant_message_item, message_error_source, message_marks_context_compaction, message_payload_text,
    str_contains, thread_reuse_step, ErrorSource, ThreadReuseStep,
    token_usage_from_fields,
};

#[test]
fn replacement_matches_str_replace() {
    for (s, p, w) in [
        ("aaa", "aa", "b"),
        ("abcabc", "bc", "X"),
        ("abc", "", "-"),
        ("", "", "-"),
        ("xyz", "q", "r"),
        ("{{a}}{{a}}", "{{a}}", "1"),
        ("ab", "abc", "z"),
    ] {
        assert_eq!(replace_all(s, p, w), s.replace(p, w));
    }
    assert_eq!(replace_all("aaa", "aa", "b"), "ba");
    assert_eq!(replace_all("abc", "", "-"), "-a-b-c-");
}

#[test]
fn trailing_whitespace_is_trimmed() {
    assert_eq!(trim_end_str("policy \n\t"), "policy");
    assert_eq!(trim_end_str("  keep"), "  keep");
    assert_eq!(trim_end_str(" \n"), "");
}

#[test]
fn replacements_apply_in_order() {
    let reps = vec![
        ("{{x}}".to_string(), "{{y}}".to_string()),
        ("{{y}}".to_string(), "done".to_string()),
    ];
    assert_eq!(render_instruction_template("a {{x}} b {{y}}", &reps), "a done b done");
}

#[test]
fn developer_instructions_fill_every_placeholder() {
    let template = "Scope: {{scope}}\n{{response_format}}\n{{answer_policy}}\n{{agent_instructions}}\n\n";
    let scope = vec!["src".to_string(), "a\"b".to_string()];
    let text = developer_instructions(template, "FORMAT", "POLICY\n", "  be strict  ", &scope);
    assert_eq!(
        text,
        "Scope: [\"src\",\"a\\\"b\"]\nFORMAT\nPOLICY\nProject-specific evaluator policy loaded from check.yml:\nbe strict"
    );
    let plain = developer_instructions(template, "F", "P", " ", &scope);
    assert_eq!(plain, "Scope: [\"src\",\"a\\\"b\"]\nF\nP\n");
}

#[test]
fn compaction_is_marked_by_item_or_method() {
    assert!(message_marks_context_compaction("item/completed", Some("contextCompaction")));
    assert!(message_marks_context_compaction("item/completed", Some("compacted")));
    assert!(message_marks_context_compaction("thread/Compacted", None));
    assert!(message_marks_context_compaction("context/COMPACTION", Some("message")));
    assert!(!message_marks_context_compaction("item/completed", Some("agentMessage")));
    assert!(!message_marks_context_compaction("compac", None));
    assert!(!message_marks_context_compaction("", None));
}

#[test]
fn usage_fields_default_only_the_optional_counts() {
    let usage = token_usage_from_fields(Some(10), Some(7), None, Some(3), None).unwrap();
    assert_eq!(usage.total_tokens, 10);
    assert_eq!(usage.input_tokens, 7);
    assert_eq!(usage.cached_input_tokens, 0);
    assert_eq!(usage.output_tokens, 3);
    assert_eq!(usage.reasoning_output_tokens, 0);
    let full = token_usage_from_fields(Some(10), Some(7), Some(2), Some(3), Some(1)).unwrap();
    assert_eq!(full.cached_input_tokens, 2);
    assert_eq!(full.reasoning_output_tokens, 1);
    assert!(token_usage_from_fields(None, Some(7), None, Some(3), None).is_none());
    assert!(token_usage_from_fields(Some(1), Some(7), None, None, None).is_none());
}

#[test]
fn assistant_items_and_payload_texts() {
    assert!(is_assistant_message_item(Some("assistant"), None));
    assert!(is_assistant_message_item(None, Some("agent-message")));
    assert!(!is_assistant_message_item(None, Some("agentMessage")));
    assert!(is_assistant_message_item(Some("user"), Some("agent_message")));
    assert!(!is_assistant_message_item(Some("user"), Some("agent")));
    assert!(!is_assistant_message_item(None, None));
    let parts = vec![
        (Some("output_text".to_string()), Some("B".to_string())),
        (Some("image".to_string()), Some("X".to_string())),
        (None, Some("Y".to_string())),
        (Some("text".to_string()), Some("C".to_string())),
        (Some("text".to_string()), None),
    ];
    assert_eq!(message_payload_text(Some("A"), &parts), "ABC");
    assert_eq!(message_payload_text(None, &Vec::new()), "");
    assert!(str_contains("thread/compacted", "compact"));
    assert!(str_contains("abc", ""));
    assert!(!str_contains("ab", "abc"));
}

#[test]
fn error_sources_follow_the_method() {
    assert_eq!(message_error_source("error", None), ErrorSource::ErrorNotification);
    assert_eq!(message_error_source("turn/failed", Some("failed")), ErrorSource::ErrorNotification);
    assert_eq!(message_error_source("turn/error", None), ErrorSource::ErrorNotification);
    assert_eq!(message_error_source("turn/completed", Some("failed")), ErrorSource::FailedTurn);
    assert_eq!(message_error_source("turn/completed", Some("completed")), ErrorSource::NoError);
    assert_eq!(message_error_source("turn/completed", None), ErrorSource::NoError);
    assert_eq!(message_error_source("item/completed", Some("failed")), ErrorSource::NoError);
}

#[test]
fn thread_reuse_steps() {
    use_thread_reuse_steps();
}

fn use_thread_reuse_steps() {
    let target = canon::protocol::CarryoverTokenTarget { min: 100, max: 300 };
    let usage = canon::protocol::token_usage_from_fields(Some(0), Some(150), None, Some(50), None).unwrap();
    assert_eq!(thread_reuse_step(None, usage, target), ThreadReuseStep::Keep(200));
    assert_eq!(thread_reuse_step(Some(50), usage, target), ThreadReuseStep::Keep(200));
    assert_eq!(thread_reuse_step(Some(100), usage, target), ThreadReuseStep::Rollback);
    let big = canon::protocol::token_usage_from_fields(Some(0), Some(250), None, Some(51), None).unwrap();
    assert_eq!(thread_reuse_step(Some(0), big, target), ThreadReuseStep::Rollback);
}

#[test]
fn notification_errors_are_picked_in_order() {
    assert!(pick_notification_error(ErrorSource::NoError, true, true, true, None, None, "m").is_none());
    assert!(matches!(pick_notification_error(ErrorSource::FailedTurn, true, false, false, None, None, "m"), Some(ErrorPick::TurnError)));
    assert!(matches!(pick_notification_error(ErrorSource::FailedTurn, false, true, false, None, None, "m"), Some(ErrorPick::Message(ref t)) if t == "turn failed"));
    assert!(matches!(pick_notification_error(ErrorSource::ErrorNotification, false, true, true, None, None, "m"), Some(ErrorPick::ParamsError)));
    assert!(matches!(pick_notification_error(ErrorSource::ErrorNotification, false, false, true, None, None, "m"), Some(ErrorPick::TopError)));
    assert!(matches!(pick_notification_error(ErrorSource::ErrorNotification, false, false, false, Some("p"), Some("q"), "m"), Some(ErrorPick::Message(ref t)) if t == "p"));
    assert!(matches!(pick_notification_error(ErrorSource::ErrorNotification, false, false, false, None, Some("q"), "m"), Some(ErrorPick::Message(ref t)) if t == "q"));
    assert!(matches!(pick_notification_error(ErrorSource::ErrorNotification, false, false, false, None, None, "m"), Some(ErrorPick::Message(ref t)) if t == "m"));
}
