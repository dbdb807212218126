use canon::answer::SelectedExpectation;
use canon::config::{AgentConfig, ModelConfig};
use canon::protocol::{EvaluatorError, EvaluatorFailureKind};
use canon::sessions::{
    app_server_model_key, clear_thread_sessions_after_failure, effective_thinking,
    evaluator_models, evaluator_session_key, fail_after_session_error, model_label,
    retire_thread_sessions_after_turn, InterrogationState,
};

fn agent(primary: Option<&str>, fallbacks: &[&str]) -> AgentConfig {
    AgentConfig {
        model: ModelConfig {
            primary: primary.map(|p| p.to_string()),
            fallbacks: fallbacks.iter().map(|f| f.to_string()).collect(),
        },
        thinking: "medium".to_string(),
        instructions: "i".to_string(),
        ignore: Vec::new(),
        plugins: Vec::new(),
    }
}

fn state_with_sessions() -> InterrogationState {
    let mut s = InterrogationState::new();
    s.sessions_by_scope.push(("k1".to_string(), "s1".to_string()));
    s.sessions_by_scope.push(("k2".to_string(), "s2".to_string()));
    s.session_instructions.push(("s1".to_string(), "i1".to_string()));
    s.session_instructions.push(("s2".to_string(), "i2".to_string()));
    s
}

#[test]
fn model_keys_and_labels() {
    assert_eq!(app_server_model_key(Some("gpt")), "gpt");
    assert_eq!(app_server_model_key(None), "<default>");
    assert_eq!(model_label(None), "<default>");
}

#[test]
fn models_are_primary_then_fallbacks() {
    assert_eq!(evaluator_models(&agent(Some("a"), &["b", "c"])), vec![Some("a".to_string()), Some("b".to_string()), Some("c".to_string())]);
    assert_eq!(evaluator_models(&agent(None, &["b"])), vec![None, Some("b".to_string())]);
}

#[test]
fn unavailable_models_are_skipped() {
    let a = agent(Some("a"), &["b", "c"]);
    let mut s = InterrogationState::new();
    assert!(!s.model_is_unavailable(Some("b")));
    s.mark_model_unavailable(Some("b"));
    s.mark_model_unavailable(Some("b"));
    assert!(s.model_is_unavailable(Some("b")));
    assert!(!s.model_is_unavailable(Some("a")));
    assert_eq!(s.unavailable_models.len(), 1);
    assert_eq!(s.available_models(&a), vec![Some("a".to_string()), Some("c".to_string())]);
    s.mark_model_unavailable(None);
    assert!(s.model_is_unavailable(Some("<default>")));
}

#[test]
fn thinking_prefers_the_expectation() {
    let a = agent(None, &[]);
    let mut e = SelectedExpectation {
        number: 1,
        id: "i".to_string(),
        display_id: "i".to_string(),
        q: "q".to_string(),
        a: "a".to_string(),
        cooldown: None,
        thinking: None,
    };
    assert_eq!(effective_thinking(&a, &e), "medium");
    e.thinking = Some("high".to_string());
    assert_eq!(effective_thinking(&a, &e), "high");
}

#[test]
fn session_key_frames_each_path_by_byte_length() {
    assert_eq!(evaluator_session_key(&vec!["ab".to_string(), "é".to_string()]), "2\0ab\02\0é\0");
    assert_eq!(evaluator_session_key(&Vec::new()), "");
}

#[test]
fn retired_sessions_are_dropped() {
    let mut s = state_with_sessions();
    assert!(!retire_thread_sessions_after_turn(&mut s, Vec::new(), "s1"));
    assert_eq!(s.sessions_by_scope.len(), 2);
    assert!(retire_thread_sessions_after_turn(&mut s, vec!["s1".to_string()], "s1"));
    assert_eq!(s.sessions_by_scope, vec![("k2".to_string(), "s2".to_string())]);
    assert_eq!(s.session_instructions, vec![("s2".to_string(), "i2".to_string())]);
    assert!(!retire_thread_sessions_after_turn(&mut s, vec!["zz".to_string()], "s2"));
    assert_eq!(s.sessions_by_scope.len(), 1);
}

#[test]
fn technical_failures_clear_sessions() {
    let mut s = state_with_sessions();
    let r: Result<(), EvaluatorError> = fail_after_session_error(&mut s, EvaluatorError::message("plain".to_string()));
    assert_eq!(r.err().unwrap().message_str(), "plain");
    assert_eq!(s.sessions_by_scope.len(), 2);
    let t: Result<(), EvaluatorError> = fail_after_session_error(&mut s, EvaluatorError::failure(EvaluatorFailureKind::TurnTimeout, "slow".to_string()));
    assert_eq!(t.err().unwrap().kind(), Some(EvaluatorFailureKind::TurnTimeout));
    assert!(s.sessions_by_scope.is_empty());
    assert!(s.session_instructions.is_empty());
    let mut u = state_with_sessions();
    clear_thread_sessions_after_failure(&mut u);
    assert!(u.sessions_by_scope.is_empty());
}

#[test]
fn session_keys_concatenate_and_tell_scopes_apart() {
    let s = |v: &[&str]| v.iter().map(|x| x.to_string()).collect::<Vec<String>>();
    assert_eq!(evaluator_session_key(&s(&["."])), "1\0.\0");
    let a = s(&["src", "lib"]);
    let b = s(&["doc"]);
    let mut ab = a.clone();
    ab.extend(b.clone());
    assert_eq!(evaluator_session_key(&ab), evaluator_session_key(&a) + &evaluator_session_key(&b));
    assert_ne!(evaluator_session_key(&s(&["a\u{0}1\u{0}b"])), evaluator_session_key(&s(&["a", "b"])));
    assert_ne!(evaluator_session_key(&s(&["ab"])), evaluator_session_key(&s(&["a", "b"])));
}
