use canon::answer::{contains_line_break, CheckResult, ObservedAnswerState};
use canon::config::{
    check_config_loads_plugins, default_thinking, AgentConfig, CheckConfig, CheckConfigSource,
    Expectation, ModelConfig, RawExpectationFields, RawExpectationItem, RawItemProblem,
};
use canon::durations::{parse_break_after_tokens, parse_cooldown, parse_log_max_size};
use canon::hash::{encode_base64url_no_pad, fnv64_with_seed, full_scope, hash_120, FNV_OFFSET};
use canon::repo_path::normalize_repo_path;
use canon::text::{decimal_string, trim_str};
use canon::validation::{
    codex_reasoning_effort, normalize_agent_config, normalize_agent_ignore_pattern_for_config,
    validate_check_config, validate_optional_model, validate_plugin_config_key,
    validate_relative_config_path, validate_thinking,
};

fn agent() -> AgentConfig {
    AgentConfig {
        model: ModelConfig { primary: None, fallbacks: Vec::new() },
        thinking: "low".to_string(),
        instructions: "Check things.".to_string(),
        ignore: Vec::new(),
        plugins: Vec::new(),
    }
}

fn config(exps: Vec<Expectation>) -> CheckConfig {
    CheckConfig { version: 1, agent: agent(), expectations: exps }
}

fn e(q: &str, a: &str) -> Expectation {
    Expectation { q: q.to_string(), a: a.to_string(), cooldown: None, thinking: None }
}

fn fields(q: Option<&str>, qt: Option<&str>, a: Option<&str>, path: Option<&str>, inc: Option<&str>) -> RawExpectationFields {
    let o = |v: Option<&str>| v.map(|x| x.to_string());
    RawExpectationFields { q: o(q), q_template: o(qt), a: o(a), path: o(path), included: o(inc), cooldown: None, thinking: None }
}

#[test]
fn observed_states() {
    assert_eq!(ObservedAnswerState::from_observed("idk"), ObservedAnswerState::Idk);
    assert_eq!(ObservedAnswerState::from_observed("a\nb"), ObservedAnswerState::Unknown);
    assert_eq!(ObservedAnswerState::from_expected_and_observed("yes", "maybe"), ObservedAnswerState::Unknown);
    assert_eq!(ObservedAnswerState::from_expected_and_observed("b", "c"), ObservedAnswerState::Answer);
    assert_eq!(ObservedAnswerState::from_expected_and_observed("b", "cc"), ObservedAnswerState::Unknown);
    assert!(ObservedAnswerState::Idk.requires_human_review());
    assert!(ObservedAnswerState::Answer.is_reusable_history());
    assert!(contains_line_break("a\u{2028}b"));
    assert_eq!(CheckResult::Fail.as_str(), "fail");
}

#[test]
fn cooldowns_parse_to_seconds() {
    assert_eq!(parse_cooldown("90s").unwrap().seconds, 90);
    assert_eq!(parse_cooldown("2w").unwrap().seconds, 1_209_600);
    assert_eq!(parse_cooldown(" 1h").err(), Some("must use compact duration syntax without surrounding whitespace".to_string()));
    assert_eq!(parse_cooldown("h").err(), Some("must use integer duration with unit s, m, h, d, or w".to_string()));
    assert_eq!(parse_cooldown("0d").err(), Some("must be greater than zero".to_string()));
    assert_eq!(parse_cooldown("5y").err(), Some("unit must be one of s, m, h, d, or w".to_string()));
    assert_eq!(parse_cooldown("x5m").err(), Some("must start with an integer".to_string()));
    assert_eq!(parse_cooldown("99999999999999999999s").err(), Some("duration integer is too large".to_string()));
    assert_eq!(parse_cooldown("18446744073709551615w").err(), Some("duration is too large".to_string()));
}

#[test]
fn token_limits_and_log_sizes() {
    assert_eq!(parse_break_after_tokens("120"), Ok(120));
    assert_eq!(parse_break_after_tokens(""), Err("--break-after-tokens must be a positive integer".to_string()));
    assert_eq!(parse_break_after_tokens("18446744073709551616"), Err("--break-after-tokens value is too large".to_string()));
    assert_eq!(parse_log_max_size("10M"), Ok(10 * 1024 * 1024));
    assert_eq!(parse_log_max_size("2G"), Ok(2 * 1024 * 1024 * 1024));
    assert_eq!(parse_log_max_size("512"), Ok(512));
    assert_eq!(parse_log_max_size("1K"), Err("must be a byte count with optional M or G suffix".to_string()));
    assert_eq!(parse_log_max_size(""), Err("must not be empty".to_string()));
}

#[test]
fn repo_paths_normalise() {
    assert_eq!(normalize_repo_path("a/./b//c/"), Ok("a/b/c".to_string()));
    assert_eq!(normalize_repo_path("./"), Ok(".".to_string()));
    assert_eq!(normalize_repo_path("/etc"), Err("path must be relative".to_string()));
    assert_eq!(normalize_repo_path("a/../b"), Err("path must not contain parent directory segments".to_string()));
    assert_eq!(validate_relative_config_path("../x", "expectation generator path"), Err("expectation generator path: path must not contain parent directory segments".to_string()));
}

#[test]
fn hashing_and_encoding() {
    assert_eq!(fnv64_with_seed(FNV_OFFSET, b""), 0xcbf29ce484222325);
    assert_eq!(fnv64_with_seed(FNV_OFFSET, b"a"), 0xaf63dc4c8601ec8c);
    assert_eq!(encode_base64url_no_pad(&[0xfb, 0xff]), "-_8");
    assert_eq!(hash_120(b"abc"), "5x-iGQVBV0uvKW3jw7b_");
    assert_eq!(full_scope(), vec![".".to_string()]);
}

#[test]
fn text_helpers() {
    assert_eq!(trim_str("  a b \n"), "a b");
    assert_eq!(decimal_string(907), "907");
}

#[test]
fn raw_items_from_fields() {
    assert!(matches!(RawExpectationItem::from_fields(fields(Some("q"), None, Some("a"), None, None)), Ok(RawExpectationItem::Explicit(_))));
    assert!(matches!(RawExpectationItem::from_fields(fields(None, Some("t"), Some("a"), Some("p"), None)), Ok(RawExpectationItem::Generator(_))));
    assert!(matches!(RawExpectationItem::from_fields(fields(None, None, None, None, Some("f.yml"))), Ok(RawExpectationItem::Included(_))));
    assert_eq!(RawExpectationItem::from_fields(fields(None, None, Some("a"), None, Some("f"))).err(), Some(RawItemProblem::KeyWithA));
    assert_eq!(RawExpectationItem::from_fields(fields(Some("q"), Some("t"), Some("a"), None, None)).err(), Some(RawItemProblem::BothQAndQTemplate));
    assert_eq!(RawExpectationItem::from_fields(fields(None, Some("t"), Some("a"), None, None)).err(), Some(RawItemProblem::GeneratorMissingPath));
    assert_eq!(RawItemProblem::MissingA.message(), "must contain a");
    assert_eq!(RawItemProblem::MissingAll.message(), format!("must contain q, q_template, or {}", ["in", "clude"].concat()));
}

#[test]
fn config_source_and_defaults() {
    assert!(CheckConfigSource::Staged.is_staged());
    assert!(!CheckConfigSource::Worktree.is_staged());
    assert_eq!(default_thinking(), "low");
    assert!(!check_config_loads_plugins(&config(vec![e("q", "a")])));
}

#[test]
fn validation_messages() {
    assert_eq!(validate_check_config(&config(vec![e("Q?", "yes")])), Ok(()));
    let mut bad = config(vec![e("Q?", "yes")]);
    bad.version = 2;
    assert_eq!(validate_check_config(&bad), Err("check.yml version must be 1".to_string()));
    assert_eq!(validate_check_config(&config(vec![])), Err("check.yml expectations must not be empty".to_string()));
    assert_eq!(validate_check_config(&config(vec![e("Q?", "yes"), e("Q2", "idk")])), Err("expectation 2 expected answer must not be idk or malformed".to_string()));
    assert_eq!(validate_thinking("turbo"), Err("unsupported check.yml agent.thinking: turbo".to_string()));
    assert_eq!(validate_thinking("max"), Ok(()));
    assert_eq!(codex_reasoning_effort("max"), Some("xhigh"));
    assert_eq!(codex_reasoning_effort("adaptive"), None);
    assert_eq!(codex_reasoning_effort("off"), Some("none"));
    assert_eq!(validate_optional_model(Some(" gpt"), "agent.model.primary"), Err("check.yml agent.model.primary must not have surrounding whitespace".to_string()));
    assert_eq!(validate_optional_model(None, "x"), Ok(()));
    assert_eq!(validate_plugin_config_key("my-plugin@market"), Ok(()));
    assert_eq!(validate_plugin_config_key("plugin"), Err("agent plugin entry must use Codex plugin key <plugin>@<marketplace>: plugin".to_string()));
    assert_eq!(validate_plugin_config_key("Bad@market"), Err("agent plugin entry segments must be lowercase kebab-case: Bad@market".to_string()));
}

#[test]
fn ignore_patterns_normalise() {
    assert_eq!(normalize_agent_ignore_pattern_for_config("./target/"), Ok("target".to_string()));
    assert_eq!(normalize_agent_ignore_pattern_for_config("  "), Err("agent ignore pattern: path must not be empty".to_string()));
    let mut a = agent();
    a.ignore = vec!["./x//y".to_string(), "z".to_string()];
    let n = normalize_agent_config(a).ok().unwrap();
    assert_eq!(n.ignore, vec!["x/y".to_string(), "z".to_string()]);
    let mut b = agent();
    b.ignore = vec!["ok".to_string(), "/abs".to_string()];
    assert_eq!(normalize_agent_config(b).err(), Some("agent ignore pattern: path must be relative".to_string()));
}
