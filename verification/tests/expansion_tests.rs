use canon::catfile::parse_git_blob_batch;
use canon::config::{
    AgentConfig, ModelConfig, RawExplicitExpectation, RawExpectationItem, RawGeneratorExpectation,
    RawIncludedExpectation,
};
use canon::expansion::{
    expand_raw_check_config, parse_check_config_content_with_root_and_source, ContentAnswer,
    ExpansionNeed, ExpansionStop, ExpansionWorld, ItemsAnswer, PathsAnswer, RawCheckConfig,
};
use canon::permissions::ThreadReuseConfig;
use canon::protocol::CarryoverTokenTarget;
use canon::startup::{
    app_server_startup_config_args, app_server_startup_filesystem_arg, deny_runtime_tree,
    evaluator_model_catalog_config_arg, evaluator_runtime_permissions, toml_assignment, toml_string,
};

fn s(v: &[&str]) -> Vec<String> {
    v.iter().map(|x| x.to_string()).collect()
}

fn agent() -> AgentConfig {
    AgentConfig {
        model: ModelConfig { primary: None, fallbacks: Vec::new() },
        thinking: "low".to_string(),
        instructions: "Check things.".to_string(),
        ignore: Vec::new(),
        plugins: Vec::new(),
    }
}

fn explicit(q: &str, a: &str) -> RawExpectationItem {
    RawExpectationItem::Explicit(RawExplicitExpectation { q: q.to_string(), a: a.to_string(), cooldown: None, thinking: None })
}

fn generator(t: &str, path: &str) -> RawExpectationItem {
    RawExpectationItem::Generator(RawGeneratorExpectation {
        q_template: t.to_string(),
        path: path.to_string(),
        a: "yes".to_string(),
        cooldown: None,
        thinking: None,
    })
}

fn included(path: &str) -> RawExpectationItem {
    RawExpectationItem::Included(RawIncludedExpectation { included: path.to_string() })
}

fn raw(items: Vec<RawExpectationItem>) -> RawCheckConfig {
    RawCheckConfig { version: 1, agent: agent(), expectations: items }
}

fn world() -> ExpansionWorld {
    ExpansionWorld { has_root: true, paths: Vec::new(), contents: Vec::new(), items: Vec::new() }
}

fn paths(cfg: &str, pattern: &str, files: &[&str]) -> PathsAnswer {
    PathsAnswer { config_path: cfg.to_string(), pattern: pattern.to_string(), files: Ok(s(files)) }
}

fn content(file: &str, text: &str) -> ContentAnswer {
    ContentAnswer { file: file.to_string(), content: Ok(text.to_string()) }
}

fn failed(r: Result<canon::config::CheckConfig, ExpansionStop>) -> String {
    match r {
        Err(ExpansionStop::Failed(m)) => m,
        _ => panic!("expected a failure"),
    }
}

#[test]
fn explicit_items_expand_in_order() {
    let c = expand_raw_check_config(&world(), "check.yml", raw(vec![explicit("Q1", "A1"), explicit("Q2", "A2")])).ok().unwrap();
    assert_eq!(c.expectations.len(), 2);
    assert_eq!(c.expectations[1].q, "Q2");
    assert_eq!(c.version, 1);
}

#[test]
fn generator_needs_paths_then_contents() {
    let mut w = world();
    let items = || raw(vec![generator("Is {content} ok?", "specs/*.md")]);
    match expand_raw_check_config(&w, ".canon/check.yml", items()) {
        Err(ExpansionStop::Needs(ExpansionNeed::Paths { config_path, pattern })) => {
            assert_eq!(config_path, ".canon/check.yml");
            assert_eq!(pattern, "specs/*.md");
        }
        _ => panic!("expected a paths request"),
    }
    w.paths.push(paths(".canon/check.yml", "specs/*.md", &["specs/a.md", "specs/b.md"]));
    match expand_raw_check_config(&w, ".canon/check.yml", items()) {
        Err(ExpansionStop::Needs(ExpansionNeed::Content { file })) => assert_eq!(file, "specs/a.md"),
        _ => panic!("expected a content request"),
    }
    w.contents.push(content("specs/a.md", "A"));
    w.contents.push(content("specs/b.md", "B"));
    let c = expand_raw_check_config(&w, ".canon/check.yml", items()).ok().unwrap();
    assert_eq!(c.expectations.len(), 2);
    assert_eq!(c.expectations[0].q, "Is A ok?");
    assert_eq!(c.expectations[1].q, "Is B ok?");
    assert_eq!(c.expectations[1].a, "yes");
}

#[test]
fn a_file_expands_once() {
    let mut w = world();
    w.paths.push(paths("check.yml", "a.md", &["a.md"]));
    w.contents.push(content("a.md", "A"));
    let r = expand_raw_check_config(&w, "check.yml", raw(vec![generator("{content}", "a.md"), generator("{content}", "a.md")]));
    assert_eq!(failed(r), "expectation 2 expands duplicate spec path: a.md");
}

#[test]
fn generators_need_a_root() {
    let mut w = world();
    w.has_root = false;
    let r = expand_raw_check_config(&w, "check.yml", raw(vec![explicit("Q", "A"), generator("{content}", "a.md")]));
    assert_eq!(failed(r), "expectation 2 uses path but config expansion has no project root");
}

#[test]
fn included_files_expand_their_items() {
    let mut w = world();
    w.paths.push(paths("check.yml", "more.yml", &["more.yml"]));
    w.contents.push(content("more.yml", "items"));
    w.items.push(ItemsAnswer { file: "more.yml".to_string(), items: Ok(vec![explicit("Q2", "A2")]) });
    let c = expand_raw_check_config(&w, "check.yml", raw(vec![explicit("Q1", "A1"), included("more.yml")])).ok().unwrap();
    assert_eq!(c.expectations.len(), 2);
    assert_eq!(c.expectations[1].q, "Q2");
}

#[test]
fn recursive_inclusion_is_refused() {
    let mut w = world();
    w.paths.push(paths("check.yml", "loop.yml", &["loop.yml"]));
    w.paths.push(paths("loop.yml", "loop.yml", &["loop.yml"]));
    w.contents.push(content("loop.yml", "items"));
    w.items.push(ItemsAnswer { file: "loop.yml".to_string(), items: Ok(vec![included("loop.yml")]) });
    let r = expand_raw_check_config(&w, "check.yml", raw(vec![included("loop.yml")]));
    let mut expected = "recursive expectation ".to_string();
    expected.push_str(&["inc", "lude"].concat());
    expected.push_str(": loop.yml");
    assert_eq!(failed(r), expected);
}

#[test]
fn answer_errors_pass_through() {
    let mut w = world();
    w.paths.push(PathsAnswer { config_path: "check.yml".to_string(), pattern: "x".to_string(), files: Err("bad pattern".to_string()) });
    let r = expand_raw_check_config(&w, "check.yml", raw(vec![generator("{content}", "x")]));
    assert_eq!(failed(r), "bad pattern");
}

#[test]
fn loading_checks_the_expanded_config() {
    let w = world();
    let r = parse_check_config_content_with_root_and_source(&w, "check.yml", Ok(raw(Vec::new())));
    assert_eq!(failed(r), "check.yml expectations must not be empty");
    let r = parse_check_config_content_with_root_and_source(&w, "check.yml", Err("failed to parse check.yml: x".to_string()));
    assert_eq!(failed(r), "failed to parse check.yml: x");
    let ok = parse_check_config_content_with_root_and_source(&w, "check.yml", Ok(raw(vec![explicit("Q", "A")])));
    assert!(ok.is_ok());
}

#[test]
fn blob_batch_parses_each_object() {
    let out = b"abc blob 3\nxyz\ndef blob 0\n\n";
    let blobs = parse_git_blob_batch(out, &s(&["abc", "def"])).unwrap();
    assert_eq!(blobs, vec![b"xyz".to_vec(), Vec::new()]);
    let plus = b"abc blob +2\nhi\n";
    assert_eq!(parse_git_blob_batch(plus, &s(&["abc"])).unwrap(), vec![b"hi".to_vec()]);
}

#[test]
fn blob_batch_errors() {
    let ids = s(&["abc"]);
    assert_eq!(parse_git_blob_batch(b"", &ids).unwrap_err(), "git cat-file output missing header for abc");
    assert_eq!(parse_git_blob_batch(b"abc missing\n", &ids).unwrap_err(), "staged blob abc is missing");
    assert_eq!(parse_git_blob_batch(b"abc tree 3\nxyz\n", &ids).unwrap_err(), "staged object abc is tree, not blob");
    assert_eq!(parse_git_blob_batch(b"abc blob\n", &ids).unwrap_err(), "git cat-file header missing size for abc");
    assert_eq!(parse_git_blob_batch(b"abc blob x\n", &ids).unwrap_err(), "git cat-file header has invalid size for abc");
    assert_eq!(parse_git_blob_batch(b"abc blob 5\nxy\n", &ids).unwrap_err(), "git cat-file output truncated for abc");
    assert_eq!(parse_git_blob_batch(b"abc blob 2\nxyz", &ids).unwrap_err(), "git cat-file output missing object delimiter for abc");
    assert_eq!(parse_git_blob_batch(b"abc blob 1\nx\nmore", &ids).unwrap_err(), "git cat-file output has trailing data");
    assert_eq!(parse_git_blob_batch(b"\xff\n", &ids).unwrap_err(), "git cat-file header must be valid UTF-8");
    assert_eq!(parse_git_blob_batch(b"  \n", &ids).unwrap_err(), "git cat-file header missing object id");
    assert_eq!(parse_git_blob_batch(b"abc\n", &ids).unwrap_err(), "git cat-file header missing type for abc");
}

#[test]
fn toml_strings_escape_controls() {
    assert_eq!(toml_string("read"), "\"read\"");
    assert_eq!(toml_string("a\"b\\c"), "\"a\\\"b\\\\c\"");
    assert_eq!(toml_string("\u{1b}\u{7f}\u{9f}"), "\"\\u001b\\u007F\\u009F\"");
    assert_eq!(toml_assignment(":root", "\"read\""), "\":root\"=\"read\"");
}

#[test]
fn runtime_permissions_deny_codex_trees() {
    let p = evaluator_runtime_permissions(Some("/home/me/"));
    assert_eq!(p.len(), 15);
    assert_eq!(p[0], ("/bin/**".to_string(), "read".to_string()));
    assert_eq!(p[7], ("~/.codex/sessions".to_string(), "none".to_string()));
    assert_eq!(p[12], ("/home/me/.codex/sessions/**".to_string(), "none".to_string()));
    assert_eq!(evaluator_runtime_permissions(None).len(), 11);
    let mut v = Vec::new();
    deny_runtime_tree(&mut v, "x");
    assert_eq!(v, vec![("x".to_string(), "none".to_string()), ("x/**".to_string(), "none".to_string())]);
}

#[test]
fn startup_filesystem_table() {
    let arg = app_server_startup_filesystem_arg(&s(&["target"]), None);
    assert!(arg.starts_with("permissions.canon_check.filesystem={\":root\"=\"read\",\":project_roots\"={\".\"=\"none\",\"target\"=\"none\"},\"/bin/**\"=\"read\","));
    assert!(arg.ends_with(",\"glob_scan_max_depth\"=32}"));
}

#[test]
fn startup_config_arguments() {
    let cfg = ThreadReuseConfig { carryover_token_target: CarryoverTokenTarget { min: 10, max: 20 } };
    let mut a = agent();
    a.thinking = "max".to_string();
    let args = app_server_startup_config_args(&a, &Vec::new(), None, Some("/tmp/c.json"), &cfg);
    assert_eq!(args[0], "-c");
    assert_eq!(args[1], "default_permissions=\"canon_check\"");
    assert_eq!(args[3], "history.persistence=\"none\"");
    assert_eq!(args[5], "model_reasoning_effort=\"xhigh\"");
    assert_eq!(args[7], "model_catalog_json=\"/tmp/c.json\"");
    assert_eq!(args[9], "permissions.canon_check.network.enabled=false");
    assert_eq!(args[args.len() - 1], "thread_reuse.carryover_token_target=[10,20]");
    assert_eq!(evaluator_model_catalog_config_arg("p"), "model_catalog_json=\"p\"");
}
