use canon::config::{AgentConfig, ModelConfig};
use canon::permissions::{
    allow_scope_ancestor_directories, app_server_args, deny_evaluator_project_paths,
    evaluator_deny_permission_patterns, evaluator_disabled_app_server_features,
    evaluator_model_catalog_slugs, evaluator_startup_root_permissions,
    evaluator_thread_root_permissions, perm_insert, push_config_arg,
    push_evaluator_context_isolation_args, push_unique_model_slug, push_unique_permission_pattern,
    str_lt, thread_reuse_carryover_token_target_arg, ThreadReuseConfig,
};
use canon::protocol::CarryoverTokenTarget;

fn s(v: &[&str]) -> Vec<String> {
    v.iter().map(|x| x.to_string()).collect()
}

fn pairs(v: &[(&str, &str)]) -> Vec<(String, String)> {
    v.iter().map(|(a, b)| (a.to_string(), b.to_string())).collect()
}

#[test]
fn string_order_matches_std() {
    for (a, b) in [("a", "b"), ("a", "ab"), ("", "a"), ("b", "a"), ("a", "a"), ("Z", "a"), ("é", "z")] {
        assert_eq!(str_lt(a, b), a < b, "{} < {}", a, b);
    }
}

#[test]
fn permission_map_stays_sorted() {
    let mut m = Vec::new();
    perm_insert(&mut m, "src".to_string(), "read".to_string());
    perm_insert(&mut m, ".".to_string(), "none".to_string());
    perm_insert(&mut m, "docs".to_string(), "read".to_string());
    perm_insert(&mut m, "src".to_string(), "none".to_string());
    assert_eq!(m, pairs(&[(".", "none"), ("docs", "read"), ("src", "none")]));
}

#[test]
fn ancestors_are_allowed_once() {
    let mut m = pairs(&[("a", "none")]);
    allow_scope_ancestor_directories(&mut m, "a/b/c.rs");
    assert_eq!(m, pairs(&[("a", "none"), ("a/b", "read")]));
}

#[test]
fn deny_patterns_include_recursive_directories() {
    let p = evaluator_deny_permission_patterns(&s(&["target/**", "./target", ".git/canon/logs"]));
    assert_eq!(p, s(&["target", "target/**", ".git/canon/logs"]));
    let mut v = s(&["a"]);
    push_unique_permission_pattern(&mut v, "a".to_string());
    push_unique_permission_pattern(&mut v, "b".to_string());
    assert_eq!(v, s(&["a", "b"]));
}

#[test]
fn deny_overrides_reads() {
    let mut m = pairs(&[("src", "read"), ("x", "read")]);
    deny_evaluator_project_paths(&mut m, &s(&["src"]));
    assert_eq!(m, pairs(&[("src", "none"), ("x", "read")]));
    assert_eq!(evaluator_startup_root_permissions(&s(&["t"])), pairs(&[(".", "none"), ("t", "none")]));
}

#[test]
fn thread_permissions_for_full_and_narrow_scopes() {
    assert_eq!(
        evaluator_thread_root_permissions(&s(&[".git/canon/logs"]), &s(&["."])),
        pairs(&[(".", "read"), (".git/canon/logs", "none")])
    );
    assert_eq!(
        evaluator_thread_root_permissions(&s(&[".git/canon/logs", "src/lib/secret"]), &s(&["src/lib"])),
        pairs(&[
            (".", "none"),
            (".git/canon/logs", "none"),
            ("src", "read"),
            ("src/lib", "read"),
            ("src/lib/**", "read"),
            ("src/lib/secret", "none"),
        ])
    );
}

#[test]
fn app_server_arguments() {
    let f = evaluator_disabled_app_server_features(false);
    assert_eq!(f.len(), 23);
    assert_eq!(f[0], "plugins");
    assert_eq!(f[22], "apply_patch_freeform");
    assert_eq!(evaluator_disabled_app_server_features(true).len(), 22);
    let args = app_server_args(true, &s(&["-c", "x=1"]));
    assert_eq!(args[0], "app-server");
    assert_eq!(args[1], "--disable");
    assert_eq!(args[2], "apps");
    assert_eq!(args.len(), 1 + 44 + 2 + 2);
    assert_eq!(&args[args.len() - 4..], &s(&["-c", "x=1", "--listen", "stdio://"])[..]);
}

#[test]
fn config_arguments() {
    let mut a = Vec::new();
    push_config_arg(&mut a, "k=v");
    assert_eq!(a, s(&["-c", "k=v"]));
    let mut iso = Vec::new();
    push_evaluator_context_isolation_args(&mut iso);
    assert_eq!(iso.len(), 56);
    assert_eq!(iso[1], "include_environment_context=false");
    assert_eq!(iso[11], "features.apps=false");
    assert_eq!(iso[55], "project_doc_max_bytes=0");
    let t = ThreadReuseConfig { carryover_token_target: CarryoverTokenTarget { min: 1000, max: 5000 } };
    assert_eq!(thread_reuse_carryover_token_target_arg(&t), "thread_reuse.carryover_token_target=[1000,5000]");
}

#[test]
fn model_catalog_slugs_are_unique() {
    let agent = AgentConfig {
        model: ModelConfig { primary: Some("a".to_string()), fallbacks: s(&["b", "a", "b", "c"]) },
        thinking: "low".to_string(),
        instructions: "i".to_string(),
        ignore: Vec::new(),
        plugins: Vec::new(),
    };
    assert_eq!(evaluator_model_catalog_slugs(&agent), s(&["a", "b", "c"]));
    let mut m = s(&["x"]);
    push_unique_model_slug(&mut m, "x");
    assert_eq!(m, s(&["x"]));
}
