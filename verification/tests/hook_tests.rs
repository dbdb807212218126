use canon::cleanup::{active_expectation_ids, stale_cache_entries};
use canon::config::{AgentConfig, CheckConfig, Expectation, ModelConfig};
use canon::hash::expectation_id;
use canon::reuse::{crossed_size_compaction_bucket, size_compaction_bucket};
use canon::hooks::{
    hook_command, hook_install_plan, hooks_path_step_message, init_refusal, pre_commit_hook_is_reusable,
    preflight_git_hooks_path_state, preflight_pre_commit_hook_content, HookInstallPlan, HookInstallState,
    HooksPathStep,
};

const HOOK: &str = "#!/bin/sh\nexec canon gate\n";

fn state(hook: Option<&str>, path: Option<&str>, worktree: bool) -> HookInstallState {
    HookInstallState {
        pre_commit_hook: hook.map(str::to_string),
        current_git_hooks_path: path.map(str::to_string),
        is_git_worktree: worktree,
    }
}

#[test]
fn hook_command_accepts_only_install() {
    assert!(hook_command(&vec!["install".to_string()]).is_ok());
    assert_eq!(hook_command(&vec![]).unwrap_err(), "usage: canon hook install");
    assert_eq!(
        hook_command(&vec!["install".to_string(), "x".to_string()]).unwrap_err(),
        "usage: canon hook install"
    );
    assert_eq!(hook_command(&vec!["remove".to_string()]).unwrap_err(), "unknown hook command: remove");
}

#[test]
fn hook_preflights() {
    assert!(pre_commit_hook_is_reusable(HOOK, HOOK));
    assert!(!pre_commit_hook_is_reusable("#!/bin/sh\n", HOOK));
    assert!(preflight_pre_commit_hook_content(None, HOOK, ".githooks/pre-commit").is_ok());
    assert!(preflight_pre_commit_hook_content(Some(HOOK), HOOK, ".githooks/pre-commit").is_ok());
    assert_eq!(
        preflight_pre_commit_hook_content(Some("other"), HOOK, ".githooks/pre-commit").unwrap_err(),
        ".githooks/pre-commit already exists with different content"
    );
    assert!(preflight_git_hooks_path_state(&state(None, Some(".githooks"), true), ".githooks").is_ok());
    assert_eq!(
        preflight_git_hooks_path_state(&state(None, Some("hooks"), true), ".githooks").unwrap_err(),
        "git core.hooksPath is already set to hooks; set it to .githooks manually if desired"
    );
}

#[test]
fn hook_install_plans() {
    let fresh = hook_install_plan(&state(None, None, true), HOOK, ".githooks/pre-commit", ".githooks").unwrap();
    assert_eq!(fresh, HookInstallPlan { write_hook: true, hooks_path: HooksPathStep::Configure });
    let done = hook_install_plan(&state(Some(HOOK), Some(".githooks"), true), HOOK, ".githooks/pre-commit", ".githooks").unwrap();
    assert_eq!(done, HookInstallPlan { write_hook: false, hooks_path: HooksPathStep::AlreadySet });
    let outside = hook_install_plan(&state(None, None, false), HOOK, ".githooks/pre-commit", ".githooks").unwrap();
    assert_eq!(outside.hooks_path, HooksPathStep::NotWorktree);
    assert!(hook_install_plan(&state(Some("x"), None, true), HOOK, ".githooks/pre-commit", ".githooks").is_err());
    assert_eq!(
        hooks_path_step_message(HooksPathStep::NotWorktree, ".githooks/pre-commit", ".githooks"),
        "Git worktree not detected; .githooks/pre-commit was created but core.hooksPath was not set."
    );
    assert_eq!(
        hooks_path_step_message(HooksPathStep::Configure, "p", ".githooks"),
        "Configured git core.hooksPath = .githooks"
    );
    assert_eq!(hooks_path_step_message(HooksPathStep::AlreadySet, "p", "h"), "Git core.hooksPath already = h");
}

#[test]
fn init_refuses_an_existing_configuration() {
    assert_eq!(init_refusal(true, ".canon/check.yml"), Some(".canon/check.yml already exists".to_string()));
    assert_eq!(init_refusal(false, ".canon/check.yml"), None);
}

#[test]
fn stale_cache_entries_are_those_of_no_expectation() {
    let config = CheckConfig {
        version: 1,
        agent: AgentConfig {
            model: ModelConfig { primary: None, fallbacks: Vec::new() },
            thinking: "low".to_string(),
            instructions: String::new(),
            ignore: Vec::new(),
            plugins: Vec::new(),
        },
        expectations: vec![
            Expectation { q: "Q1".to_string(), a: "yes".to_string(), cooldown: None, thinking: None },
            Expectation { q: "Q2".to_string(), a: "no".to_string(), cooldown: None, thinking: None },
        ],
    };
    let active = active_expectation_ids(&config);
    assert_eq!(active, vec![expectation_id("Q1", "yes"), expectation_id("Q2", "no")]);
    let names = vec![Some(active[1].clone()), Some("old".to_string()), None, Some(active[0].clone())];
    let (remove, stats) = stale_cache_entries(&names, &active);
    assert_eq!(remove, vec![false, true, true, false]);
    assert_eq!((stats.sampled, stats.removed, stats.kept), (true, 2, 2));
}

#[test]
fn size_buckets_double() {
    assert_eq!(size_compaction_bucket(0, 10), 0);
    assert_eq!(size_compaction_bucket(9, 10), 0);
    assert_eq!(size_compaction_bucket(10, 10), 1);
    assert_eq!(size_compaction_bucket(25, 10), 2);
    assert_eq!(size_compaction_bucket(40, 10), 3);
    assert_eq!(size_compaction_bucket(40, 0), 0);
    assert_eq!(size_compaction_bucket(u64::MAX, 1), 64);
    assert!(crossed_size_compaction_bucket(10, 25, 10));
    assert!(!crossed_size_compaction_bucket(20, 25, 10));
    assert!(!crossed_size_compaction_bucket(40, 10, 10));
}
