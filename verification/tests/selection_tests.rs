use canon::answer::{Cooldown, SelectedExpectation};
use canon::config::{AgentConfig, CheckConfig, Expectation, ModelConfig};
use canon::finalsel::{
    cached_failure_for_expectation, cooldown_removes, final_selected_after_current_pass_cache,
    final_selected_expectations, initial_non_selected_expectations,
    initial_non_selected_expectations_with_identities, latest_history_non_pass_timestamp,
    latest_of, order_expectations_by_latest_non_pass, CheckCacheHit,
};
use canon::hash::expectation_id;
use canon::options::{
    normalize_check_config_path, normalize_query_scope_path, parse_check_options_with_identities,
    set_check_config_path,
};
use canon::selection::{
    expectation_identities, matching_expectation_indexes, minimal_unique_expectation_prefix,
    select_expectations_with_identities,
};
use canon::answer::{CheckRecord, CheckResult};

fn expectation(q: &str, a: &str, cooldown: Option<&str>) -> Expectation {
    Expectation { q: q.to_string(), a: a.to_string(), cooldown: cooldown.map(|c| c.to_string()), thinking: None }
}

fn config(exps: Vec<Expectation>) -> CheckConfig {
    CheckConfig {
        version: 1,
        agent: AgentConfig {
            model: ModelConfig { primary: None, fallbacks: Vec::new() },
            thinking: "low".to_string(),
            instructions: "be careful".to_string(),
            ignore: Vec::new(),
            plugins: Vec::new(),
        },
        expectations: exps,
    }
}

fn args(v: &[&str]) -> Vec<Option<String>> {
    v.iter().map(|x| Some(x.to_string())).collect()
}

fn sel(n: usize) -> SelectedExpectation {
    SelectedExpectation {
        number: n,
        id: format!("id{}", n),
        display_id: format!("d{}", n),
        q: "q".to_string(),
        a: "yes".to_string(),
        cooldown: None,
        thinking: None,
    }
}

fn record(result: CheckResult) -> CheckRecord {
    CheckRecord {
        timestamp: "t".to_string(),
        number: 1,
        result,
        prompt: Some("q".to_string()),
        expected: Some("yes".to_string()),
        observed: "yes".to_string(),
        evidence: "e".to_string(),
        scope: vec![".".to_string()],
        scope_hash: "h".to_string(),
        id: "id".to_string(),
        display_id: "d".to_string(),
        cache_key: None,
    }
}

#[test]
fn expectation_ids_are_twenty_char_hashes() {
    assert_eq!(expectation_id("Is it?", "yes"), "SczUr0Tf2TLr9zAscwUj");
    assert_eq!(expectation_id("What?", "b"), "gk5eK66BCpZsMJQH9x9P");
    assert_eq!(expectation_id("Q1", "A1").len(), 20);
}

#[test]
fn identities_use_shortest_unique_prefix() {
    let c = config(vec![expectation("Q1", "A1", None), expectation("Q2", "A2", None)]);
    let ids = expectation_identities(&c).unwrap();
    assert_eq!(ids[0].id, "nAQn3cdwjwlEBWCqN-a6");
    assert_eq!(ids[0].display_id, "n");
    assert_eq!(ids[1].id, "hTFuWYY9pWdjki3YRkBr");
    assert_eq!(ids[1].display_id, "h");
}

#[test]
fn duplicate_expectations_are_refused() {
    let c = config(vec![expectation("Q1", "A1", None), expectation("Q1", "A1", None)]);
    assert_eq!(expectation_identities(&c).err(), Some("duplicate expectation ID: nAQn3cdwjwlEBWCqN-a6".to_string()));
}

#[test]
fn prefix_search() {
    let ids = vec!["abc".to_string(), "abd".to_string(), "x".to_string()];
    assert_eq!(minimal_unique_expectation_prefix("abc", &ids), Some("abc".to_string()));
    assert_eq!(minimal_unique_expectation_prefix("x", &ids), Some("x".to_string()));
    let c = config(vec![expectation("Q1", "A1", None), expectation("Q2", "A2", None)]);
    let idents = expectation_identities(&c).unwrap();
    assert_eq!(matching_expectation_indexes(&idents, "h"), vec![1]);
    assert_eq!(matching_expectation_indexes(&idents, "zz"), Vec::<usize>::new());
}

#[test]
fn selectors_choose_in_given_order() {
    let c = config(vec![expectation("Q1", "A1", None), expectation("Q2", "A2", Some("2h"))]);
    let idents = expectation_identities(&c).unwrap();
    let chosen = select_expectations_with_identities(&c, &idents, &args(&["hT", "n"])).unwrap();
    assert_eq!(chosen.len(), 2);
    assert_eq!(chosen[0].number, 2);
    assert_eq!(chosen[0].cooldown, Some(Cooldown { seconds: 7200 }));
    assert_eq!(chosen[1].number, 1);
    let all = select_expectations_with_identities(&c, &idents, &Vec::new()).unwrap();
    assert_eq!(all.len(), 2);
}

#[test]
fn selector_errors() {
    let c = config(vec![expectation("Q1", "A1", None), expectation("Q2", "A2", None)]);
    let idents = expectation_identities(&c).unwrap();
    assert_eq!(select_expectations_with_identities(&c, &idents, &args(&["zz"])).err(), Some("unknown expectation selector: zz".to_string()));
    assert_eq!(select_expectations_with_identities(&c, &idents, &args(&[""])).err(), Some("expectation selector must not be empty".to_string()));
    assert_eq!(select_expectations_with_identities(&c, &idents, &args(&["n", "nA"])).err(), Some("duplicate expectation selector: nA".to_string()));
    assert_eq!(select_expectations_with_identities(&c, &idents, &vec![None]).err(), Some("expectation selector must be valid UTF-8".to_string()));
}

#[test]
fn non_selected_are_the_rest_without_cooldown() {
    let c = config(vec![expectation("Q1", "A1", Some("1d")), expectation("Q2", "A2", None)]);
    let idents = expectation_identities(&c).unwrap();
    let chosen = select_expectations_with_identities(&c, &idents, &args(&["h"])).unwrap();
    let rest = initial_non_selected_expectations_with_identities(&c, &idents, &chosen).unwrap();
    assert_eq!(rest.len(), 1);
    assert_eq!(rest[0].number, 1);
    assert_eq!(rest[0].cooldown, None);
    let again = initial_non_selected_expectations(&c, &chosen).unwrap();
    assert_eq!(again.len(), 1);
}

#[test]
fn options_parse_flags_limit_and_selectors() {
    let c = config(vec![expectation("Q1", "A1", None), expectation("Q2", "A2", None)]);
    let idents = expectation_identities(&c).unwrap();
    let o = parse_check_options_with_identities(&c, &idents, &args(&["--all", "--break-after-tokens", "500", "n"])).unwrap();
    assert!(o.check_all);
    assert!(!o.ignore_cache);
    assert_eq!(o.break_after_tokens, Some(500));
    assert_eq!(o.selected.len(), 1);
    assert_eq!(o.non_selected.len(), 1);
    assert_eq!(o.skipped, 1);
    let p = parse_check_options_with_identities(&c, &idents, &args(&["--ignore-cache", "--ignore-cooldown", "--break-after-tokens=7"])).unwrap();
    assert!(p.ignore_cache && p.ignore_cooldown);
    assert_eq!(p.break_after_tokens, Some(7));
    assert_eq!(p.selected.len(), 2);
    assert_eq!(p.skipped, 0);
}

#[test]
fn options_errors() {
    let c = config(vec![expectation("Q1", "A1", None)]);
    let idents = expectation_identities(&c).unwrap();
    let err = |a: &[&str]| parse_check_options_with_identities(&c, &idents, &args(a)).err();
    assert_eq!(err(&["--all", "--all"]), Some("duplicate --all".to_string()));
    assert_eq!(err(&["--ignore-cache", "--ignore-cache"]), Some("duplicate --ignore-cache".to_string()));
    assert_eq!(err(&["--break-after-tokens"]), Some("--break-after-tokens requires a token limit".to_string()));
    assert_eq!(err(&["--break-after-tokens=0"]), Some("--break-after-tokens must be greater than zero".to_string()));
    assert_eq!(err(&["--break-after-tokens=x"]), Some("--break-after-tokens must be a positive integer".to_string()));
    assert_eq!(err(&["--break-after-tokens=1", "--break-after-tokens", "2"]), Some("duplicate --break-after-tokens".to_string()));
    assert_eq!(err(&["--", "--all"]), Some("unknown expectation selector: --all".to_string()));
}

#[test]
fn config_and_scope_paths() {
    assert_eq!(normalize_check_config_path("./a//check.yml"), Ok("a/check.yml".to_string()));
    assert_eq!(normalize_check_config_path("."), Err("--config path must name a file".to_string()));
    assert_eq!(normalize_check_config_path("/abs"), Err("--config path: path must be relative".to_string()));
    assert_eq!(normalize_query_scope_path("--scope", "../x"), Err("--scope path: path must not contain parent directory segments".to_string()));
    let mut path = None;
    assert_eq!(set_check_config_path(&mut path, "c.yml"), Ok(()));
    assert_eq!(path, Some("c.yml".to_string()));
    assert_eq!(set_check_config_path(&mut path, "d.yml"), Err("duplicate --config".to_string()));
}

#[test]
fn cooldown_keys_off_latest_timestamped_record() {
    let c = Some(Cooldown { seconds: 100 });
    assert!(cooldown_removes(&vec![(true, Some(1000))], 1050, c));
    assert!(!cooldown_removes(&vec![(true, Some(1000))], 1100, c));
    assert!(!cooldown_removes(&vec![(true, Some(1000)), (false, Some(1040))], 1050, c));
    assert!(cooldown_removes(&vec![(true, Some(1000)), (false, None)], 1050, c));
    assert!(!cooldown_removes(&vec![(true, Some(1000))], 1050, None));
    assert!(!cooldown_removes(&Vec::new(), 1050, c));
}

#[test]
fn cooldown_filter_splits_candidates() {
    let r = final_selected_expectations(vec![sel(1), sel(2), sel(3)], vec![Ok(false), Ok(true), Ok(false)]);
    let f = r.ok().unwrap();
    let kept: Vec<usize> = f.selected.iter().map(|e| e.number).collect();
    let gone: Vec<usize> = f.skipped.iter().map(|e| e.number).collect();
    assert_eq!(kept, vec![1, 3]);
    assert_eq!(gone, vec![2]);
    let e = final_selected_expectations(vec![sel(1), sel(2), sel(3)], vec![Ok(true), Err("bad history".to_string()), Ok(true)]);
    let err = e.err().unwrap();
    assert_eq!(err.error, "bad history");
    assert_eq!(err.skipped.len(), 1);
}

#[test]
fn cache_hits_split_passes_from_the_rest() {
    let hits = vec![Some(CheckCacheHit { record: record(CheckResult::Pass) }), None, Some(CheckCacheHit { record: record(CheckResult::Fail) })];
    let f = final_selected_after_current_pass_cache(vec![sel(1), sel(2), sel(3)], hits);
    let kept: Vec<usize> = f.selected.iter().map(|e| e.number).collect();
    assert_eq!(kept, vec![2, 3]);
    assert_eq!(f.skipped_passes.len(), 1);
    assert_eq!(f.skipped_passes[0].0.number, 1);
    assert!(cached_failure_for_expectation(Some(CheckCacheHit { record: record(CheckResult::Pass) })).is_none());
    assert!(cached_failure_for_expectation(Some(CheckCacheHit { record: record(CheckResult::Fail) })).is_some());
}

#[test]
fn latest_non_pass_times() {
    assert_eq!(latest_history_non_pass_timestamp(&vec![(false, Some(5)), (true, Some(9)), (false, Some(7)), (false, None)]), Some(7));
    assert_eq!(latest_history_non_pass_timestamp(&vec![(true, Some(5))]), None);
    assert_eq!(latest_of(Some(3), Some(8)), Some(8));
    assert_eq!(latest_of(None, Some(8)), Some(8));
    assert_eq!(latest_of(None, None), None);
}

#[test]
fn recent_failures_run_first() {
    let ordered = order_expectations_by_latest_non_pass(
        vec![sel(1), sel(2), sel(3), sel(4), sel(5)],
        &vec![None, Some(10), Some(30), None, Some(10)],
    );
    let numbers: Vec<usize> = ordered.iter().map(|e| e.number).collect();
    assert_eq!(numbers, vec![3, 2, 5, 1, 4]);
}

#[test]
fn selected_and_non_selected_cover_every_expectation_once() {
    let c = config(vec![
        expectation("Q1", "yes", None),
        expectation("Q2", "no", None),
        expectation("Q3", "yes", None),
        expectation("Q4", "a", None),
    ]);
    let idents = expectation_identities(&c).unwrap();
    let third = expectation_id("Q3", "yes");
    let first = expectation_id("Q1", "yes");
    let o = parse_check_options_with_identities(&c, &idents, &args(&[&third[..8], &first[..8]])).unwrap();
    let mut numbers: Vec<usize> = o.selected.iter().chain(o.non_selected.iter()).map(|e| e.number).collect();
    assert_eq!(o.selected.iter().map(|e| e.number).collect::<Vec<_>>(), vec![3, 1]);
    numbers.sort();
    assert_eq!(numbers, vec![1, 2, 3, 4]);
    let mut ids: Vec<String> = o.selected.iter().chain(o.non_selected.iter()).map(|e| e.id.clone()).collect();
    ids.sort();
    ids.dedup();
    assert_eq!(ids.len(), 4);
}

#[test]
fn run_order_puts_newest_non_pass_first_and_keeps_ties() {
    let ordered = order_expectations_by_latest_non_pass(
        vec![sel(1), sel(2), sel(3), sel(4), sel(5)],
        &vec![None, Some(5), Some(9), None, Some(5)],
    );
    assert_eq!(ordered.iter().map(|e| e.number).collect::<Vec<_>>(), vec![3, 2, 5, 1, 4]);
}
