use canon::answer::SelectedExpectation;
use canon::lazyreset::{
    estimate_staged_project_size_tokens, estimate_text_tokens, estimate_word_tokens, lazy_full_scope_reset_candidates,
    lazy_full_scope_reset_count, plan_lazy_full_scope_reset, sample_reset_expectations,
    ResetRng, ScopedNonSelectedExpectation,
};

fn exp(n: usize) -> SelectedExpectation {
    SelectedExpectation {
        number: n,
        id: format!("id{}", n),
        display_id: format!("d{}", n),
        q: format!("q{}", n),
        a: "yes".to_string(),
        cooldown: None,
        thinking: None,
    }
}

#[test]
fn generator_follows_splitmix64() {
    let mut rng = ResetRng::new(0);
    assert_eq!(rng.next_u64(), 0xe220a8397b1dcdaf);
    assert_eq!(rng.next_u64(), 0x6e789e6aa1b965f4);
    let mut again = ResetRng::new(0);
    assert_eq!(again.next_u128(), (0xe220a8397b1dcdafu128 << 64) | 0x6e789e6aa1b965f4u128);
}

#[test]
fn bounded_draws_stay_below_bound() {
    let mut rng = ResetRng::new(42);
    for upper in [2u64, 3, 7, 1000] {
        for _ in 0..20 {
            assert!(rng.next_bounded(upper) < upper);
        }
    }
    assert_eq!(rng.next_bounded(1), 0);
    assert_eq!(rng.next_bounded(0), 0);
}

#[test]
fn word_tokens_round_up_quarters() {
    assert_eq!(estimate_word_tokens(0), 0);
    assert_eq!(estimate_word_tokens(1), 1);
    assert_eq!(estimate_word_tokens(4), 1);
    assert_eq!(estimate_word_tokens(5), 2);
}

#[test]
fn text_tokens_count_words_and_punctuation() {
    assert_eq!(estimate_text_tokens("hello world"), 4);
    assert_eq!(estimate_text_tokens("a.b"), 3);
    assert_eq!(estimate_text_tokens(""), 0);
    assert_eq!(estimate_text_tokens("snake_case_name"), 4);
}

#[test]
fn reset_count_is_ratio_capped_by_candidates() {
    assert_eq!(lazy_full_scope_reset_count(0, 10, 1, 5), 0);
    assert_eq!(lazy_full_scope_reset_count(10, 0, 1, 5), 0);
    assert_eq!(lazy_full_scope_reset_count(10, 10, 1, 0), 0);
    assert_eq!(lazy_full_scope_reset_count(40, 1, 7, 5), 2);
    assert_eq!(lazy_full_scope_reset_count(400, 1, 7, 5), 5);
    let fractional = lazy_full_scope_reset_count(30, 1, 7, 5);
    assert!(fractional == 1 || fractional == 2);
}

#[test]
fn sample_takes_distinct_candidates() {
    let candidates: Vec<SelectedExpectation> = (1..=6).map(exp).collect();
    let sample = sample_reset_expectations(&candidates, 3, 99);
    assert_eq!(sample.len(), 3);
    let mut numbers: Vec<usize> = sample.iter().map(|e| e.number).collect();
    numbers.sort();
    numbers.dedup();
    assert_eq!(numbers.len(), 3);
    assert!(numbers.iter().all(|n| (1..=6).contains(n)));
    assert_eq!(sample_reset_expectations(&candidates, 0, 99).len(), 0);
    assert_eq!(sample_reset_expectations(&candidates, 10, 99).len(), 6);
    let again = sample_reset_expectations(&candidates, 3, 99);
    let first: Vec<usize> = sample.iter().map(|e| e.number).collect();
    let second: Vec<usize> = again.iter().map(|e| e.number).collect();
    assert_eq!(first, second);
}

#[test]
fn candidates_are_those_with_narrowed_scope() {
    let scoped = vec![
        ScopedNonSelectedExpectation { expectation: exp(1), scope: vec![".".to_string()] },
        ScopedNonSelectedExpectation { expectation: exp(2), scope: vec!["src".to_string()] },
        ScopedNonSelectedExpectation { expectation: exp(3), scope: vec![".".to_string(), "x".to_string()] },
    ];
    let c = lazy_full_scope_reset_candidates(&scoped);
    let numbers: Vec<usize> = c.iter().map(|e| e.number).collect();
    assert_eq!(numbers, vec![2, 3]);
    let plan = plan_lazy_full_scope_reset(40, 1, &scoped, 5);
    assert_eq!(plan.project_size_tokens, 1);
    assert_eq!(plan.expectations.len(), 2);
}

#[test]
fn project_size_counts_only_text_blobs() {
    let contents = vec![b"hello world".to_vec(), vec![0xff, 0xfe], b"a, b".to_vec()];
    let expected = estimate_text_tokens("hello world") + estimate_text_tokens("a, b");
    assert_eq!(estimate_staged_project_size_tokens(&contents), expected);
    assert_eq!(estimate_staged_project_size_tokens(&contents), 4 + 3);
    assert_eq!(estimate_staged_project_size_tokens(&Vec::new()), 0);
}
