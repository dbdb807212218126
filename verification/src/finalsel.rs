//! From candidates to the final selected set: the expectations not selected, the
//! cooldown filter, the filter of passing exact-cache hits, and the order in which
//! the selected expectations run.

use vstd::prelude::*;
use crate::answer::{clone_opt_string, CheckRecord, CheckResult, Cooldown, SelectedExpectation};
use crate::config::CheckConfig;
use crate::selection::{expectation_identities, identities_spec, ExpectationIdentity};
use crate::text::str_eq;

verus! {

/// `id` is the ID of one of `selected`.
pub open spec fn id_selected(selected: Seq<SelectedExpectation>, id: Seq<char>) -> bool {
    exists|i: int| 0 <= i < selected.len() && #[trigger] selected[i].id@ == id
}

/// The expectations of `config`, from position `k` on, that have an identity and
/// were not selected, as selected expectations without cooldown.
pub open spec fn non_selected_from(
    config: CheckConfig,
    identities: Seq<ExpectationIdentity>,
    selected: Seq<SelectedExpectation>,
    k: int,
) -> Seq<SelectedExpectation>
    decreases config.expectations@.len() - k,
{
    if k < 0 || k >= config.expectations@.len() {
        Seq::empty()
    } else {
        let rest = non_selected_from(config, identities, selected, k + 1);
        if k >= identities.len() || id_selected(selected, identities[k].id@) {
            rest
        } else {
            let e = config.expectations@[k];
            seq![SelectedExpectation {
                number: (k + 1) as usize,
                id: identities[k].id,
                display_id: identities[k].display_id,
                q: e.q,
                a: e.a,
                cooldown: None,
                thinking: e.thinking,
            }] + rest
        }
    }
}

fn is_id_selected(selected: &Vec<SelectedExpectation>, id: &str) -> (r: bool)
    ensures
        r == id_selected(selected@, id@),
{
    let mut i: usize = 0;
    while i < selected.len()
        invariant
            i <= selected.len(),
            forall|j: int| 0 <= j < i ==> #[trigger] selected@[j].id@ != id@,
        decreases selected.len() - i,
    {
        if str_eq(selected[i].id.as_str(), id) {
            assert(selected@[i as int].id@ == id@);
            return true;
        }
        i += 1;
    }
    false
}

/// The expectations that the command line did not select, in config order.
pub fn initial_non_selected_expectations_with_identities(
    config: &CheckConfig,
    identities: &Vec<ExpectationIdentity>,
    selected: &Vec<SelectedExpectation>,
) -> (r: Result<Vec<SelectedExpectation>, String>)
    ensures
        r matches Ok(v) && v@ == non_selected_from(*config, identities@, selected@, 0),
{
    let n = config.expectations.len();
    let mut out: Vec<SelectedExpectation> = Vec::new();
    let mut k: usize = 0;
    while k < n
        invariant
            k <= n == config.expectations@.len(),
            out@ + non_selected_from(*config, identities@, selected@, k as int) == non_selected_from(
                *config,
                identities@,
                selected@,
                0,
            ),
        decreases n - k,
    {
        let ghost before = out@;
        if k < identities.len() && !is_id_selected(selected, identities[k].id.as_str()) {
            let e = &config.expectations[k];
            let s = SelectedExpectation {
                number: k + 1,
                id: identities[k].id.clone(),
                display_id: identities[k].display_id.clone(),
                q: e.q.clone(),
                a: e.a.clone(),
                cooldown: None,
                thinking: clone_opt_string(&e.thinking),
            };
            out.push(s);
            assert(out@ + non_selected_from(*config, identities@, selected@, k + 1) =~= before
                + non_selected_from(*config, identities@, selected@, k as int));
        }
        k += 1;
    }
    assert(out@ + Seq::<SelectedExpectation>::empty() =~= out@);
    Ok(out)
}

/// The non-selected expectations, with identities computed from the config.
pub fn initial_non_selected_expectations(config: &CheckConfig, selected: &Vec<SelectedExpectation>) -> (r: Result<Vec<SelectedExpectation>, String>)
    ensures
        match identities_spec(config.expectations@) {
            Err(m) => r matches Err(e) && e@ == m,
            Ok(_) => r matches Ok(v) && exists|ids: Seq<ExpectationIdentity>|
                crate::selection::identity_views(ids) == identities_spec(config.expectations@)->Ok_0
                    && v@ == non_selected_from(*config, ids, selected@, 0),
        },
{
    let identities = expectation_identities(config)?;
    let r = initial_non_selected_expectations_with_identities(config, &identities, selected);
    proof {
        let v = r->Ok_0;
        assert(v@ == non_selected_from(*config, identities@, selected@, 0));
    }
    r
}

/// The cooldown filter on one expectation's history, read newest first: the latest
/// record with a valid timestamp decides. It removes the expectation when it passed
/// less than the cooldown ago; a failed or older latest record keeps it.
pub open spec fn cooldown_match_from(records: Seq<(bool, Option<u64>)>, now: u64, seconds: u64, k: int) -> bool
    decreases k + 1,
{
    if k < 0 || k >= records.len() {
        false
    } else {
        match records[k].1 {
            None => cooldown_match_from(records, now, seconds, k - 1),
            Some(t) => records[k].0 && !((if now >= t {
                now - t
            } else {
                0
            }) >= seconds),
        }
    }
}

/// Whether a cooldown removes the expectation, given its history as (passed,
/// timestamp) pairs oldest first; never without a cooldown.
#[verifier::loop_isolation(false)]
pub fn cooldown_removes(records: &Vec<(bool, Option<u64>)>, now: u64, cooldown: Option<Cooldown>) -> (r: bool)
    ensures
        r == match cooldown {
            None => false,
            Some(c) => cooldown_match_from(records@, now, c.seconds, records@.len() - 1),
        },
{
    let seconds = match cooldown {
        None => {
            return false;
        },
        Some(c) => c.seconds,
    };
    let mut k = records.len();
    while k > 0
        invariant
            k <= records.len(),
            cooldown_match_from(records@, now, seconds, records@.len() - 1) == cooldown_match_from(
                records@,
                now,
                seconds,
                k - 1,
            ),
        decreases k,
    {
        let (passed, timestamp) = records[k - 1];
        match timestamp {
            None => {},
            Some(t) => {
                if !passed {
                    return false;
                }
                return !(now.saturating_sub(t) >= seconds);
            },
        }
        k -= 1;
    }
    false
}

/// The candidates left after the cooldown filter, and those it removed.
pub struct FinalSelection {
    pub selected: Vec<SelectedExpectation>,
    pub skipped: Vec<SelectedExpectation>,
}

/// A history lookup that failed, with the expectations removed before it.
pub struct FinalSelectionError {
    pub error: String,
    pub skipped: Vec<SelectedExpectation>,
}

/// The candidates of `selected[..k]` that `removed` keeps (`keep`) or removes.
pub open spec fn split_by(selected: Seq<SelectedExpectation>, removed: Seq<Result<bool, String>>, k: int, keep: bool) -> Seq<SelectedExpectation>
    decreases k,
{
    if k <= 0 || k > selected.len() || k > removed.len() {
        Seq::empty()
    } else {
        let prev = split_by(selected, removed, k - 1, keep);
        match removed[k - 1] {
            Ok(gone) => if gone != keep {
                prev.push(selected[k - 1])
            } else {
                prev
            },
            Err(_) => prev,
        }
    }
}

/// The position of the first failed lookup among the first `k`.
pub open spec fn first_failure(removed: Seq<Result<bool, String>>, k: int) -> Option<int>
    decreases k,
{
    if k <= 0 || k > removed.len() {
        None
    } else {
        match first_failure(removed, k - 1) {
            Some(i) => Some(i),
            None => if removed[k - 1] is Err {
                Some(k - 1)
            } else {
                None
            },
        }
    }
}

/// Applies the cooldown filter, given for each candidate whether its history removes
/// it (or why the history could not be read). The first failed lookup stops the
/// filter; the candidates removed before it are reported with the error.
pub fn final_selected_expectations(selected: Vec<SelectedExpectation>, removed: Vec<Result<bool, String>>) -> (r: Result<FinalSelection, FinalSelectionError>)
    requires
        selected@.len() == removed@.len(),
    ensures
        match first_failure(removed@, removed@.len() as int) {
            Some(i) => r matches Err(e) && e.error == removed@[i]->Err_0 && e.skipped@ == split_by(
                selected@,
                removed@,
                i,
                false,
            ),
            None => r matches Ok(f) && f.selected@ == split_by(selected@, removed@, selected@.len() as int, true)
                && f.skipped@ == split_by(selected@, removed@, selected@.len() as int, false),
        },
{
    let mut remaining: Vec<SelectedExpectation> = Vec::new();
    let mut skipped: Vec<SelectedExpectation> = Vec::new();
    let mut i: usize = 0;
    while i < selected.len()
        invariant
            i <= selected@.len() == removed@.len(),
            first_failure(removed@, i as int) is None,
            remaining@ == split_by(selected@, removed@, i as int, true),
            skipped@ == split_by(selected@, removed@, i as int, false),
        decreases selected.len() - i,
    {
        match &removed[i] {
            Ok(gone) => {
                if *gone {
                    skipped.push(selected[i].duplicate());
                } else {
                    remaining.push(selected[i].duplicate());
                }
            },
            Err(error) => {
                proof {
                    lemma_first_failure_stays(removed@, i as int + 1);
                }
                return Err(FinalSelectionError { error: error.clone(), skipped });
            },
        }
        i += 1;
    }
    Ok(FinalSelection { selected: remaining, skipped })
}

proof fn lemma_first_failure_stays(removed: Seq<Result<bool, String>>, k: int)
    requires
        0 <= k <= removed.len(),
        first_failure(removed, k) is Some,
    ensures
        first_failure(removed, removed.len() as int) == first_failure(removed, k),
    decreases removed.len() - k,
{
    if k < removed.len() {
        lemma_first_failure_stays(removed, k + 1);
    }
}

/// A reusable history record that matched the current staged scope hash.
pub struct CheckCacheHit {
    pub record: CheckRecord,
}

/// Of an exact-cache hit, only a non-passing one is reported from the cache.
pub fn cached_failure_for_expectation(hit: Option<CheckCacheHit>) -> (r: Option<CheckCacheHit>)
    ensures
        r == match hit {
            Some(h) => if h.record.result == CheckResult::Pass {
                None
            } else {
                Some(h)
            },
            None => None,
        },
{
    match hit {
        Some(h) => if h.record.passed() {
            None
        } else {
            Some(h)
        },
        None => None,
    }
}

/// The candidates that still run, and the passing cache hits that satisfy the
/// others.
pub struct FinalCacheSelection {
    pub selected: Vec<SelectedExpectation>,
    pub skipped_passes: Vec<(SelectedExpectation, CheckCacheHit)>,
}

pub open spec fn is_pass_hit(h: Option<CheckCacheHit>) -> bool {
    h matches Some(x) && x.record.result == CheckResult::Pass
}

/// The candidates of `selected[..k]` without a passing hit.
pub open spec fn cache_remaining(selected: Seq<SelectedExpectation>, hits: Seq<Option<CheckCacheHit>>, k: int) -> Seq<SelectedExpectation>
    decreases k,
{
    if k <= 0 || k > selected.len() || k > hits.len() {
        Seq::empty()
    } else {
        let prev = cache_remaining(selected, hits, k - 1);
        if is_pass_hit(hits[k - 1]) {
            prev
        } else {
            prev.push(selected[k - 1])
        }
    }
}

/// The candidates of `selected[..k]` with a passing hit, each with its hit.
pub open spec fn cache_passes(selected: Seq<SelectedExpectation>, hits: Seq<Option<CheckCacheHit>>, k: int) -> Seq<(SelectedExpectation, CheckCacheHit)>
    decreases k,
{
    if k <= 0 || k > selected.len() || k > hits.len() {
        Seq::empty()
    } else {
        let prev = cache_passes(selected, hits, k - 1);
        if is_pass_hit(hits[k - 1]) {
            prev.push((selected[k - 1], hits[k - 1]->Some_0))
        } else {
            prev
        }
    }
}

/// Splits the candidates by their exact-cache hits: a passing hit removes the
/// candidate (it is reported with its hit), any other candidate still runs.
pub fn final_selected_after_current_pass_cache(selected: Vec<SelectedExpectation>, hits: Vec<Option<CheckCacheHit>>) -> (r: FinalCacheSelection)
    requires
        selected@.len() == hits@.len(),
    ensures
        r.selected@ == cache_remaining(selected@, hits@, selected@.len() as int),
        r.skipped_passes@ == cache_passes(selected@, hits@, selected@.len() as int),
{
    let ghost all_hits = hits@;
    let mut hits = hits;
    let mut remaining: Vec<SelectedExpectation> = Vec::new();
    let mut skipped_passes: Vec<(SelectedExpectation, CheckCacheHit)> = Vec::new();
    let mut i: usize = 0;
    while i < selected.len()
        invariant
            i <= selected@.len() == all_hits.len(),
            hits@ == all_hits.skip(i as int),
            remaining@ == cache_remaining(selected@, all_hits, i as int),
            skipped_passes@ == cache_passes(selected@, all_hits, i as int),
        decreases selected.len() - i,
    {
        let hit = hits.remove(0);
        assert(hit == all_hits[i as int]);
        assert(hits@ =~= all_hits.skip(i + 1));
        match hit {
            Some(h) => {
                if h.record.passed() {
                    skipped_passes.push((selected[i].duplicate(), h));
                } else {
                    remaining.push(selected[i].duplicate());
                }
            },
            None => {
                remaining.push(selected[i].duplicate());
            },
        }
        i += 1;
    }
    FinalCacheSelection { selected: remaining, skipped_passes }
}

/// The newest timestamp among the failing records of a history, given as (passed,
/// timestamp) pairs.
pub open spec fn latest_non_pass_from(records: Seq<(bool, Option<u64>)>, k: int) -> Option<u64>
    decreases k,
{
    if k <= 0 || k > records.len() {
        None
    } else {
        let prev = latest_non_pass_from(records, k - 1);
        if records[k - 1].0 || records[k - 1].1 is None {
            prev
        } else {
            let t = records[k - 1].1->Some_0;
            match prev {
                Some(p) => Some(if p >= t {
                    p
                } else {
                    t
                }),
                None => Some(t),
            }
        }
    }
}

pub fn latest_history_non_pass_timestamp(records: &Vec<(bool, Option<u64>)>) -> (r: Option<u64>)
    ensures
        r == latest_non_pass_from(records@, records@.len() as int),
{
    let mut latest: Option<u64> = None;
    let mut k: usize = 0;
    while k < records.len()
        invariant
            k <= records.len(),
            latest == latest_non_pass_from(records@, k as int),
        decreases records.len() - k,
    {
        let (passed, timestamp) = records[k];
        if !passed {
            match timestamp {
                Some(t) => {
                    latest = match latest {
                        Some(p) => Some(if p >= t {
                            p
                        } else {
                            t
                        }),
                        None => Some(t),
                    };
                },
                None => {},
            }
        }
        k += 1;
    }
    latest
}

/// The later of two optional timestamps.
pub open spec fn later(a: Option<u64>, b: Option<u64>) -> Option<u64> {
    match (a, b) {
        (Some(x), Some(y)) => Some(if x >= y {
            x
        } else {
            y
        }),
        (Some(x), None) => Some(x),
        (None, y) => y,
    }
}

pub fn latest_of(a: Option<u64>, b: Option<u64>) -> (r: Option<u64>)
    ensures
        r == later(a, b),
{
    match (a, b) {
        (Some(x), Some(y)) => Some(if x >= y {
            x
        } else {
            y
        }),
        (Some(x), None) => Some(x),
        (None, y) => y,
    }
}

/// Run order: `a` before `b` when it failed more recently, when only it has failed,
/// or, failing both ways equally, when it came first.
pub open spec fn runs_before(a: (Option<u64>, usize), b: (Option<u64>, usize)) -> bool {
    match (a.0, b.0) {
        (Some(x), Some(y)) => x > y || (x == y && a.1 < b.1),
        (Some(_), None) => true,
        (None, Some(_)) => false,
        (None, None) => a.1 < b.1,
    }
}

/// `key` inserted into `sorted` before the first entry it runs before.
pub open spec fn insert_key(sorted: Seq<(Option<u64>, usize)>, key: (Option<u64>, usize)) -> Seq<(Option<u64>, usize)>
    decreases sorted.len(),
{
    if sorted.len() == 0 {
        seq![key]
    } else if runs_before(key, sorted[0]) {
        seq![key] + sorted
    } else {
        seq![sorted[0]] + insert_key(sorted.drop_first(), key)
    }
}

/// The keys `(latest non-pass, position)` of the first `k` candidates, in run order.
pub open spec fn order_keys(latest: Seq<Option<u64>>, k: int) -> Seq<(Option<u64>, usize)>
    decreases k,
{
    if k <= 0 || k > latest.len() {
        Seq::empty()
    } else {
        insert_key(order_keys(latest, k - 1), (latest[k - 1], (k - 1) as usize))
    }
}

/// The position of the first entry of `sorted` that `key` runs before, or its length.
pub open spec fn insert_pos(sorted: Seq<(Option<u64>, usize)>, key: (Option<u64>, usize)) -> int
    decreases sorted.len(),
{
    if sorted.len() == 0 {
        0
    } else if runs_before(key, sorted[0]) {
        0
    } else {
        1 + insert_pos(sorted.drop_first(), key)
    }
}

proof fn lemma_insert_key_is_insert(sorted: Seq<(Option<u64>, usize)>, key: (Option<u64>, usize))
    ensures
        0 <= insert_pos(sorted, key) <= sorted.len(),
        insert_key(sorted, key) == sorted.insert(insert_pos(sorted, key), key),
        forall|j: int| 0 <= j < insert_pos(sorted, key) ==> !runs_before(key, #[trigger] sorted[j]),
        insert_pos(sorted, key) < sorted.len() ==> runs_before(key, sorted[insert_pos(sorted, key)]),
    decreases sorted.len(),
{
    if sorted.len() > 0 && !runs_before(key, sorted[0]) {
        lemma_insert_key_is_insert(sorted.drop_first(), key);
        let p = insert_pos(sorted.drop_first(), key);
        assert(seq![sorted[0]] + sorted.drop_first().insert(p, key) =~= sorted.insert(p + 1, key));
        assert forall|j: int| 0 <= j < p + 1 implies !runs_before(key, #[trigger] sorted[j]) by {
            if j > 0 {
                assert(sorted[j] == sorted.drop_first()[j - 1]);
            }
        }
        if p + 1 < sorted.len() {
            assert(sorted[p + 1] == sorted.drop_first()[p]);
        }
    } else if sorted.len() > 0 {
        assert(seq![key] + sorted =~= sorted.insert(0, key));
    } else {
        assert(seq![key] =~= sorted.insert(0, key));
    }
}

/// Orders the candidates so that those that failed most recently run first; the
/// others keep their order, after them. `latest` holds, for each candidate, the
/// newest non-pass time from its history and its latest non-pass record.
pub fn order_expectations_by_latest_non_pass(selected: Vec<SelectedExpectation>, latest: &Vec<Option<u64>>) -> (r: Vec<SelectedExpectation>)
    requires
        selected@.len() == latest@.len(),
    ensures
        r@.len() == selected@.len(),
        forall|k: int| 0 <= k < r@.len() ==> #[trigger] r@[k] == selected@[order_keys(latest@, latest@.len() as int)[k].1 as int],
{
    let n = latest.len();
    let mut keys: Vec<(Option<u64>, usize)> = Vec::new();
    let mut i: usize = 0;
    while i < n
        invariant
            i <= n == latest@.len(),
            keys@ == order_keys(latest@, i as int),
        decreases n - i,
    {
        let key = (latest[i], i);
        proof {
            lemma_insert_key_is_insert(keys@, key);
        }
        let mut p: usize = 0;
        while p < keys.len() && !key_runs_before(key, keys[p])
            invariant
                p <= keys.len(),
                keys@ == order_keys(latest@, i as int),
                insert_pos(keys@, key) >= p,
                forall|j: int| 0 <= j < p ==> !runs_before(key, #[trigger] keys@[j]),
            decreases keys.len() - p,
        {
            proof {
                lemma_insert_pos_skip(keys@, key, p as int);
            }
            p += 1;
        }
        proof {
            lemma_insert_key_is_insert(keys@, key);
            lemma_insert_pos_exact(keys@, key, p as int);
        }
        keys.insert(p, key);
        i += 1;
    }
    proof {
        lemma_order_keys_indexes(latest@, n as int);
    }
    let mut out: Vec<SelectedExpectation> = Vec::new();
    let mut k: usize = 0;
    while k < n
        invariant
            k <= n == keys@.len() == selected@.len(),
            keys@ == order_keys(latest@, n as int),
            forall|j: int| 0 <= j < n ==> #[trigger] keys@[j].1 < n,
            out@.len() == k,
            forall|j: int| 0 <= j < k ==> #[trigger] out@[j] == selected@[keys@[j].1 as int],
        decreases n - k,
    {
        let idx = keys[k].1;
        out.push(selected[idx].duplicate());
        k += 1;
    }
    out
}

fn key_runs_before(a: (Option<u64>, usize), b: (Option<u64>, usize)) -> (r: bool)
    ensures
        r == runs_before(a, b),
{
    match (a.0, b.0) {
        (Some(x), Some(y)) => x > y || (x == y && a.1 < b.1),
        (Some(_), None) => true,
        (None, Some(_)) => false,
        (None, None) => a.1 < b.1,
    }
}

proof fn lemma_insert_pos_skip(sorted: Seq<(Option<u64>, usize)>, key: (Option<u64>, usize), p: int)
    requires
        0 <= p < sorted.len(),
        insert_pos(sorted, key) >= p,
        forall|j: int| 0 <= j <= p ==> !runs_before(key, #[trigger] sorted[j]),
    ensures
        insert_pos(sorted, key) >= p + 1,
    decreases p,
{
    assert(!runs_before(key, sorted[0]));
    lemma_insert_key_is_insert(sorted.drop_first(), key);
    assert(insert_pos(sorted, key) == 1 + insert_pos(sorted.drop_first(), key));
    if p > 0 {
        assert forall|j: int| 0 <= j <= p - 1 implies !runs_before(key, #[trigger] sorted.drop_first()[j]) by {
            assert(sorted.drop_first()[j] == sorted[j + 1]);
        }
        assert(insert_pos(sorted, key) == 1 + insert_pos(sorted.drop_first(), key));
        lemma_insert_pos_skip(sorted.drop_first(), key, p - 1);
    }
}

proof fn lemma_insert_pos_exact(sorted: Seq<(Option<u64>, usize)>, key: (Option<u64>, usize), p: int)
    requires
        0 <= p <= sorted.len(),
        insert_pos(sorted, key) >= p,
        p < sorted.len() ==> runs_before(key, sorted[p]),
    ensures
        insert_pos(sorted, key) == p,
    decreases p,
{
    if p > 0 {
        lemma_insert_pos_exact(sorted.drop_first(), key, p - 1);
    }
}

proof fn lemma_insert_key_contents(sorted: Seq<(Option<u64>, usize)>, key: (Option<u64>, usize))
    ensures
        insert_key(sorted, key).len() == sorted.len() + 1,
        forall|j: int| 0 <= j < insert_key(sorted, key).len() ==> (#[trigger] insert_key(sorted, key)[j] == key
            || sorted.contains(insert_key(sorted, key)[j])),
{
    lemma_insert_key_is_insert(sorted, key);
    let p = insert_pos(sorted, key);
    let s2 = sorted.insert(p, key);
    assert forall|j: int| 0 <= j < s2.len() implies (#[trigger] s2[j] == key || sorted.contains(s2[j])) by {
        if j < p {
            assert(s2[j] == sorted[j]);
        } else if j > p {
            assert(s2[j] == sorted[j - 1]);
        }
    }
}

/// Every key's position is below the number of candidates keyed.
proof fn lemma_order_keys_indexes(latest: Seq<Option<u64>>, k: int)
    requires
        0 <= k <= latest.len() <= usize::MAX,
    ensures
        order_keys(latest, k).len() == k,
        forall|j: int| 0 <= j < k ==> #[trigger] order_keys(latest, k)[j].1 < k,
    decreases k,
{
    if k > 0 {
        lemma_order_keys_indexes(latest, k - 1);
        let prev = order_keys(latest, k - 1);
        let key = (latest[k - 1], (k - 1) as usize);
        lemma_insert_key_contents(prev, key);
        assert forall|j: int| 0 <= j < k implies #[trigger] order_keys(latest, k)[j].1 < k by {
            let x = order_keys(latest, k)[j];
            if x != key {
                let t = choose|t: int| 0 <= t < prev.len() && prev[t] == x;
            }
        }
    }
}

/// A sequence of keys is in run order.
pub open spec fn in_run_order(s: Seq<(Option<u64>, usize)>) -> bool {
    forall|a: int, b: int| 0 <= a < b < s.len() ==> !runs_before(#[trigger] s[b], #[trigger] s[a])
}

proof fn lemma_insert_keeps_order(sorted: Seq<(Option<u64>, usize)>, key: (Option<u64>, usize))
    requires
        in_run_order(sorted),
        forall|j: int| 0 <= j < sorted.len() ==> (#[trigger] sorted[j]).1 != key.1,
    ensures
        in_run_order(insert_key(sorted, key)),
{
    lemma_insert_key_is_insert(sorted, key);
    let p = insert_pos(sorted, key);
    let s2 = sorted.insert(p, key);
    assert forall|a: int, b: int| 0 <= a < b < s2.len() implies !runs_before(#[trigger] s2[b], #[trigger] s2[a]) by {
        if a < p && b == p {
            assert(!runs_before(key, sorted[a]));
            assert(sorted[a].1 != key.1);
        } else if a == p && b > p {
            assert(s2[b] == sorted[b - 1]);
            assert(runs_before(key, sorted[p]));
            if b - 1 > p {
                assert(!runs_before(sorted[b - 1], sorted[p]));
            }
        } else if a < p && b < p {
        } else if a < p && b > p {
            assert(s2[b] == sorted[b - 1]);
        } else {
            assert(s2[a] == sorted[a - 1]);
            assert(s2[b] == sorted[b - 1]);
        }
    }
}

/// The run order is a sorting of the candidates: every candidate runs once, and no
/// candidate runs after one it should run before.
pub proof fn law_run_order_is_sorted(latest: Seq<Option<u64>>)
    requires
        latest.len() <= usize::MAX,
    ensures
        in_run_order(order_keys(latest, latest.len() as int)),
        order_keys(latest, latest.len() as int).len() == latest.len(),
        forall|j: int|
            0 <= j < latest.len() ==> order_keys(latest, latest.len() as int).contains((#[trigger] latest[j], j as usize)),
{
    lemma_order_sorted_upto(latest, latest.len() as int);
}

proof fn lemma_order_sorted_upto(latest: Seq<Option<u64>>, k: int)
    requires
        0 <= k <= latest.len() <= usize::MAX,
    ensures
        in_run_order(order_keys(latest, k)),
        order_keys(latest, k).len() == k,
        forall|j: int| 0 <= j < k ==> order_keys(latest, k).contains((#[trigger] latest[j], j as usize)),
    decreases k,
{
    lemma_order_keys_indexes(latest, k);
    if k > 0 {
        lemma_order_sorted_upto(latest, k - 1);
        let prev = order_keys(latest, k - 1);
        let key = (latest[k - 1], (k - 1) as usize);
        lemma_order_keys_indexes(latest, k - 1);
        lemma_insert_keeps_order(prev, key);
        lemma_insert_key_is_insert(prev, key);
        let p = insert_pos(prev, key);
        let cur = order_keys(latest, k);
        assert forall|j: int| 0 <= j < k implies cur.contains((#[trigger] latest[j], j as usize)) by {
            if j == k - 1 {
                assert(cur[p] == key);
            } else {
                assert(prev.contains((latest[j], j as usize)));
                let t = choose|t: int| 0 <= t < prev.len() && #[trigger] prev[t] == (latest[j], j as usize);
                if t < p {
                    assert(cur[t] == prev[t]);
                } else {
                    assert(cur[t + 1] == prev[t]);
                }
            }
        }
    }
}

proof fn lemma_order_keys_distinct(latest: Seq<Option<u64>>, k: int)
    requires
        0 <= k <= latest.len() <= usize::MAX,
    ensures
        forall|a: int, b: int|
            0 <= a < b < order_keys(latest, k).len() ==> #[trigger] order_keys(latest, k)[a].1
                != #[trigger] order_keys(latest, k)[b].1,
    decreases k,
{
    if k > 0 {
        lemma_order_keys_distinct(latest, k - 1);
        lemma_order_keys_indexes(latest, k - 1);
        let prev = order_keys(latest, k - 1);
        let key = (latest[k - 1], (k - 1) as usize);
        lemma_insert_key_is_insert(prev, key);
        let p = insert_pos(prev, key);
        let cur = order_keys(latest, k);
        assert(cur == prev.insert(p, key));
        assert forall|a: int, b: int| 0 <= a < b < cur.len() implies #[trigger] cur[a].1 != #[trigger] cur[b].1 by {
            let ia = if a < p { a } else { a - 1 };
            let ib = if b < p { b } else { b - 1 };
            if a == p {
                assert(cur[b] == prev[ib]);
                assert(prev[ib].1 < k - 1);
            } else if b == p {
                assert(cur[a] == prev[ia]);
                assert(prev[ia].1 < k - 1);
            } else {
                assert(cur[a] == prev[ia]);
                assert(cur[b] == prev[ib]);
                assert(ia < ib);
            }
        }
    }
}

/// The run order, stated directly: candidates with a latest non-pass run before
/// those without one; among those with one, a later time runs first; equal times,
/// and candidates without a time, keep their input order.
pub proof fn law_run_order_newest_first_and_stable(latest: Seq<Option<u64>>)
    requires
        latest.len() <= usize::MAX,
    ensures
        forall|a: int, b: int|
            #![trigger order_keys(latest, latest.len() as int)[a], order_keys(latest, latest.len() as int)[b]]
            0 <= a < b < latest.len() ==> run_order_pair(
                order_keys(latest, latest.len() as int)[a],
                order_keys(latest, latest.len() as int)[b],
            ),
{
    law_run_order_is_sorted(latest);
    lemma_order_keys_distinct(latest, latest.len() as int);
    let keys = order_keys(latest, latest.len() as int);
    assert forall|a: int, b: int| 0 <= a < b < latest.len() implies run_order_pair(
        #[trigger] keys[a],
        #[trigger] keys[b],
    ) by {
        assert(!runs_before(keys[b], keys[a]));
        assert(keys[a].1 != keys[b].1);
    }
}

/// Key `x` may run before key `y`: a key with a time before one without, a later
/// time first, and equal times (or none) in input order.
pub open spec fn run_order_pair(x: (Option<u64>, usize), y: (Option<u64>, usize)) -> bool {
    &&& (x.0 is None ==> y.0 is None)
    &&& match (x.0, y.0) {
        (Some(tx), Some(ty)) => tx >= ty,
        _ => true,
    }
    &&& (x.0 == y.0 ==> x.1 < y.1)
}

} // verus!
