//! The options of `canon check`: flags, the token limit and expectation selectors,
//! and the paths named on the command line.

use vstd::prelude::*;
use crate::answer::SelectedExpectation;
use crate::config::CheckConfig;
use crate::durations::{parse_break_after_tokens, token_limit_spec};
use crate::finalsel::{initial_non_selected_expectations_with_identities, non_selected_from};
use crate::repo_path::{normalize_repo_path, normalize_spec};
use crate::selection::{
    chosen_indexes, first_problem, identity_ids, lemma_match_list_bounded, match_list, opt_views,
    select_expectations_with_identities, select_step, selected_from, selector_indexes, ExpectationIdentity,
};
use crate::finalsel::id_selected;
use crate::text::{chars_of, chars_starts_with, str_eq, string_from_chars};
use crate::validation::concat2;

verus! {

/// The options of one check run.
pub struct CheckOptions {
    pub selected: Vec<SelectedExpectation>,
    pub non_selected: Vec<SelectedExpectation>,
    pub skipped: usize,
    pub check_all: bool,
    pub ignore_cache: bool,
    pub ignore_cooldown: bool,
    pub break_after_tokens: Option<u64>,
}

/// The state of the option scan: `--all`, `--ignore-cache`, `--ignore-cooldown`,
/// the token limit, the selectors so far, and whether options are still read.
pub type ScanState = (bool, bool, bool, Option<u64>, Seq<Option<Seq<char>>>, bool);

pub open spec fn break_prefix() -> Seq<char> {
    "--break-after-tokens="@
}

/// Reads `args[i..]` from `st`: `--` ends the options; each flag may occur once;
/// `--break-after-tokens` takes the next argument, or its value after `=`; anything
/// else (or anything after `--`) is a selector.
pub open spec fn scan(args: Seq<Option<Seq<char>>>, i: int, st: ScanState) -> Result<ScanState, Seq<char>>
    decreases args.len() - i,
{
    if i < 0 || i >= args.len() {
        Ok(st)
    } else {
        let (all, cache, cooldown, limit, selectors, parsing) = st;
        let arg = args[i];
        if parsing && arg == Some("--"@) {
            scan(args, i + 1, (all, cache, cooldown, limit, selectors, false))
        } else if parsing && arg == Some("--all"@) {
            if all {
                Err("duplicate --all"@)
            } else {
                scan(args, i + 1, (true, cache, cooldown, limit, selectors, parsing))
            }
        } else if parsing && arg == Some("--ignore-cache"@) {
            if cache {
                Err("duplicate --ignore-cache"@)
            } else {
                scan(args, i + 1, (all, true, cooldown, limit, selectors, parsing))
            }
        } else if parsing && arg == Some("--ignore-cooldown"@) {
            if cooldown {
                Err("duplicate --ignore-cooldown"@)
            } else {
                scan(args, i + 1, (all, cache, true, limit, selectors, parsing))
            }
        } else if parsing && arg == Some("--break-after-tokens"@) {
            if limit is Some {
                Err("duplicate --break-after-tokens"@)
            } else if i + 1 >= args.len() {
                Err("--break-after-tokens requires a token limit"@)
            } else {
                match args[i + 1] {
                    None => Err("--break-after-tokens must be valid UTF-8"@),
                    Some(v) => match token_limit_spec(v) {
                        Err(m) => Err(m),
                        Ok(n) => scan(args, i + 2, (all, cache, cooldown, Some(n as u64), selectors, parsing)),
                    },
                }
            }
        } else if parsing && arg is Some && break_prefix().len() <= arg->0.len() && arg->0.take(
            break_prefix().len() as int,
        ) == break_prefix() {
            if limit is Some {
                Err("duplicate --break-after-tokens"@)
            } else {
                match token_limit_spec(arg->0.skip(break_prefix().len() as int)) {
                    Err(m) => Err(m),
                    Ok(n) => scan(args, i + 1, (all, cache, cooldown, Some(n as u64), selectors, parsing)),
                }
            }
        } else {
            scan(args, i + 1, (all, cache, cooldown, limit, selectors.push(arg), parsing))
        }
    }
}

pub open spec fn initial_scan() -> ScanState {
    (false, false, false, None, Seq::empty(), true)
}

/// The positions the selectors choose, or the first selection problem.
pub open spec fn selection_outcome(config: CheckConfig, identities: Seq<ExpectationIdentity>, selectors: Seq<Option<Seq<char>>>) -> Result<Seq<usize>, Seq<char>> {
    match chosen_indexes(config.expectations@.len(), identity_ids(identities), selectors) {
        Err(m) => Err(m),
        Ok(idx) => match first_problem(config.expectations@, identities, idx, 0) {
            Some(m) => Err(m),
            None => Ok(idx),
        },
    }
}

fn opt_arg_eq(arg: &Option<String>, lit: &str) -> (r: bool)
    ensures
        r == (opt_views(seq![*arg])[0] == Some(lit@)),
{
    match arg {
        Some(a) => str_eq(a.as_str(), lit),
        None => false,
    }
}

fn clone_opt(arg: &Option<String>) -> (r: Option<String>)
    ensures
        r == *arg,
{
    match arg {
        Some(a) => Some(a.clone()),
        None => None,
    }
}

/// Parses the check options against the config's expectations and their identities.
#[verifier::loop_isolation(false)]
pub fn parse_check_options_with_identities(
    config: &CheckConfig,
    identities: &Vec<ExpectationIdentity>,
    args: &Vec<Option<String>>,
) -> (r: Result<CheckOptions, String>)
    requires
        identities@.len() <= config.expectations@.len(),
    ensures
        match scan(opt_views(args@), 0, initial_scan()) {
            Err(m) => r matches Err(e) && e@ == m,
            Ok(st) => match selection_outcome(*config, identities@, st.4) {
                Err(m) => r matches Err(e) && e@ == m,
                Ok(idx) => r matches Ok(o) && o.check_all == st.0 && o.ignore_cache == st.1
                    && o.ignore_cooldown == st.2 && o.break_after_tokens == st.3 && o.selected@.len()
                    == idx.len() && (forall|k: int|
                    0 <= k < idx.len() ==> selected_from(
                        #[trigger] o.selected@[k],
                        config.expectations@,
                        identities@,
                        idx[k],
                    )) && o.non_selected@ == non_selected_from(*config, identities@, o.selected@, 0)
                    && o.skipped == if config.expectations@.len() >= idx.len() {
                    config.expectations@.len() - idx.len()
                } else {
                    0
                },
            },
        },
{
    let ghost av = opt_views(args@);
    let mut check_all = false;
    let mut ignore_cache = false;
    let mut ignore_cooldown = false;
    let mut break_after_tokens: Option<u64> = None;
    let mut selectors: Vec<Option<String>> = Vec::new();
    let mut parsing = true;
    let mut index: usize = 0;
    assert(opt_views(selectors@) =~= Seq::<Option<Seq<char>>>::empty());
    while index < args.len()
        invariant
            index <= args.len(),
            av == opt_views(args@),
            scan(av, 0, initial_scan()) == scan(
                av,
                index as int,
                (check_all, ignore_cache, ignore_cooldown, break_after_tokens, opt_views(selectors@), parsing),
            ),
        decreases args.len() - index,
    {
        let arg = &args[index];
        assert(opt_views(seq![*arg])[0] == av[index as int]);
        if parsing && opt_arg_eq(arg, "--") {
            parsing = false;
        } else if parsing && opt_arg_eq(arg, "--all") {
            if check_all {
                return Err(String::from_str("duplicate --all"));
            }
            check_all = true;
        } else if parsing && opt_arg_eq(arg, "--ignore-cache") {
            if ignore_cache {
                return Err(String::from_str("duplicate --ignore-cache"));
            }
            ignore_cache = true;
        } else if parsing && opt_arg_eq(arg, "--ignore-cooldown") {
            if ignore_cooldown {
                return Err(String::from_str("duplicate --ignore-cooldown"));
            }
            ignore_cooldown = true;
        } else if parsing && opt_arg_eq(arg, "--break-after-tokens") {
            if break_after_tokens.is_some() {
                return Err(String::from_str("duplicate --break-after-tokens"));
            }
            if index + 1 >= args.len() {
                return Err(String::from_str("--break-after-tokens requires a token limit"));
            }
            let value = match &args[index + 1] {
                Some(v) => v,
                None => {
                    assert(av[index + 1] is None);
                    return Err(String::from_str("--break-after-tokens must be valid UTF-8"));
                },
            };
            assert(av[index + 1] == Some(value@));
            let n = parse_break_after_tokens(value.as_str())?;
            break_after_tokens = Some(n);
            index += 1;
        } else if parsing && has_break_prefix(arg) {
            if break_after_tokens.is_some() {
                return Err(String::from_str("duplicate --break-after-tokens"));
            }
            let text = match arg {
                Some(t) => t,
                None => {
                    return Err(String::from_str("--break-after-tokens must be valid UTF-8"));
                },
            };
            let v = chars_of(text.as_str());
            let rest = string_from_chars(&v, 21, v.len());
            proof {
                reveal_strlit("--break-after-tokens=");
                assert(v@.subrange(21, v@.len() as int) =~= text@.skip(break_prefix().len() as int));
            }
            let n = parse_break_after_tokens(rest.as_str())?;
            break_after_tokens = Some(n);
        } else {
            let ghost before = opt_views(selectors@);
            selectors.push(clone_opt(arg));
            assert(opt_views(selectors@) =~= before.push(av[index as int]));
        }
        index += 1;
    }
    let ghost st = (check_all, ignore_cache, ignore_cooldown, break_after_tokens, opt_views(selectors@), parsing);
    let selected = select_expectations_with_identities(config, identities, &selectors)?;
    let non_selected = initial_non_selected_expectations_with_identities(config, identities, &selected)?;
    let skipped = config.expectations.len().saturating_sub(selected.len());
    Ok(CheckOptions {
        selected,
        non_selected,
        skipped,
        check_all,
        ignore_cache,
        ignore_cooldown,
        break_after_tokens,
    })
}

/// Whether an argument starts with `--break-after-tokens=`.
fn has_break_prefix(arg: &Option<String>) -> (r: bool)
    ensures
        r == (arg is Some && break_prefix().len() <= arg->0@.len() && arg->0@.take(
            break_prefix().len() as int,
        ) == break_prefix()),
        r ==> arg->0@.len() >= 21,
{
    match arg {
        Some(a) => {
            let v = chars_of(a.as_str());
            let p = chars_of("--break-after-tokens=");
            proof {
                reveal_strlit("--break-after-tokens=");
            }
            let r = chars_starts_with(&v, &p);
            proof {
                if r {
                    assert(v@.subrange(0, p@.len() as int) == v@.take(p@.len() as int));
                } else if p@.len() <= v@.len() && v@.take(p@.len() as int) == p@ {
                    assert(v@.subrange(0, p@.len() as int) == v@.take(p@.len() as int));
                }
            }
            r
        },
        None => false,
    }
}

/// A `--config` path: a repository path that names a file.
pub open spec fn config_path_spec(value: Seq<char>) -> Result<Seq<char>, Seq<char>> {
    match normalize_spec(value) {
        Err(m) => Err("--config path: "@ + m),
        Ok(p) => if p == seq!['.'] {
            Err("--config path must name a file"@)
        } else {
            Ok(p)
        },
    }
}

pub fn normalize_check_config_path(value: &str) -> (r: Result<String, String>)
    ensures
        match config_path_spec(value@) {
            Ok(p) => r matches Ok(s) && s@ == p,
            Err(m) => r matches Err(e) && e@ == m,
        },
{
    let normalized = match normalize_repo_path(value) {
        Ok(n) => n,
        Err(err) => {
            return Err(concat2("--config path: ", err.as_str()));
        },
    };
    proof {
        reveal_strlit(".");
        assert("."@ =~= seq!['.']);
    }
    if str_eq(normalized.as_str(), ".") {
        return Err(String::from_str("--config path must name a file"));
    }
    proof {
        reveal_strlit(".");
        assert("."@ =~= seq!['.']);
    }
    Ok(normalized)
}

/// Records the `--config` path; a second one is refused.
pub fn set_check_config_path(config_path: &mut Option<String>, value: &str) -> (r: Result<(), String>)
    ensures
        *old(config_path) is Some ==> *final(config_path) == *old(config_path) && (r matches Err(e)
            && e@ == "duplicate --config"@),
        *old(config_path) is None ==> match config_path_spec(value@) {
            Ok(p) => r is Ok && (*final(config_path) matches Some(s) && s@ == p),
            Err(m) => *final(config_path) is None && (r matches Err(e) && e@ == m),
        },
{
    if config_path.is_some() {
        return Err(String::from_str("duplicate --config"));
    }
    let p = normalize_check_config_path(value)?;
    *config_path = Some(p);
    Ok(())
}

/// A `-s`/`--scope` path of a query, in normal form.
pub fn normalize_query_scope_path(option: &str, value: &str) -> (r: Result<String, String>)
    ensures
        match normalize_spec(value@) {
            Ok(p) => r matches Ok(s) && s@ == p,
            Err(m) => r matches Err(e) && e@ == option@ + " path: "@ + m,
        },
{
    match normalize_repo_path(value) {
        Ok(n) => Ok(n),
        Err(err) => {
            let mut e = String::from_str(option);
            e.append(" path: ");
            e.append(err.as_str());
            Err(e)
        },
    }
}

/// The positions among `k..n` that `idx` does not hold.
pub open spec fn missing_count(idx: Seq<usize>, k: int, n: int) -> nat
    decreases n - k,
{
    if k >= n {
        0
    } else {
        missing_count(idx, k + 1, n) + if idx.contains(k as usize) {
            0nat
        } else {
            1nat
        }
    }
}

pub open spec fn distinct_below(idx: Seq<usize>, n: int) -> bool {
    &&& forall|a: int| 0 <= a < idx.len() ==> #[trigger] idx[a] < n
    &&& forall|a: int, b: int| 0 <= a < b < idx.len() ==> #[trigger] idx[a] != #[trigger] idx[b]
}

proof fn lemma_selector_indexes_distinct(ids: Seq<Seq<char>>, args: Seq<Option<Seq<char>>>)
    requires
        ids.len() <= usize::MAX,
        selector_indexes(ids, args) is Ok,
    ensures
        distinct_below(selector_indexes(ids, args)->Ok_0, ids.len() as int),
    decreases args.len(),
{
    if args.len() > 0 {
        lemma_selector_indexes_distinct(ids, args.drop_last());
        let seen = selector_indexes(ids, args.drop_last())->Ok_0;
        let t = args.last()->Some_0;
        lemma_match_list_bounded(ids, t);
        let m = match_list(ids, t);
        let cur = seen.push(m[0]);
        assert(selector_indexes(ids, args) == select_step(ids, seen, args.last()));
        assert forall|a: int, b: int| 0 <= a < b < cur.len() implies #[trigger] cur[a] != #[trigger] cur[b] by {
            if b == cur.len() - 1 {
                assert(cur[a] == seen[a]);
                assert(seen.contains(seen[a]));
            }
        }
    }
}

proof fn lemma_missing_empty(k: int, n: int)
    requires
        k <= n,
    ensures
        missing_count(Seq::<usize>::empty(), k, n) == n - k,
    decreases n - k,
{
    if k < n {
        lemma_missing_empty(k + 1, n);
    }
}

proof fn lemma_missing_drop(idx: Seq<usize>, k: int, n: int)
    requires
        idx.len() > 0,
        distinct_below(idx, n),
        0 <= k <= n <= usize::MAX,
    ensures
        missing_count(idx.drop_last(), k, n) == missing_count(idx, k, n) + if k <= idx.last() {
            1nat
        } else {
            0nat
        },
    decreases n - k,
{
    assert(idx.last() < n) by {
        assert(idx[idx.len() - 1] < n);
    }
    if k < n {
        lemma_missing_drop(idx, k + 1, n);
        let x = idx.last();
        let d = idx.drop_last();
        if k as usize != x {
            assert(idx.contains(k as usize) <==> d.contains(k as usize)) by {
                if idx.contains(k as usize) {
                    let j = choose|j: int| 0 <= j < idx.len() && idx[j] == k as usize;
                    assert(j != idx.len() - 1);
                    assert(d[j] == idx[j]);
                }
                if d.contains(k as usize) {
                    let j = choose|j: int| 0 <= j < d.len() && d[j] == k as usize;
                    assert(idx[j] == d[j]);
                }
            }
        } else {
            assert(idx.contains(x)) by {
                assert(idx[idx.len() - 1] == x);
            }
            assert(!d.contains(x)) by {
                if d.contains(x) {
                    let j = choose|j: int| 0 <= j < d.len() && d[j] == x;
                    assert(idx[j] == idx[idx.len() - 1]);
                }
            }
        }
    }
}

proof fn lemma_missing_count(idx: Seq<usize>, n: int)
    requires
        0 <= n <= usize::MAX,
        distinct_below(idx, n),
    ensures
        missing_count(idx, 0, n) + idx.len() == n,
    decreases idx.len(),
{
    if idx.len() == 0 {
        assert(idx =~= Seq::<usize>::empty());
        lemma_missing_empty(0, n);
    } else {
        let d = idx.drop_last();
        assert(distinct_below(d, n)) by {
            assert forall|a: int, b: int| 0 <= a < b < d.len() implies #[trigger] d[a] != #[trigger] d[b] by {
                assert(idx[a] != idx[b]);
            }
        }
        lemma_missing_count(d, n);
        lemma_missing_drop(idx, 0, n);
    }
}

/// Each id of the expectations from position `k` on that are not selected belongs
/// to one of those positions, no id repeats, and there are as many as positions
/// missing from `idx`.
proof fn lemma_non_selected_from(
    config: CheckConfig,
    identities: Seq<ExpectationIdentity>,
    selected: Seq<SelectedExpectation>,
    idx: Seq<usize>,
    k: int,
)
    requires
        0 <= k <= config.expectations@.len(),
        identities.len() == config.expectations@.len(),
        forall|p: int| 0 <= p < identities.len() ==> (id_selected(selected, #[trigger] identities[p].id@)
            <==> idx.contains(p as usize)),
        forall|i: int, j: int| 0 <= i < j < identities.len() ==> #[trigger] identities[i].id@ != #[trigger] identities[j].id@,
    ensures
        non_selected_from(config, identities, selected, k).len() == missing_count(
            idx,
            k,
            config.expectations@.len() as int,
        ),
        forall|j: int|
            0 <= j < non_selected_from(config, identities, selected, k).len() ==> exists|p: int|
                k <= p < identities.len() && !idx.contains(p as usize) && (#[trigger] non_selected_from(
                    config,
                    identities,
                    selected,
                    k,
                )[j]).id@ == identities[p].id@,
        forall|a: int, b: int|
            0 <= a < b < non_selected_from(config, identities, selected, k).len() ==> (#[trigger] non_selected_from(
                config,
                identities,
                selected,
                k,
            )[a]).id@ != (#[trigger] non_selected_from(config, identities, selected, k)[b]).id@,
    decreases config.expectations@.len() - k,
{
    let n = config.expectations@.len() as int;
    if k < n {
        lemma_non_selected_from(config, identities, selected, idx, k + 1);
        let rest = non_selected_from(config, identities, selected, k + 1);
        let cur = non_selected_from(config, identities, selected, k);
        assert(id_selected(selected, identities[k].id@) <==> idx.contains(k as usize));
        if !idx.contains(k as usize) {
            assert(cur.len() == rest.len() + 1);
            assert forall|j: int| 0 <= j < cur.len() implies exists|p: int|
                k <= p < identities.len() && !idx.contains(p as usize) && (#[trigger] cur[j]).id@
                    == identities[p].id@ by {
                if j == 0 {
                    assert(cur[0].id@ == identities[k].id@);
                } else {
                    assert(cur[j] == rest[j - 1]);
                    assert(rest[j - 1] == rest[j - 1]);
                }
            }
            assert forall|a: int, b: int| 0 <= a < b < cur.len() implies (#[trigger] cur[a]).id@ != (
            #[trigger] cur[b]).id@ by {
                assert(cur[b] == rest[b - 1]);
                if a == 0 {
                    let p = choose|p: int|
                        k + 1 <= p < identities.len() && !idx.contains(p as usize) && (#[trigger] rest[b - 1]).id@
                            == identities[p].id@;
                    assert(identities[k].id@ != identities[p].id@);
                } else {
                    assert(cur[a] == rest[a - 1]);
                }
            }
        } else {
            assert(cur == rest);
        }
    }
}

/// The expectations a check names split all configured expectations: the selected
/// and the non-selected together have every expectation's id exactly once, and
/// number as many as there are expectations.
pub proof fn law_selection_partitions_expectations(
    config: CheckConfig,
    identities: Seq<ExpectationIdentity>,
    selectors: Seq<Option<Seq<char>>>,
    selected: Seq<SelectedExpectation>,
)
    requires
        identities.len() == config.expectations@.len() <= usize::MAX,
        forall|i: int, j: int| 0 <= i < j < identities.len() ==> #[trigger] identities[i].id@ != #[trigger] identities[j].id@,
        selection_outcome(config, identities, selectors) is Ok,
        selected.len() == selection_outcome(config, identities, selectors)->Ok_0.len(),
        forall|k: int|
            0 <= k < selected.len() ==> selected_from(
                #[trigger] selected[k],
                config.expectations@,
                identities,
                selection_outcome(config, identities, selectors)->Ok_0[k],
            ),
    ensures
        selected.len() + non_selected_from(config, identities, selected, 0).len() == config.expectations@.len(),
        forall|a: int, b: int| 0 <= a < b < selected.len() ==> #[trigger] selected[a].id@ != #[trigger] selected[b].id@,
        forall|a: int, b: int|
            0 <= a < selected.len() && 0 <= b < non_selected_from(config, identities, selected, 0).len()
                ==> #[trigger] selected[a].id@ != (#[trigger] non_selected_from(config, identities, selected, 0)[b]).id@,
        forall|a: int, b: int|
            0 <= a < b < non_selected_from(config, identities, selected, 0).len() ==> (
            #[trigger] non_selected_from(config, identities, selected, 0)[a]).id@ != (
            #[trigger] non_selected_from(config, identities, selected, 0)[b]).id@,
{
    let n = config.expectations@.len() as int;
    let ids = identity_ids(identities);
    let idx = selection_outcome(config, identities, selectors)->Ok_0;
    assert(chosen_indexes(n as nat, ids, selectors) == Ok::<Seq<usize>, Seq<char>>(idx));
    if selectors.len() == 0 {
        assert(distinct_below(idx, n));
    } else {
        lemma_selector_indexes_distinct(ids, selectors);
    }
    assert forall|k: int| 0 <= k < selected.len() implies #[trigger] selected[k].id@ == identities[idx[k] as int].id@ by {
        assert(selected_from(selected[k], config.expectations@, identities, idx[k]));
    }
    assert forall|p: int| 0 <= p < identities.len() implies (id_selected(selected, #[trigger] identities[p].id@)
        <==> idx.contains(p as usize)) by {
        if id_selected(selected, identities[p].id@) {
            let i = choose|i: int| 0 <= i < selected.len() && #[trigger] selected[i].id@ == identities[p].id@;
            assert(selected[i].id@ == identities[idx[i] as int].id@);
            assert(idx[i] as int == p);
            assert(idx[i] == p as usize);
        }
        if idx.contains(p as usize) {
            let i = choose|i: int| 0 <= i < idx.len() && idx[i] == p as usize;
            assert(selected[i].id@ == identities[p].id@);
        }
    }
    lemma_non_selected_from(config, identities, selected, idx, 0);
    lemma_missing_count(idx, n);
    let ns = non_selected_from(config, identities, selected, 0);
    assert forall|a: int, b: int| 0 <= a < b < selected.len() implies #[trigger] selected[a].id@ != #[trigger] selected[b].id@ by {
        assert(selected[a].id@ == identities[idx[a] as int].id@);
        assert(selected[b].id@ == identities[idx[b] as int].id@);
        assert(idx[a] != idx[b]);
    }
    assert forall|a: int, b: int| 0 <= a < selected.len() && 0 <= b < ns.len() implies #[trigger] selected[a].id@
        != (#[trigger] ns[b]).id@ by {
        let p = choose|p: int| 0 <= p < identities.len() && !idx.contains(p as usize) && (#[trigger] ns[b]).id@
            == identities[p].id@;
        assert(selected[a].id@ == identities[idx[a] as int].id@);
        if idx[a] as int == p {
            assert(idx.contains(p as usize));
        }
    }
}

} // verus!
