//! Expectation identities, selectors, and the selected set of a check run.

use vstd::prelude::*;
use crate::answer::{SelectedExpectation, clone_opt_string};
use crate::config::{CheckConfig, Expectation};
use crate::durations::{cooldown_spec, parse_cooldown};
use crate::hash::{b64_char, b64_groups, b64_spec, b64_tail, expectation_id, expectation_id_spec, hash_120_spec, quad};
use crate::text::{chars_eq, chars_of, chars_starts_with, is_ascii_char, string_from_chars};
use crate::validation::{all_ascii, concat2};

verus! {

/// An expectation's full ID and the shortest prefix that names it alone.
pub struct ExpectationIdentity {
    pub id: String,
    pub display_id: String,
}

pub open spec fn starts_with(s: Seq<char>, p: Seq<char>) -> bool {
    p.len() <= s.len() && s.take(p.len() as int) == p
}

/// How many of `ids` start with `p`.
pub open spec fn prefix_count(ids: Seq<Seq<char>>, p: Seq<char>) -> nat
    decreases ids.len(),
{
    if ids.len() == 0 {
        0
    } else {
        prefix_count(ids.drop_last(), p) + if starts_with(ids.last(), p) {
            1nat
        } else {
            0nat
        }
    }
}

/// The shortest prefix of `id`, of length at least `e`, that exactly one of `ids` starts
/// with.
pub open spec fn unique_prefix_from(id: Seq<char>, ids: Seq<Seq<char>>, e: int) -> Option<Seq<char>>
    decreases id.len() + 1 - e,
{
    if e < 1 || e > id.len() {
        None
    } else if prefix_count(ids, id.take(e)) == 1 {
        Some(id.take(e))
    } else {
        unique_prefix_from(id, ids, e + 1)
    }
}

pub open spec fn string_views(v: Seq<String>) -> Seq<Seq<char>> {
    Seq::new(v.len(), |i: int| v[i]@)
}

/// How many of `ids` start with `p`.
pub fn count_prefix_matches(ids: &Vec<String>, p: &Vec<char>) -> (n: usize)
    ensures
        n == prefix_count(string_views(ids@), p@),
{
    let mut n: usize = 0;
    let mut i: usize = 0;
    while i < ids.len()
        invariant
            i <= ids.len(),
            n <= i,
            n == prefix_count(string_views(ids@).take(i as int), p@),
        decreases ids.len() - i,
    {
        let c = chars_of(ids[i].as_str());
        let hit = chars_starts_with(&c, p);
        let ghost all = string_views(ids@);
        assert(all.take(i + 1).drop_last() =~= all.take(i as int));
        assert(all.take(i + 1).last() == c@);
        if hit {
            n += 1;
        }
        i += 1;
    }
    assert(string_views(ids@).take(ids.len() as int) =~= string_views(ids@));
    n
}

/// The shortest prefix of `id` that names exactly one of `ids`.
pub fn minimal_unique_expectation_prefix(id: &str, ids: &Vec<String>) -> (r: Option<String>)
    ensures
        match unique_prefix_from(id@, string_views(ids@), 1) {
            Some(p) => r matches Some(s) && s@ == p,
            None => r is None,
        },
{
    let v = chars_of(id);
    let mut k: usize = 0;
    while k < v.len()
        invariant
            0 <= k <= v.len(),
            v@ == id@,
            unique_prefix_from(id@, string_views(ids@), 1) == unique_prefix_from(
                id@,
                string_views(ids@),
                k + 1,
            ),
        decreases v.len() - k,
    {
        let e = k + 1;
        let p = prefix_chars(&v, e);
        if count_prefix_matches(ids, &p) == 1 {
            return Some(string_from_chars(&v, 0, e));
        }
        k += 1;
    }
    None
}

fn prefix_chars(v: &Vec<char>, e: usize) -> (p: Vec<char>)
    requires
        e <= v.len(),
    ensures
        p@ == v@.take(e as int),
{
    let mut p: Vec<char> = Vec::new();
    let mut i: usize = 0;
    while i < e
        invariant
            i <= e <= v.len(),
            p@ == v@.take(i as int),
        decreases e - i,
    {
        p.push(v[i]);
        assert(v@.take(i + 1) =~= v@.take(i as int).push(v@[i as int]));
        i += 1;
    }
    p
}

/// The index of the first entry of `ids` that repeats an earlier one, if any.
pub open spec fn first_duplicate_from(ids: Seq<Seq<char>>, j: int) -> Option<int>
    decreases ids.len() - j,
{
    if j < 0 || j >= ids.len() {
        None
    } else if ids.take(j).contains(ids[j]) {
        Some(j)
    } else {
        first_duplicate_from(ids, j + 1)
    }
}

pub open spec fn expectation_ids(exps: Seq<Expectation>) -> Seq<Seq<char>> {
    Seq::new(exps.len(), |i: int| expectation_id_spec(exps[i].q@, exps[i].a@))
}

/// The identities of the configured expectations, or why they cannot be told apart.
pub open spec fn identities_spec(exps: Seq<Expectation>) -> Result<Seq<(Seq<char>, Seq<char>)>, Seq<char>> {
    let ids = expectation_ids(exps);
    match first_duplicate_from(ids, 0) {
        Some(j) => Err("duplicate expectation ID: "@ + ids[j]),
        None => Ok(Seq::new(ids.len(), |i: int| (ids[i], unique_prefix_from(ids[i], ids, 1)->0))),
    }
}

pub open spec fn identity_views(v: Seq<ExpectationIdentity>) -> Seq<(Seq<char>, Seq<char>)> {
    Seq::new(v.len(), |i: int| (v[i].id@, v[i].display_id@))
}

proof fn lemma_count_self_positive(ids: Seq<Seq<char>>, k: int, p: Seq<char>)
    requires
        0 <= k < ids.len(),
        starts_with(ids[k], p),
    ensures
        prefix_count(ids, p) >= 1,
    decreases ids.len(),
{
    if k < ids.len() - 1 {
        lemma_count_self_positive(ids.drop_last(), k, p);
    }
}

proof fn lemma_count_full_id(ids: Seq<Seq<char>>, k: int)
    requires
        0 <= k < ids.len(),
        forall|i: int| 0 <= i < ids.len() ==> #[trigger] ids[i].len() == ids[k].len(),
        forall|i: int, j: int| 0 <= i < j < ids.len() ==> ids[i] != ids[j],
    ensures
        prefix_count(ids, ids[k]) == 1,
    decreases ids.len(),
{
    let last = ids.len() - 1;
    if k < last {
        lemma_count_full_id(ids.drop_last(), k);
        assert(ids[last].take(ids[k].len() as int) =~= ids[last]);
    } else {
        lemma_count_none(ids.drop_last(), ids[k]);
        assert(ids[k].take(ids[k].len() as int) =~= ids[k]);
    }
}

proof fn lemma_count_none(ids: Seq<Seq<char>>, p: Seq<char>)
    requires
        forall|i: int| 0 <= i < ids.len() ==> #[trigger] ids[i].len() == p.len() && ids[i] != p,
    ensures
        prefix_count(ids, p) == 0,
    decreases ids.len(),
{
    if ids.len() > 0 {
        lemma_count_none(ids.drop_last(), p);
        assert(ids.last().take(p.len() as int) =~= ids.last());
    }
}

proof fn lemma_unique_prefix_exists(id: Seq<char>, ids: Seq<Seq<char>>, e: int)
    requires
        1 <= e <= id.len(),
        prefix_count(ids, id) == 1,
    ensures
        unique_prefix_from(id, ids, e) is Some,
    decreases id.len() + 1 - e,
{
    if prefix_count(ids, id.take(e)) != 1 {
        if e == id.len() {
            assert(id.take(e) =~= id);
        } else {
            lemma_unique_prefix_exists(id, ids, e + 1);
        }
    }
}

proof fn lemma_b64_len(s: Seq<u8>, k: nat)
    requires
        3 * k <= s.len(),
    ensures
        b64_groups(s, k).len() == 4 * k,
    decreases k,
{
    if k > 0 {
        lemma_b64_len(s, (k - 1) as nat);
    }
}

/// Every expectation ID has twenty characters.
pub proof fn law_expectation_id_length(q: Seq<char>, a: Seq<char>)
    ensures
        expectation_id_spec(q, a).len() == 20,
{
    let first = crate::hash::fnv_spec(crate::hash::FNV_OFFSET, crate::hash::expectation_id_input(q, a));
    let second = crate::hash::fnv_spec(
        crate::hash::FNV_OFFSET ^ crate::hash::SECOND_LANE_MIX,
        crate::hash::expectation_id_input(q, a),
    );
    let bytes = crate::hash::be_bytes(first) + crate::hash::be_bytes(second).take(7);
    assert(bytes.len() == 15);
    lemma_b64_len(bytes, 5);
    reveal(expectation_id_spec);
}

/// The IDs of the configured expectations, in order.
pub fn compute_expectation_ids(exps: &Vec<Expectation>) -> (ids: Vec<String>)
    ensures
        string_views(ids@) == expectation_ids(exps@),
{
    let ghost want = expectation_ids(exps@);
    let mut ids: Vec<String> = Vec::new();
    let mut i: usize = 0;
    while i < exps.len()
        invariant
            i <= exps.len(),
            want == expectation_ids(exps@),
            want.len() == exps.len(),
            ids@.len() == i,
            string_views(ids@) == want.take(i as int),
        decreases exps.len() - i,
    {
        let id = expectation_id(exps[i].q.as_str(), exps[i].a.as_str());
        assert(id@ == want[i as int]);
        let ghost before = ids@;
        ids.push(id);
        assert(ids@.len() == i + 1);
        assert forall|t: int| 0 <= t < i + 1 implies #[trigger] ids@[t]@ == want.take(i + 1)[t] by {
            if t < i {
                assert(ids@[t] == before[t]);
                assert(string_views(before)[t] == want.take(i as int)[t]);
            }
        }
        assert(string_views(ids@) =~= want.take(i + 1));
        i += 1;
    }
    assert(want.take(exps.len() as int) =~= want);
    ids
}

/// Computes the identity of every expectation.
#[verifier::loop_isolation(false)]
pub fn expectation_identities(config: &CheckConfig) -> (r: Result<Vec<ExpectationIdentity>, String>)
    ensures
        match identities_spec(config.expectations@) {
            Ok(v) => r matches Ok(x) && identity_views(x@) == v,
            Err(m) => r matches Err(e) && e@ == m,
        },
{
    let exps = &config.expectations;
    let ghost want = expectation_ids(exps@);
    let ids = compute_expectation_ids(exps);
    let mut j: usize = 0;
    while j < ids.len()
        invariant
            j <= ids.len(),
            want == expectation_ids(exps@),
            string_views(ids@) == want,
            first_duplicate_from(want, 0) == first_duplicate_from(want, j as int),
            forall|a: int, b: int| 0 <= a < b < j ==> want[a] != want[b],
        decreases ids.len() - j,
    {
        let cj = chars_of(ids[j].as_str());
        let mut k: usize = 0;
        while k < j
            invariant
                k <= j < ids.len(),
                want == expectation_ids(exps@),
                string_views(ids@) == want,
                cj@ == want[j as int],
                first_duplicate_from(want, 0) == first_duplicate_from(want, j as int),
                forall|t: int| 0 <= t < k ==> want[t] != want[j as int],
            decreases j - k,
        {
            let ck = chars_of(ids[k].as_str());
            assert(string_views(ids@)[k as int] == ids@[k as int]@);
            if chars_eq(&ck, &cj) {
                assert(string_views(ids@)[j as int] == ids@[j as int]@);
                assert(want.take(j as int)[k as int] == want[j as int]);
                assert(want.take(j as int).contains(want[j as int]));
                assert(j < want.len());
                assert(first_duplicate_from(want, j as int) == Some(j as int));
                assert(identities_spec(exps@) == Err::<Seq<(Seq<char>, Seq<char>)>, Seq<char>>("duplicate expectation ID: "@ + want[j as int]));
                let mut msg = String::from_str("duplicate expectation ID: ");
                msg.append(ids[j].as_str());
                assert(ids@[j as int]@ == want[j as int]);
                assert(msg@ == "duplicate expectation ID: "@ + want[j as int]);
                return Err(msg);
            }
            k += 1;
        }
        assert(!want.take(j as int).contains(want[j as int]));
        j += 1;
    }
    proof {
        assert forall|t: int| 0 <= t < want.len() implies #[trigger] want[t].len() == 20 by {
            law_expectation_id_length(exps@[t].q@, exps@[t].a@);
        }
    }
    let mut out: Vec<ExpectationIdentity> = Vec::new();
    let mut i: usize = 0;
    while i < ids.len()
        invariant
            i <= ids.len(),
            string_views(ids@) == want,
            first_duplicate_from(want, 0) is None,
            forall|a: int, b: int| 0 <= a < b < want.len() ==> want[a] != want[b],
            forall|t: int| 0 <= t < want.len() ==> #[trigger] want[t].len() == 20,
            out@.len() == i,
            forall|t: int| 0 <= t < i ==> (#[trigger] out@[t]).id@ == want[t] && out@[t].display_id@
                == unique_prefix_from(want[t], want, 1)->0,
        decreases ids.len() - i,
    {
        proof {
            lemma_count_full_id(want, i as int);
            lemma_unique_prefix_exists(want[i as int], want, 1);
        }
        let display = match minimal_unique_expectation_prefix(ids[i].as_str(), &ids) {
            Some(d) => d,
            None => {
                return Err(concat2("expectation ID is not unique: ", ids[i].as_str()));
            },
        };
        out.push(ExpectationIdentity { id: ids[i].clone(), display_id: display });
        i += 1;
    }
    assert(identity_views(out@) =~= identities_spec(exps@)->Ok_0);
    Ok(out)
}

} // verus!

verus! {

/// The positions of the IDs that start with `selector`, in order.
pub open spec fn match_list(ids: Seq<Seq<char>>, selector: Seq<char>) -> Seq<usize>
    decreases ids.len(),
{
    if ids.len() == 0 {
        Seq::<usize>::empty()
    } else if starts_with(ids.last(), selector) {
        match_list(ids.drop_last(), selector).push((ids.len() - 1) as usize)
    } else {
        match_list(ids.drop_last(), selector)
    }
}

pub open spec fn identity_ids(v: Seq<ExpectationIdentity>) -> Seq<Seq<char>> {
    Seq::new(v.len(), |i: int| v[i].id@)
}

/// The positions of the expectations whose ID starts with `selector`.
pub fn matching_expectation_indexes(identities: &Vec<ExpectationIdentity>, selector: &str) -> (r: Vec<usize>)
    ensures
        r@ == match_list(identity_ids(identities@), selector@),
{
    let sel = chars_of(selector);
    let ghost ids = identity_ids(identities@);
    let mut r: Vec<usize> = Vec::new();
    let mut i: usize = 0;
    while i < identities.len()
        invariant
            i <= identities.len(),
            sel@ == selector@,
            ids == identity_ids(identities@),
            r@ == match_list(ids.take(i as int), selector@),
        decreases identities.len() - i,
    {
        let c = chars_of(identities[i].id.as_str());
        assert(ids.take(i + 1).drop_last() =~= ids.take(i as int));
        assert(ids.take(i + 1).last() == c@);
        if chars_starts_with(&c, &sel) {
            r.push(i);
        }
        i += 1;
    }
    assert(ids.take(identities.len() as int) =~= ids);
    r
}

/// One selector applied to the positions chosen so far.
pub open spec fn select_step(ids: Seq<Seq<char>>, seen: Seq<usize>, arg: Option<Seq<char>>) -> Result<Seq<usize>, Seq<char>> {
    match arg {
        None => Err("expectation selector must be valid UTF-8"@),
        Some(t) => if t.len() == 0 {
            Err("expectation selector must not be empty"@)
        } else {
            let m = match_list(ids, t);
            if m.len() == 0 {
                Err("unknown expectation selector: "@ + t)
            } else if m.len() > 1 {
                Err("ambiguous expectation selector: "@ + t)
            } else if seen.contains(m[0]) {
                Err("duplicate expectation selector: "@ + t)
            } else {
                Ok(seen.push(m[0]))
            }
        },
    }
}

/// The positions named by the selectors, in the order given, or the first selector
/// problem. A selector names the one expectation whose ID it starts.
pub open spec fn selector_indexes(ids: Seq<Seq<char>>, args: Seq<Option<Seq<char>>>) -> Result<Seq<usize>, Seq<char>>
    decreases args.len(),
{
    if args.len() == 0 {
        Ok(Seq::<usize>::empty())
    } else {
        match selector_indexes(ids, args.drop_last()) {
            Err(e) => Err(e),
            Ok(seen) => select_step(ids, seen, args.last()),
        }
    }
}

pub open spec fn opt_views(v: Seq<Option<String>>) -> Seq<Option<Seq<char>>> {
    Seq::new(v.len(), |i: int| match v[i] {
        Some(s) => Some(s@),
        None => None,
    })
}

/// All positions when no selector is given, else the selected ones.
pub open spec fn chosen_indexes(n: nat, ids: Seq<Seq<char>>, args: Seq<Option<Seq<char>>>) -> Result<Seq<usize>, Seq<char>> {
    if args.len() == 0 {
        Ok(Seq::new(n, |i: int| i as usize))
    } else {
        selector_indexes(ids, args)
    }
}

/// The problem, if any, with turning the expectation at position `index` into a
/// selected expectation.
pub open spec fn selection_problem(exps: Seq<Expectation>, idents: Seq<ExpectationIdentity>, index: usize) -> Option<Seq<char>> {
    if index >= idents.len() {
        Some("expectation identity count mismatch"@)
    } else if exps[index as int].cooldown is Some && cooldown_spec(exps[index as int].cooldown->0@) is Err {
        Some(cooldown_spec(exps[index as int].cooldown->0@)->Err_0)
    } else {
        None
    }
}

pub open spec fn first_problem(exps: Seq<Expectation>, idents: Seq<ExpectationIdentity>, idx: Seq<usize>, k: int) -> Option<Seq<char>>
    decreases idx.len() - k,
{
    if k < 0 || k >= idx.len() {
        None
    } else {
        match selection_problem(exps, idents, idx[k]) {
            Some(m) => Some(m),
            None => first_problem(exps, idents, idx, k + 1),
        }
    }
}

/// `s` is the selected form of the expectation at position `index`.
pub open spec fn selected_from(s: SelectedExpectation, exps: Seq<Expectation>, idents: Seq<ExpectationIdentity>, index: usize) -> bool {
    let e = exps[index as int];
    &&& s.number == index + 1
    &&& s.id == idents[index as int].id
    &&& s.display_id == idents[index as int].display_id
    &&& s.q == e.q
    &&& s.a == e.a
    &&& s.thinking == e.thinking
    &&& match e.cooldown {
        None => s.cooldown is None,
        Some(c) => s.cooldown matches Some(x) && cooldown_spec(c@) == Ok::<nat, Seq<char>>(x.seconds as nat),
    }
}

/// Builds the selected form of the expectation at `index`.
pub fn selected_expectation_at(config: &CheckConfig, identities: &Vec<ExpectationIdentity>, index: usize) -> (r: Result<SelectedExpectation, String>)
    requires
        index < config.expectations@.len(),
    ensures
        match selection_problem(config.expectations@, identities@, index) {
            Some(m) => r matches Err(e) && e@ == m,
            None => r matches Ok(s) && selected_from(s, config.expectations@, identities@, index),
        },
{
    if index >= identities.len() {
        return Err(String::from_str("expectation identity count mismatch"));
    }
    let identity = &identities[index];
    let expectation = &config.expectations[index];
    let cooldown = match &expectation.cooldown {
        Some(c) => match parse_cooldown(c.as_str()) {
            Ok(x) => Some(x),
            Err(e) => {
                return Err(e);
            },
        },
        None => None,
    };
    Ok(SelectedExpectation {
        number: index + 1,
        id: identity.id.clone(),
        display_id: identity.display_id.clone(),
        q: expectation.q.clone(),
        a: expectation.a.clone(),
        cooldown,
        thinking: clone_opt_string(&expectation.thinking),
    })
}

pub proof fn lemma_match_list_bounded(ids: Seq<Seq<char>>, t: Seq<char>)
    requires
        ids.len() <= usize::MAX,
    ensures
        forall|k: int| 0 <= k < match_list(ids, t).len() ==> #[trigger] match_list(ids, t)[k] < ids.len(),
    decreases ids.len(),
{
    if ids.len() > 0 {
        lemma_match_list_bounded(ids.drop_last(), t);
        let prev = match_list(ids.drop_last(), t);
        let cur = match_list(ids, t);
        assert forall|k: int| 0 <= k < cur.len() implies #[trigger] cur[k] < ids.len() by {
            if k < prev.len() {
                assert(prev[k] < ids.drop_last().len());
            }
        }
    }
}

/// Expands the command-line selectors into candidate expectations; with no selector,
/// every expectation is a candidate.
#[verifier::loop_isolation(false)]
pub fn select_expectations_with_identities(
    config: &CheckConfig,
    identities: &Vec<ExpectationIdentity>,
    args: &Vec<Option<String>>,
) -> (r: Result<Vec<SelectedExpectation>, String>)
    requires
        identities@.len() <= config.expectations@.len(),
    ensures
        match chosen_indexes(config.expectations@.len(), identity_ids(identities@), opt_views(args@)) {
            Err(m) => r matches Err(e) && e@ == m,
            Ok(idx) => match first_problem(config.expectations@, identities@, idx, 0) {
                Some(m) => r matches Err(e) && e@ == m,
                None => r matches Ok(v) && v@.len() == idx.len() && forall|k: int| 0 <= k < idx.len()
                    ==> selected_from(#[trigger] v@[k], config.expectations@, identities@, idx[k]),
            },
        },
{
    let ghost ids = identity_ids(identities@);
    let ghost av = opt_views(args@);
    let n = config.expectations.len();
    let mut indexes: Vec<usize> = Vec::new();
    if args.len() == 0 {
        let mut i: usize = 0;
        while i < n
            invariant
                i <= n,
                indexes@ == Seq::new(i as nat, |j: int| j as usize),
            decreases n - i,
        {
            indexes.push(i);
            assert(indexes@ =~= Seq::new((i + 1) as nat, |j: int| j as usize));
            i += 1;
        }
    } else {
        let mut a: usize = 0;
        while a < args.len()
            invariant
                a <= args.len(),
                av == opt_views(args@),
                selector_indexes(ids, av.take(a as int)) == Ok::<Seq<usize>, Seq<char>>(indexes@),
                forall|k: int| 0 <= k < indexes@.len() ==> #[trigger] indexes@[k] < identities@.len(),
            decreases args.len() - a,
        {
            let ghost prefix = av.take(a + 1);
            assert(prefix.drop_last() =~= av.take(a as int));
            assert(prefix.last() == av[a as int]);
            let text = match &args[a] {
                Some(t) => t,
                None => {
                    proof { lemma_selector_error_sticks(ids, av, a as int + 1); }
                    assert(av.take(args@.len() as int) =~= av);
                    return Err(String::from_str("expectation selector must be valid UTF-8"));
                },
            };
            if text.as_str().is_empty() {
                proof { lemma_selector_error_sticks(ids, av, a as int + 1); }
                assert(av.take(args@.len() as int) =~= av);
                return Err(String::from_str("expectation selector must not be empty"));
            }
            let matches = matching_expectation_indexes(identities, text.as_str());
            proof { lemma_match_list_bounded(ids, text@); }
            if matches.len() == 0 {
                proof { lemma_selector_error_sticks(ids, av, a as int + 1); }
                assert(av.take(args@.len() as int) =~= av);
                return Err(concat2("unknown expectation selector: ", text.as_str()));
            }
            if matches.len() > 1 {
                proof { lemma_selector_error_sticks(ids, av, a as int + 1); }
                assert(av.take(args@.len() as int) =~= av);
                return Err(concat2("ambiguous expectation selector: ", text.as_str()));
            }
            let index = matches[0];
            let mut dup = false;
            let mut k: usize = 0;
            while k < indexes.len()
                invariant
                    k <= indexes.len(),
                    dup == exists|t: int| 0 <= t < k && indexes@[t] == index,
                decreases indexes.len() - k,
            {
                if indexes[k] == index {
                    dup = true;
                }
                k += 1;
            }
            if dup {
                proof {
                    let t = choose|t: int| 0 <= t < indexes@.len() && indexes@[t] == index;
                    assert(indexes@.contains(index));
                    lemma_selector_error_sticks(ids, av, a as int + 1);
                }
                assert(av.take(args@.len() as int) =~= av);
                return Err(concat2("duplicate expectation selector: ", text.as_str()));
            }
            proof {
                if indexes@.contains(index) {
                    let t = choose|t: int| 0 <= t < indexes@.len() && indexes@[t] == index;
                }
            }
            indexes.push(index);
            a += 1;
        }
        assert(av.take(args@.len() as int) =~= av);
    }
    let ghost idx = indexes@;
    let mut out: Vec<SelectedExpectation> = Vec::new();
    let mut k: usize = 0;
    while k < indexes.len()
        invariant
            k <= indexes.len(),
            idx == indexes@,
            forall|t: int| 0 <= t < idx.len() ==> #[trigger] idx[t] < n,
            first_problem(config.expectations@, identities@, idx, 0) == first_problem(config.expectations@, identities@, idx, k as int),
            out@.len() == k,
            forall|t: int| 0 <= t < k ==> selected_from(#[trigger] out@[t], config.expectations@, identities@, idx[t]),
        decreases indexes.len() - k,
    {
        let s = selected_expectation_at(config, identities, indexes[k])?;
        out.push(s);
        k += 1;
    }
    Ok(out)
}

pub proof fn lemma_selector_error_sticks(ids: Seq<Seq<char>>, av: Seq<Option<Seq<char>>>, k: int)
    requires
        0 <= k <= av.len(),
        selector_indexes(ids, av.take(k)) is Err,
    ensures
        selector_indexes(ids, av) == selector_indexes(ids, av.take(k)),
    decreases av.len() - k,
{
    if k < av.len() {
        assert(av.take(k + 1).drop_last() =~= av.take(k));
        lemma_selector_error_sticks(ids, av, k + 1);
    } else {
        assert(av.take(k) =~= av);
    }
}

} // verus!
