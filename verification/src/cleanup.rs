//! Cleanup of the answer cache: each configured expectation owns a directory named
//! by its id; any other entry of the cache directory is stale.

use vstd::prelude::*;
use crate::config::{CheckConfig, Expectation};
use crate::hash::{expectation_id, expectation_id_spec};
use crate::text::str_eq;

verus! {

/// The ids of the configured expectations, in configuration order.
pub open spec fn active_ids_spec(exps: Seq<Expectation>) -> Seq<Seq<char>> {
    Seq::new(exps.len(), |k: int| expectation_id_spec(exps[k].q@, exps[k].a@))
}

pub open spec fn id_views(v: Seq<String>) -> Seq<Seq<char>> {
    Seq::new(v.len(), |k: int| v[k]@)
}

pub fn active_expectation_ids(config: &CheckConfig) -> (r: Vec<String>)
    ensures
        id_views(r@) == active_ids_spec(config.expectations@),
{
    let mut ids: Vec<String> = Vec::new();
    let mut k: usize = 0;
    while k < config.expectations.len()
        invariant
            k <= config.expectations@.len(),
            id_views(ids@) == active_ids_spec(config.expectations@).take(k as int),
        decreases config.expectations.len() - k,
    {
        let e = &config.expectations[k];
        let id = expectation_id(e.q.as_str(), e.a.as_str());
        let ghost before = ids@;
        ids.push(id);
        assert(id_views(ids@) =~= id_views(before).push(ids@[k as int]@));
        assert(id_views(ids@) =~= active_ids_spec(config.expectations@).take(k + 1));
        k += 1;
    }
    assert(active_ids_spec(config.expectations@).take(k as int) =~= active_ids_spec(config.expectations@));
    ids
}

/// What a cleanup pass did.
#[derive(Clone, Copy, Debug, PartialEq, Eq, Structural)]
pub struct CacheCleanupStats {
    pub sampled: bool,
    pub removed: usize,
    pub kept: usize,
}

/// An entry is stale when its name is not text or names no active expectation.
pub open spec fn entry_is_stale(name: Option<Seq<char>>, active: Seq<Seq<char>>) -> bool {
    match name {
        None => true,
        Some(n) => !active.contains(n),
    }
}

pub open spec fn name_views(v: Seq<Option<String>>) -> Seq<Option<Seq<char>>> {
    Seq::new(v.len(), |k: int| match v[k] {
        Some(s) => Some(s@),
        None => None,
    })
}

/// How many of `names` are stale.
pub open spec fn stale_count(names: Seq<Option<Seq<char>>>, active: Seq<Seq<char>>) -> nat
    decreases names.len(),
{
    if names.len() == 0 {
        0
    } else {
        stale_count(names.drop_last(), active) + if entry_is_stale(names.last(), active) {
            1nat
        } else {
            0nat
        }
    }
}

fn is_active(name: &str, active: &Vec<String>) -> (r: bool)
    ensures
        r == id_views(active@).contains(name@),
{
    let mut k: usize = 0;
    while k < active.len()
        invariant
            k <= active@.len(),
            forall|j: int| 0 <= j < k ==> #[trigger] active@[j]@ != name@,
        decreases active.len() - k,
    {
        if str_eq(active[k].as_str(), name) {
            assert(id_views(active@)[k as int] == name@);
            return true;
        }
        k += 1;
    }
    assert forall|j: int| 0 <= j < id_views(active@).len() implies #[trigger] id_views(active@)[j] != name@ by {
        assert(active@[j]@ != name@);
    }
    false
}

/// Which entries of the cache directory to remove (`names`: each entry's name, `None`
/// where it is not text), with the counts of removed and kept entries.
pub fn stale_cache_entries(names: &Vec<Option<String>>, active: &Vec<String>) -> (r: (Vec<bool>, CacheCleanupStats))
    ensures
        r.0@.len() == names@.len(),
        forall|k: int| 0 <= k < names@.len() ==> #[trigger] r.0@[k] == entry_is_stale(name_views(names@)[k], id_views(active@)),
        r.1.sampled,
        r.1.removed == stale_count(name_views(names@), id_views(active@)),
        r.1.removed + r.1.kept == names@.len(),
{
    let ghost av = id_views(active@);
    let mut remove: Vec<bool> = Vec::new();
    let mut removed: usize = 0;
    let mut kept: usize = 0;
    let mut k: usize = 0;
    while k < names.len()
        invariant
            k <= names@.len(),
            av == id_views(active@),
            remove@.len() == k,
            forall|j: int| 0 <= j < k ==> #[trigger] remove@[j] == entry_is_stale(name_views(names@)[j], av),
            removed == stale_count(name_views(names@).take(k as int), av),
            removed + kept == k,
        decreases names.len() - k,
    {
        assert(name_views(names@).take(k + 1).drop_last() =~= name_views(names@).take(k as int));
        let stale = match &names[k] {
            None => true,
            Some(n) => !is_active(n.as_str(), active),
        };
        assert(stale == entry_is_stale(name_views(names@)[k as int], av));
        remove.push(stale);
        if stale {
            removed += 1;
        } else {
            kept += 1;
        }
        k += 1;
    }
    assert(name_views(names@).take(names@.len() as int) =~= name_views(names@));
    (remove, CacheCleanupStats { sampled: true, removed, kept })
}

} // verus!
