//! Evaluator filesystem permissions: a map from repository path patterns to `read`
//! or `none`, kept sorted by path as a `BTreeMap` would iterate it.

use vstd::prelude::*;
use crate::repo_path::{normalize_repo_path, normalize_spec};
use crate::scope::{is_full_scope, scope_is_full, scope_views};
use crate::text::{chars_of, str_eq, string_from_chars};
use crate::turns::{has_key, key_pos, keys_unique, lemma_key_pos_unique};

verus! {

/// `a` sorts before `b`: character by character by code point, a proper prefix first
/// (the order of `String`, since UTF-8 keeps code point order).
pub open spec fn seq_lt(a: Seq<char>, b: Seq<char>) -> bool
    decreases a.len(),
{
    if a.len() == 0 {
        b.len() > 0
    } else if b.len() == 0 {
        false
    } else if a[0] != b[0] {
        (a[0] as u32) < (b[0] as u32)
    } else {
        seq_lt(a.drop_first(), b.drop_first())
    }
}

pub proof fn lemma_lt_irreflexive(a: Seq<char>)
    ensures
        !seq_lt(a, a),
    decreases a.len(),
{
    if a.len() > 0 {
        lemma_lt_irreflexive(a.drop_first());
    }
}

pub proof fn lemma_lt_transitive(a: Seq<char>, b: Seq<char>, c: Seq<char>)
    requires
        seq_lt(a, b),
        seq_lt(b, c),
    ensures
        seq_lt(a, c),
    decreases a.len(),
{
    if a.len() > 0 && b.len() > 0 && c.len() > 0 && a[0] == b[0] && b[0] == c[0] {
        lemma_lt_transitive(a.drop_first(), b.drop_first(), c.drop_first());
    }
}

pub proof fn lemma_lt_total(a: Seq<char>, b: Seq<char>)
    ensures
        a == b || seq_lt(a, b) || seq_lt(b, a),
    decreases a.len(),
{
    if a.len() > 0 && b.len() > 0 && a[0] == b[0] {
        lemma_lt_total(a.drop_first(), b.drop_first());
        if a.drop_first() == b.drop_first() {
            assert(a =~= seq![a[0]] + a.drop_first());
            assert(b =~= seq![b[0]] + b.drop_first());
            assert(a =~= b);
        }
    } else if a.len() == 0 && b.len() == 0 {
        assert(a =~= b);
    } else if a.len() > 0 && b.len() > 0 {
        vstd::utf8::char_u32_cast(a[0], a[0] as u32);
        vstd::utf8::char_u32_cast(b[0], b[0] as u32);
    }
}

pub proof fn lemma_lt_asymmetric(a: Seq<char>, b: Seq<char>)
    requires
        seq_lt(a, b),
    ensures
        !seq_lt(b, a),
        a != b,
{
    if seq_lt(b, a) {
        lemma_lt_transitive(a, b, a);
        lemma_lt_irreflexive(a);
    }
    if a == b {
        lemma_lt_irreflexive(a);
    }
}

/// Whether `a` sorts before `b`.
pub fn str_lt(a: &str, b: &str) -> (r: bool)
    ensures
        r == seq_lt(a@, b@),
{
    let x = chars_of(a);
    let y = chars_of(b);
    let mut i: usize = 0;
    proof {
        assert(x@.skip(0) =~= x@);
        assert(y@.skip(0) =~= y@);
    }
    while i < x.len() && i < y.len() && x[i] == y[i]
        invariant
            i <= x.len(),
            i <= y.len(),
            seq_lt(x@, y@) == seq_lt(x@.skip(i as int), y@.skip(i as int)),
        decreases x.len() - i,
    {
        proof {
            assert(x@.skip(i as int).drop_first() =~= x@.skip(i + 1));
            assert(y@.skip(i as int).drop_first() =~= y@.skip(i + 1));
        }
        i += 1;
    }
    if i == x.len() {
        return i < y.len();
    }
    if i == y.len() {
        return false;
    }
    assert(x@.skip(i as int)[0] == x@[i as int]);
    assert(y@.skip(i as int)[0] == y@[i as int]);
    (x[i] as u32) < (y[i] as u32)
}

/// The entries are sorted by path, each path once.
pub open spec fn sorted_map(e: Seq<(String, String)>) -> bool {
    forall|i: int, j: int| 0 <= i < j < e.len() ==> seq_lt(#[trigger] e[i].0@, #[trigger] e[j].0@)
}

pub proof fn lemma_sorted_unique(e: Seq<(String, String)>)
    requires
        sorted_map(e),
    ensures
        keys_unique(e),
{
    assert forall|i: int, j: int| 0 <= i < j < e.len() implies #[trigger] e[i].0@ != #[trigger] e[j].0@ by {
        lemma_lt_asymmetric(e[i].0@, e[j].0@);
    }
}

/// The permission of path `k`, if the map has one.
pub open spec fn perm_get(e: Seq<(String, String)>, k: Seq<char>) -> Option<Seq<char>> {
    if has_key(e, k) {
        Some(e[key_pos(e, k)].1@)
    } else {
        None
    }
}

/// The position where `key` goes: before the first path that does not sort before it.
fn find_slot(e: &Vec<(String, String)>, key: &str) -> (r: (usize, bool))
    requires
        sorted_map(e@),
    ensures
        r.0 <= e@.len(),
        forall|j: int| 0 <= j < r.0 ==> seq_lt(#[trigger] e@[j].0@, key@),
        r.0 < e@.len() ==> !seq_lt(e@[r.0 as int].0@, key@),
        r.1 == (r.0 < e@.len() && e@[r.0 as int].0@ == key@),
        r.1 == has_key(e@, key@),
        r.1 ==> key_pos(e@, key@) == r.0,
{
    let mut p: usize = 0;
    while p < e.len() && str_lt(e[p].0.as_str(), key)
        invariant
            p <= e.len(),
            sorted_map(e@),
            forall|j: int| 0 <= j < p ==> seq_lt(#[trigger] e@[j].0@, key@),
        decreases e.len() - p,
    {
        p += 1;
    }
    let found = p < e.len() && str_eq(e[p].0.as_str(), key);
    proof {
        lemma_sorted_unique(e@);
        if found {
            lemma_key_pos_unique(e@, p as int);
        } else if has_key(e@, key@) {
            let t = choose|t: int| 0 <= t < e@.len() && #[trigger] e@[t].0@ == key@;
            if t < p {
                lemma_lt_irreflexive(key@);
            } else if t > p {
                assert(seq_lt(e@[p as int].0@, e@[t].0@));
                lemma_lt_total(e@[p as int].0@, key@);
            }
        }
    }
    (p, found)
}

/// Sets the permission of `key` to `value` (`BTreeMap::insert`).
pub fn perm_insert(e: &mut Vec<(String, String)>, key: String, value: String)
    requires
        sorted_map(old(e)@),
    ensures
        sorted_map(final(e)@),
        perm_get(final(e)@, key@) == Some(value@),
        forall|k: Seq<char>| k != key@ ==> #[trigger] perm_get(final(e)@, k) == perm_get(old(e)@, k),
{
    let ghost before = e@;
    let (p, found) = find_slot(e, key.as_str());
    let ghost k = key@;
    if found {
        let _ = e.remove(p);
        e.insert(p, (key, value));
        proof {
            let x = e@[p as int];
            assert(e@ =~= before.update(p as int, x));
            lemma_sorted_unique(before);
            crate::turns::lemma_replace_value(before, p as int, x);
            assert(sorted_map(e@)) by {
                assert forall|i: int, j: int| 0 <= i < j < e@.len() implies seq_lt(#[trigger] e@[i].0@, #[trigger] e@[j].0@) by {
                    assert(seq_lt(before[i].0@, before[j].0@));
                }
            }
        }
    } else {
        e.insert(p, (key, value));
        proof {
            let x = e@[p as int];
            assert(e@ =~= before.insert(p as int, x));
            assert(sorted_map(e@)) by {
                assert forall|i: int, j: int| 0 <= i < j < e@.len() implies seq_lt(#[trigger] e@[i].0@, #[trigger] e@[j].0@) by {
                    if j < p {
                        assert(seq_lt(before[i].0@, before[j].0@));
                    } else if j == p {
                        assert(seq_lt(before[i].0@, k));
                    } else if i == p {
                        let b = before[j - 1].0@;
                        if j - 1 == p {
                            lemma_lt_total(before[p as int].0@, k);
                        } else {
                            lemma_lt_total(before[p as int].0@, k);
                            assert(seq_lt(before[p as int].0@, b));
                            if seq_lt(k, before[p as int].0@) {
                                lemma_lt_transitive(k, before[p as int].0@, b);
                            }
                        }
                    } else if i < p {
                        assert(seq_lt(before[i].0@, before[j - 1].0@));
                    } else {
                        assert(seq_lt(before[i - 1].0@, before[j - 1].0@));
                    }
                }
            }
            lemma_sorted_unique(e@);
            lemma_sorted_unique(before);
            lemma_key_pos_unique(e@, p as int);
            assert forall|kk: Seq<char>| kk != k implies #[trigger] perm_get(e@, kk) == perm_get(before, kk) by {
                if has_key(before, kk) {
                    let t = key_pos(before, kk);
                    lemma_key_pos_unique(before, t);
                    let t2 = if t < p { t } else { t + 1 };
                    assert(e@[t2].0@ == kk);
                    lemma_key_pos_unique(e@, t2);
                }
                if has_key(e@, kk) {
                    let t = choose|t: int| 0 <= t < e@.len() && #[trigger] e@[t].0@ == kk;
                    let t0 = if t < p { t } else { t - 1 };
                    assert(before[t0].0@ == kk);
                }
            }
        }
    }
}

/// Gives `key` the permission `value` unless it already has one
/// (`BTreeMap::entry(..).or_insert(..)`).
pub fn perm_insert_absent(e: &mut Vec<(String, String)>, key: String, value: String)
    requires
        sorted_map(old(e)@),
    ensures
        sorted_map(final(e)@),
        perm_get(final(e)@, key@) == if perm_get(old(e)@, key@) is Some {
            perm_get(old(e)@, key@)
        } else {
            Some(value@)
        },
        forall|k: Seq<char>| k != key@ ==> #[trigger] perm_get(final(e)@, k) == perm_get(old(e)@, k),
{
    let (_, found) = find_slot(e, key.as_str());
    if !found {
        perm_insert(e, key, value);
    }
}

/// The scope's ancestor directories, nearest first (the prefixes before each `/`,
/// from the last).
pub open spec fn ancestors(path: Seq<char>) -> Seq<Seq<char>>
    decreases path.len(),
{
    if path.len() == 0 {
        Seq::empty()
    } else if path.last() == '/' {
        seq![path.drop_last()] + ancestors(path.drop_last())
    } else {
        ancestors(path.drop_last())
    }
}

proof fn lemma_ancestors_shorter(s: Seq<char>)
    ensures
        forall|t: int| 0 <= t < ancestors(s).len() ==> (#[trigger] ancestors(s)[t]).len() < s.len(),
    decreases s.len(),
{
    if s.len() > 0 {
        lemma_ancestors_shorter(s.drop_last());
        let a = ancestors(s);
        let r = ancestors(s.drop_last());
        if s.last() == '/' {
            assert forall|t: int| 0 <= t < a.len() implies (#[trigger] a[t]).len() < s.len() by {
                if t > 0 {
                    assert(a[t] == r[t - 1]);
                }
            }
        }
    }
}

proof fn lemma_ancestors_prefix(s: Seq<char>, n: int)
    requires
        0 <= n <= s.len(),
    ensures
        forall|x: Seq<char>| ancestors(s.take(n)).contains(x) ==> #[trigger] ancestors(s).contains(x),
    decreases s.len() - n,
{
    if n < s.len() {
        assert(s.drop_last().take(n) =~= s.take(n));
        lemma_ancestors_prefix(s.drop_last(), n);
        let a = ancestors(s);
        let r = ancestors(s.drop_last());
        assert forall|x: Seq<char>| ancestors(s.take(n)).contains(x) implies #[trigger] a.contains(x) by {
            assert(r.contains(x));
            let t = choose|t: int| 0 <= t < r.len() && #[trigger] r[t] == x;
            if s.last() == '/' {
                assert(a[t + 1] == x);
            } else {
                assert(a[t] == x);
            }
        }
    } else {
        assert(s.take(n) =~= s);
    }
}

/// Adds `read` for every ancestor directory of `path` that has no permission yet.
pub fn allow_scope_ancestor_directories(root_permissions: &mut Vec<(String, String)>, path: &str)
    requires
        sorted_map(old(root_permissions)@),
    ensures
        sorted_map(final(root_permissions)@),
        forall|k: Seq<char>| #[trigger] perm_get(final(root_permissions)@, k) == if perm_get(old(root_permissions)@, k) is Some {
            perm_get(old(root_permissions)@, k)
        } else if ancestors(path@).contains(k) {
            Some("read"@)
        } else {
            None
        },
{
    let v = chars_of(path);
    let mut end = v.len();
    let ghost start = root_permissions@;
    proof {
        assert(v@.take(end as int) =~= path@);
    }
    while end > 0
        invariant
            end <= v.len(),
            v@ == path@,
            sorted_map(root_permissions@),
            forall|k: Seq<char>| #[trigger] perm_get(root_permissions@, k) == if perm_get(start, k) is Some {
                perm_get(start, k)
            } else if ancestors(path@).contains(k) && !ancestors(v@.take(end as int)).contains(k) {
                Some("read"@)
            } else {
                None
            },
        decreases end,
    {
        let ghost cur = v@.take(end as int);
        assert(cur.drop_last() =~= v@.take(end - 1));
        if v[end - 1] == '/' {
            let parent = string_from_chars(&v, 0, end - 1);
            assert(parent@ =~= cur.drop_last());
            let ghost before = root_permissions@;
            perm_insert_absent(root_permissions, parent, String::from_str("read"));
            proof {
                reveal_strlit("read");
                assert forall|k: Seq<char>| #[trigger] perm_get(root_permissions@, k) == if perm_get(start, k) is Some {
                    perm_get(start, k)
                } else if ancestors(path@).contains(k) && !ancestors(v@.take(end - 1)).contains(k) {
                    Some("read"@)
                } else {
                    None
                } by {
                    let anc = ancestors(cur);
                    assert(anc == seq![cur.drop_last()] + ancestors(v@.take(end - 1)));
                    if k == cur.drop_last() {
                        assert(anc[0] == k);
                        lemma_ancestors_prefix(path@, end as int);
                        assert(ancestors(path@).contains(k));
                        lemma_ancestors_shorter(v@.take(end - 1));
                        if ancestors(v@.take(end - 1)).contains(k) {
                            let t = choose|t: int| 0 <= t < ancestors(v@.take(end - 1)).len() && #[trigger] ancestors(v@.take(end - 1))[t] == k;
                        }
                    } else {
                        let rest = ancestors(v@.take(end - 1));
                        if rest.contains(k) {
                            let t = choose|t: int| 0 <= t < rest.len() && #[trigger] rest[t] == k;
                            assert(anc[t + 1] == k);
                        }
                        if anc.contains(k) {
                            let t = choose|t: int| 0 <= t < anc.len() && #[trigger] anc[t] == k;
                            assert(rest[t - 1] == k);
                        }
                    }
                }
            }
        } else {
            proof {
                assert(ancestors(cur) == ancestors(v@.take(end - 1)));
            }
        }
        end -= 1;
    }
    proof {
        assert(v@.take(0) =~= Seq::<char>::empty());
    }
}


pub open spec fn string_views(v: Seq<String>) -> Seq<Seq<char>> {
    Seq::new(v.len(), |i: int| v[i]@)
}

/// `v` with `x` added at the end unless it is already there.
pub open spec fn push_unique_spec(v: Seq<Seq<char>>, x: Seq<char>) -> Seq<Seq<char>> {
    if v.contains(x) {
        v
    } else {
        v.push(x)
    }
}

/// Adds a pattern unless it is already listed.
pub fn push_unique_permission_pattern(patterns: &mut Vec<String>, pattern: String)
    ensures
        string_views(final(patterns)@) == push_unique_spec(string_views(old(patterns)@), pattern@),
{
    let mut i: usize = 0;
    while i < patterns.len()
        invariant
            i <= patterns.len(),
            forall|j: int| 0 <= j < i ==> #[trigger] patterns@[j]@ != pattern@,
        decreases patterns.len() - i,
    {
        if str_eq(patterns[i].as_str(), pattern.as_str()) {
            assert(string_views(patterns@)[i as int] == pattern@);
            return;
        }
        i += 1;
    }
    let ghost before = string_views(patterns@);
    assert(!before.contains(pattern@)) by {
        if before.contains(pattern@) {
            let t = choose|t: int| 0 <= t < before.len() && before[t] == pattern@;
            assert(patterns@[t]@ == pattern@);
        }
    }
    patterns.push(pattern);
    assert(string_views(patterns@) =~= before.push(pattern@));
}

/// `/**`.
pub open spec fn recursive_suffix() -> Seq<char> {
    seq!['/', '*', '*']
}

/// The deny patterns for the effective ignore patterns `p[..k]`: each in normal form
/// when it has one, a recursive pattern preceded by its directory, each once.
pub open spec fn deny_patterns_spec(p: Seq<Seq<char>>, k: int) -> Seq<Seq<char>>
    decreases k,
{
    if k <= 0 || k > p.len() {
        Seq::empty()
    } else {
        let prev = deny_patterns_spec(p, k - 1);
        let n = match normalize_spec(p[k - 1]) {
            Ok(x) => x,
            Err(_) => p[k - 1],
        };
        let with_dir = if n.len() >= 3 && n.skip(n.len() - 3) == recursive_suffix() {
            push_unique_spec(prev, n.take(n.len() - 3))
        } else {
            prev
        };
        push_unique_spec(with_dir, n)
    }
}

/// The paths the evaluator may not read, from the effective ignore patterns.
pub fn evaluator_deny_permission_patterns(ignore_patterns: &Vec<String>) -> (r: Vec<String>)
    ensures
        string_views(r@) == deny_patterns_spec(string_views(ignore_patterns@), ignore_patterns@.len() as int),
{
    let ghost pv = string_views(ignore_patterns@);
    let mut patterns: Vec<String> = Vec::new();
    let mut i: usize = 0;
    while i < ignore_patterns.len()
        invariant
            i <= ignore_patterns.len(),
            pv == string_views(ignore_patterns@),
            string_views(patterns@) == deny_patterns_spec(pv, i as int),
        decreases ignore_patterns.len() - i,
    {
        let raw = ignore_patterns[i].as_str();
        assert(pv[i as int] == raw@);
        let pattern = match normalize_repo_path(raw) {
            Ok(n) => n,
            Err(_) => String::from_str(raw),
        };
        let v = chars_of(pattern.as_str());
        let n = v.len();
        if n >= 3 && v[n - 3] == '/' && v[n - 2] == '*' && v[n - 1] == '*' {
            assert(v@.skip(n - 3) =~= recursive_suffix());
            let prefix = string_from_chars(&v, 0, n - 3);
            assert(prefix@ =~= v@.take(n - 3));
            push_unique_permission_pattern(&mut patterns, prefix);
        } else {
            assert(!(v@.len() >= 3 && v@.skip(v@.len() - 3) == recursive_suffix())) by {
                if v@.len() >= 3 && v@.skip(v@.len() - 3) == recursive_suffix() {
                    assert(v@.skip(v@.len() - 3)[0] == v@[n - 3]);
                    assert(v@.skip(v@.len() - 3)[1] == v@[n - 2]);
                    assert(v@.skip(v@.len() - 3)[2] == v@[n - 1]);
                }
            }
        }
        push_unique_permission_pattern(&mut patterns, pattern);
        i += 1;
    }
    patterns
}

/// Every deny pattern is given `none`, whatever it had.
pub fn deny_evaluator_project_paths(root_permissions: &mut Vec<(String, String)>, deny_patterns: &Vec<String>)
    requires
        sorted_map(old(root_permissions)@),
    ensures
        sorted_map(final(root_permissions)@),
        forall|k: Seq<char>| #[trigger] perm_get(final(root_permissions)@, k) == if string_views(deny_patterns@).contains(k) {
            Some("none"@)
        } else {
            perm_get(old(root_permissions)@, k)
        },
{
    let ghost start = root_permissions@;
    let ghost dv = string_views(deny_patterns@);
    let mut i: usize = 0;
    while i < deny_patterns.len()
        invariant
            i <= deny_patterns.len(),
            dv == string_views(deny_patterns@),
            sorted_map(root_permissions@),
            forall|k: Seq<char>| #[trigger] perm_get(root_permissions@, k) == if dv.take(i as int).contains(k) {
                Some("none"@)
            } else {
                perm_get(start, k)
            },
        decreases deny_patterns.len() - i,
    {
        let pattern = deny_patterns[i].clone();
        assert(dv[i as int] == pattern@);
        perm_insert(root_permissions, pattern, String::from_str("none"));
        proof {
            assert forall|k: Seq<char>| #[trigger] perm_get(root_permissions@, k) == if dv.take(i + 1).contains(k) {
                Some("none"@)
            } else {
                perm_get(start, k)
            } by {
                let a = dv.take(i + 1);
                let b = dv.take(i as int);
                if a.contains(k) && k != dv[i as int] {
                    let t = choose|t: int| 0 <= t < a.len() && #[trigger] a[t] == k;
                    assert(b[t] == k);
                }
                if b.contains(k) {
                    let t = choose|t: int| 0 <= t < b.len() && #[trigger] b[t] == k;
                    assert(a[t] == k);
                }
                if k == dv[i as int] {
                    assert(dv.take(i + 1)[i as int] == k);
                }
            }
        }
        i += 1;
    }
    assert(dv.take(deny_patterns.len() as int) =~= dv);
}

/// The permissions of the evaluator's startup: the repository unreadable but for
/// nothing, and every deny pattern `none`.
pub fn evaluator_startup_root_permissions(deny_patterns: &Vec<String>) -> (r: Vec<(String, String)>)
    ensures
        sorted_map(r@),
        forall|k: Seq<char>| #[trigger] perm_get(r@, k) == if string_views(deny_patterns@).contains(k) || k == "."@ {
            Some("none"@)
        } else {
            None
        },
{
    let mut m: Vec<(String, String)> = Vec::new();
    assert(sorted_map(m@));
    let ghost empty = m@;
    perm_insert(&mut m, String::from_str("."), String::from_str("none"));
    deny_evaluator_project_paths(&mut m, deny_patterns);
    proof {
        assert forall|k: Seq<char>| !has_key(empty, k) by {}
    }
    m
}

/// The scope paths, each with its recursive pattern.
pub open spec fn in_scope_pattern(scope: Seq<Seq<char>>, k: Seq<char>) -> bool {
    exists|i: int| 0 <= i < scope.len() && (k == #[trigger] scope[i] || k == scope[i] + recursive_suffix())
}

/// The permissions of one evaluator thread: the whole repository readable for the
/// full scope; otherwise nothing but the scope's paths, their contents and their
/// ancestor directories; deny patterns `none` in every case.
pub fn evaluator_thread_root_permissions(deny_patterns: &Vec<String>, scope: &Vec<String>) -> (r: Vec<(String, String)>)
    ensures
        sorted_map(r@),
        forall|k: Seq<char>| string_views(deny_patterns@).contains(k) ==> #[trigger] perm_get(r@, k) == Some("none"@),
        !string_views(deny_patterns@).contains("."@) ==> perm_get(r@, "."@) == if is_full_scope(scope_views(scope@)) {
            Some("read"@)
        } else if in_scope_pattern(scope_views(scope@), "."@) {
            Some("read"@)
        } else {
            Some("none"@)
        },
        !is_full_scope(scope_views(scope@)) ==> forall|k: Seq<char>|
            in_scope_pattern(scope_views(scope@), k) && !string_views(deny_patterns@).contains(k) ==> #[trigger] perm_get(
                r@,
                k,
            ) == Some("read"@),
        forall|k: Seq<char>| #[trigger] perm_get(r@, k) is Some ==> (k == "."@ || string_views(deny_patterns@).contains(k)
            || (!is_full_scope(scope_views(scope@)) && (in_scope_pattern(scope_views(scope@), k) || exists|i: int|
            0 <= i < scope@.len() && ancestors(#[trigger] scope@[i]@).contains(k)))),
{
    let ghost sv = scope_views(scope@);
    let mut m: Vec<(String, String)> = Vec::new();
    assert(sorted_map(m@));
    let ghost empty = m@;
    let full = scope_is_full(scope);
    if full {
        perm_insert(&mut m, String::from_str("."), String::from_str("read"));
    } else {
        perm_insert(&mut m, String::from_str("."), String::from_str("none"));
        let mut i: usize = 0;
        while i < scope.len()
            invariant
                i <= scope.len(),
                sv == scope_views(scope@),
                sorted_map(m@),
                !is_full_scope(sv),
                forall|k: Seq<char>| in_scope_pattern(sv.take(i as int), k) ==> #[trigger] perm_get(m@, k) == Some("read"@),
                forall|k: Seq<char>| !in_scope_pattern(sv.take(i as int), k) && k == "."@ ==> #[trigger] perm_get(m@, k) == Some("none"@),
                forall|k: Seq<char>| #[trigger] perm_get(m@, k) is Some ==> (k == "."@ || in_scope_pattern(sv.take(i as int), k)
                    || exists|j: int| 0 <= j < i && ancestors(#[trigger] scope@[j]@).contains(k)),
            decreases scope.len() - i,
        {
            let path = &scope[i];
            assert(sv[i as int] == path@);
            let ghost m0 = m@;
            allow_scope_ancestor_directories(&mut m, path.as_str());
            let ghost m1 = m@;
            perm_insert(&mut m, path.clone(), String::from_str("read"));
            let ghost m2 = m@;
            let mut rec = path.clone();
            rec.append("/**");
            proof {
                reveal_strlit("/**");
                assert(rec@ =~= path@ + recursive_suffix());
            }
            perm_insert(&mut m, rec, String::from_str("read"));
            proof {
                let st = sv.take(i + 1);
                assert(st =~= sv.take(i as int).push(path@));
                assert forall|k: Seq<char>| in_scope_pattern(st, k) implies #[trigger] perm_get(m@, k) == Some("read"@) by {
                    let j = choose|j: int| 0 <= j < st.len() && (k == #[trigger] st[j] || k == st[j] + recursive_suffix());
                    if j < i {
                        assert(sv.take(i as int)[j] == st[j]);
                        assert(in_scope_pattern(sv.take(i as int), k));
                        if k != path@ && k != path@ + recursive_suffix() {
                            assert(perm_get(m1, k) == perm_get(m0, k)) by {
                                if perm_get(m0, k) is None {
                                    assert(perm_get(m0, k) is Some);
                                }
                            }
                        }
                    }
                }
                assert forall|k: Seq<char>| !in_scope_pattern(st, k) && k == "."@ implies #[trigger] perm_get(m@, k) == Some("none"@) by {
                    assert(k != path@) by {
                        if k == path@ {
                            assert(st[i as int] == path@);
                            assert(in_scope_pattern(st, k));
                        }
                    }
                    assert(k != path@ + recursive_suffix()) by {
                        if k == path@ + recursive_suffix() {
                            assert(st[i as int] == path@);
                            assert(in_scope_pattern(st, k));
                        }
                    }
                    assert(!in_scope_pattern(sv.take(i as int), k)) by {
                        if in_scope_pattern(sv.take(i as int), k) {
                            let j = choose|j: int| 0 <= j < sv.take(i as int).len() && (k == #[trigger] sv.take(i as int)[j] || k == sv.take(i as int)[j] + recursive_suffix());
                            assert(st[j] == sv.take(i as int)[j]);
                        }
                    }
                }
                assert forall|k: Seq<char>| #[trigger] perm_get(m@, k) is Some implies (k == "."@ || in_scope_pattern(st, k)
                    || exists|j: int| 0 <= j < i + 1 && ancestors(#[trigger] scope@[j]@).contains(k)) by {
                    if k == path@ {
                        assert(st[i as int] == path@);
                    } else if k == path@ + recursive_suffix() {
                        assert(st[i as int] == path@);
                    } else if perm_get(m0, k) is Some {
                        if in_scope_pattern(sv.take(i as int), k) {
                            let j = choose|j: int| 0 <= j < sv.take(i as int).len() && (k == #[trigger] sv.take(i as int)[j] || k == sv.take(i as int)[j] + recursive_suffix());
                            assert(st[j] == sv.take(i as int)[j]);
                        }
                    } else {
                        assert(ancestors(scope@[i as int]@).contains(k));
                    }
                }
            }
            i += 1;
        }
        assert(sv.take(scope.len() as int) =~= sv);
    }
    let ghost before_deny = m@;
    deny_evaluator_project_paths(&mut m, deny_patterns);
    proof {
        reveal_strlit(".");
        assert forall|k: Seq<char>| !has_key(empty, k) by {}
        if full {
            assert forall|k: Seq<char>| #[trigger] perm_get(m@, k) is Some implies (k == "."@ || string_views(deny_patterns@).contains(k)
                || (!is_full_scope(sv) && (in_scope_pattern(sv, k) || exists|i: int|
                0 <= i < scope@.len() && ancestors(#[trigger] scope@[i]@).contains(k)))) by {
            }
        }
    }
    m
}

/// The features turned off in the evaluator's app server: plugins unless they are
/// loaded, the fixed list, and the freeform patch tool.
pub open spec fn disabled_features_spec(load_plugins: bool) -> Seq<Seq<char>> {
    (if load_plugins {
        Seq::empty()
    } else {
        seq!["plugins"@]
    }) + disabled_feature_list() + seq!["apply_patch_freeform"@]
}

/// Features that would give the evaluator more than read-only shell access.
pub open spec fn disabled_feature_list() -> Seq<Seq<char>> {
    seq![
        "apps"@,
        "browser_use"@,
        "browser_use_external"@,
        "computer_use"@,
        "fast_mode"@,
        "guardian_approval"@,
        "hooks"@,
        "image_generation"@,
        "in_app_browser"@,
        "multi_agent"@,
        "personality"@,
        "plugin_hooks"@,
        "shell_snapshot"@,
        "skill_mcp_dependency_install"@,
        "terminal_resize_reflow"@,
        "tool_call_mcp_elicitation"@,
        "tool_search"@,
        "tool_suggest"@,
        "unavailable_dummy_tools"@,
        "unified_exec"@,
        "workspace_dependencies"@,
    ]
}

fn disabled_feature_names() -> (r: Vec<&'static str>)
    ensures
        Seq::new(r@.len(), |i: int| r@[i]@) == disabled_feature_list(),
{
    let r = vec![
        "apps",
        "browser_use",
        "browser_use_external",
        "computer_use",
        "fast_mode",
        "guardian_approval",
        "hooks",
        "image_generation",
        "in_app_browser",
        "multi_agent",
        "personality",
        "plugin_hooks",
        "shell_snapshot",
        "skill_mcp_dependency_install",
        "terminal_resize_reflow",
        "tool_call_mcp_elicitation",
        "tool_search",
        "tool_suggest",
        "unavailable_dummy_tools",
        "unified_exec",
        "workspace_dependencies",
    ];
    assert(Seq::new(r@.len(), |i: int| r@[i]@) =~= disabled_feature_list());
    r
}

pub fn evaluator_disabled_app_server_features(load_plugins: bool) -> (r: Vec<&'static str>)
    ensures
        Seq::new(r@.len(), |i: int| r@[i]@) == disabled_features_spec(load_plugins),
{
    let mut features: Vec<&'static str> = Vec::new();
    if !load_plugins {
        features.push("plugins");
    }
    let fixed = disabled_feature_names();
    let ghost head = Seq::new(features@.len(), |i: int| features@[i]@);
    let mut i: usize = 0;
    while i < fixed.len()
        invariant
            i <= fixed.len(),
            Seq::new(fixed@.len(), |j: int| fixed@[j]@) == disabled_feature_list(),
            head == (if load_plugins {
                Seq::<Seq<char>>::empty()
            } else {
                seq!["plugins"@]
            }),
            Seq::new(features@.len(), |j: int| features@[j]@) == head + disabled_feature_list().take(i as int),
        decreases fixed.len() - i,
    {
        let ghost prev = Seq::new(features@.len(), |j: int| features@[j]@);
        assert(disabled_feature_list()[i as int] == fixed@[i as int]@);
        features.push(fixed[i]);
        assert(Seq::new(features@.len(), |j: int| features@[j]@) =~= prev.push(fixed@[i as int]@));
        assert(disabled_feature_list().take(i + 1) =~= disabled_feature_list().take(i as int).push(disabled_feature_list()[i as int]));
        assert(Seq::new(features@.len(), |j: int| features@[j]@) =~= head + disabled_feature_list().take(i + 1));
        i += 1;
    }
    let ghost prev = Seq::new(features@.len(), |j: int| features@[j]@);
    features.push("apply_patch_freeform");
    assert(Seq::new(features@.len(), |j: int| features@[j]@) =~= prev.push("apply_patch_freeform"@));
    assert(disabled_feature_list().take(21) =~= disabled_feature_list());
    assert(Seq::new(features@.len(), |j: int| features@[j]@) =~= disabled_features_spec(load_plugins));
    features
}

/// Adds one `-c` configuration override.
pub fn push_config_arg(args: &mut Vec<String>, value: &str)
    ensures
        string_views(final(args)@) == string_views(old(args)@) + seq!["-c"@, value@],
{
    args.push(String::from_str("-c"));
    args.push(String::from_str(value));
    assert(string_views(args@) =~= string_views(old(args)@) + seq!["-c"@, value@]);
}

/// The overrides that keep the evaluator's context to canon's own instructions.
pub open spec fn isolation_values() -> Seq<Seq<char>> {
    seq![
        "include_environment_context=false"@,
        "include_permissions_instructions=false"@,
        "include_apps_instructions=false"@,
        "include_apply_patch_tool=false"@,
        "experimental_use_freeform_apply_patch=false"@,
    ] + Seq::new(disabled_feature_list().len(), |i: int| "features."@ + disabled_feature_list()[i] + "=false"@)
        + seq!["features.apply_patch_freeform=false"@, "project_doc_max_bytes=0"@]
}

/// Each value preceded by `-c`.
pub open spec fn as_config_args(values: Seq<Seq<char>>) -> Seq<Seq<char>>
    decreases values.len(),
{
    if values.len() == 0 {
        Seq::empty()
    } else {
        as_config_args(values.drop_last()) + seq!["-c"@, values.last()]
    }
}

pub fn push_evaluator_context_isolation_args(args: &mut Vec<String>)
    ensures
        string_views(final(args)@) == string_views(old(args)@) + as_config_args(isolation_values()),
{
    let ghost base = string_views(args@);
    let ghost vals = isolation_values();
    push_config_arg(args, "include_environment_context=false");
    push_config_arg(args, "include_permissions_instructions=false");
    push_config_arg(args, "include_apps_instructions=false");
    push_config_arg(args, "include_apply_patch_tool=false");
    push_config_arg(args, "experimental_use_freeform_apply_patch=false");
    proof {
        assert(vals.take(5) =~= seq![
            "include_environment_context=false"@,
            "include_permissions_instructions=false"@,
            "include_apps_instructions=false"@,
            "include_apply_patch_tool=false"@,
            "experimental_use_freeform_apply_patch=false"@,
        ]);
        reveal_with_fuel(as_config_args, 6);
        assert(string_views(args@) =~= base + as_config_args(vals.take(5)));
    }
    let fixed = disabled_feature_names();
    let mut i: usize = 0;
    while i < fixed.len()
        invariant
            i <= fixed.len() == 21,
            Seq::new(fixed@.len(), |j: int| fixed@[j]@) == disabled_feature_list(),
            vals == isolation_values(),
            string_views(args@) == base + as_config_args(vals.take(5 + i)),
        decreases fixed.len() - i,
    {
        let mut value = String::from_str("features.");
        value.append(fixed[i]);
        value.append("=false");
        assert(fixed@[i as int]@ == disabled_feature_list()[i as int]);
        assert(vals[5 + i] == value@);
        push_config_arg(args, value.as_str());
        assert(vals.take(5 + i + 1).drop_last() =~= vals.take(5 + i));
        i += 1;
    }
    push_config_arg(args, "features.apply_patch_freeform=false");
    assert(vals.take(27).drop_last() =~= vals.take(26));
    push_config_arg(args, "project_doc_max_bytes=0");
    assert(vals.take(28).drop_last() =~= vals.take(27));
    assert(vals.take(28) =~= vals);
}

/// The model slugs of the evaluator's catalog: the primary model, then the
/// fallbacks, each once.
pub open spec fn catalog_slugs_spec(primary: Option<Seq<char>>, fallbacks: Seq<Seq<char>>) -> Seq<Seq<char>>
    decreases fallbacks.len(),
{
    if fallbacks.len() == 0 {
        match primary {
            Some(p) => seq![p],
            None => Seq::empty(),
        }
    } else {
        push_unique_spec(catalog_slugs_spec(primary, fallbacks.drop_last()), fallbacks.last())
    }
}

pub fn push_unique_model_slug(models: &mut Vec<String>, model: &str)
    ensures
        string_views(final(models)@) == push_unique_spec(string_views(old(models)@), model@),
{
    push_unique_permission_pattern(models, String::from_str(model));
}

pub fn evaluator_model_catalog_slugs(agent: &crate::config::AgentConfig) -> (r: Vec<String>)
    ensures
        string_views(r@) == catalog_slugs_spec(
            crate::sessions::opt_string_view(agent.model.primary),
            string_views(agent.model.fallbacks@),
        ),
{
    let mut models: Vec<String> = Vec::new();
    if let Some(model) = &agent.model.primary {
        push_unique_model_slug(&mut models, model.as_str());
        assert(string_views(models@) =~= seq![model@]);
    } else {
        assert(string_views(models@) =~= Seq::<Seq<char>>::empty());
    }
    let ghost fv = string_views(agent.model.fallbacks@);
    let mut i: usize = 0;
    while i < agent.model.fallbacks.len()
        invariant
            i <= agent.model.fallbacks.len(),
            fv == string_views(agent.model.fallbacks@),
            string_views(models@) == catalog_slugs_spec(crate::sessions::opt_string_view(agent.model.primary), fv.take(i as int)),
        decreases agent.model.fallbacks.len() - i,
    {
        assert(fv.take(i + 1).drop_last() =~= fv.take(i as int));
        assert(fv[i as int] == agent.model.fallbacks@[i as int]@);
        push_unique_model_slug(&mut models, agent.model.fallbacks[i].as_str());
        i += 1;
    }
    assert(fv.take(agent.model.fallbacks.len() as int) =~= fv);
    models
}

/// The evaluator thread-reuse settings.
pub struct ThreadReuseConfig {
    pub carryover_token_target: crate::protocol::CarryoverTokenTarget,
}

/// `thread_reuse.carryover_token_target=[min,max]`.
pub fn thread_reuse_carryover_token_target_arg(config: &ThreadReuseConfig) -> (r: String)
    ensures
        r@ == "thread_reuse.carryover_token_target=["@ + crate::text::decimal(
            config.carryover_token_target.min as nat,
        ) + ","@ + crate::text::decimal(config.carryover_token_target.max as nat) + "]"@,
{
    let mut s = String::from_str("thread_reuse.carryover_token_target=[");
    crate::text::push_decimal(&mut s, config.carryover_token_target.min);
    s.append(",");
    crate::text::push_decimal(&mut s, config.carryover_token_target.max);
    s.append("]");
    s
}

/// The arguments of the evaluator's app server: the subcommand, each disabled
/// feature, the startup overrides, and the stdio listener.
pub fn app_server_args(load_plugins: bool, startup_config_args: &Vec<String>) -> (r: Vec<String>)
    ensures
        string_views(r@) == seq!["app-server"@] + as_disable_args(disabled_features_spec(load_plugins))
            + string_views(startup_config_args@) + seq!["--listen"@, "stdio://"@],
{
    let mut args: Vec<String> = Vec::new();
    args.push(String::from_str("app-server"));
    let features = evaluator_disabled_app_server_features(load_plugins);
    let ghost fv = Seq::new(features@.len(), |i: int| features@[i]@);
    let mut i: usize = 0;
    assert(string_views(args@) =~= seq!["app-server"@] + as_disable_args(fv.take(0)));
    while i < features.len()
        invariant
            i <= features.len(),
            fv == Seq::new(features@.len(), |j: int| features@[j]@),
            string_views(args@) == seq!["app-server"@] + as_disable_args(fv.take(i as int)),
        decreases features.len() - i,
    {
        let ghost prev = string_views(args@);
        let d = String::from_str("--disable");
        let f = String::from_str(features[i]);
        assert(f@ == fv[i as int]);
        args.push(d);
        args.push(f);
        assert(string_views(args@) =~= prev + seq!["--disable"@, fv[i as int]]);
        assert(fv.take(i + 1).drop_last() =~= fv.take(i as int));
        assert(string_views(args@) =~= seq!["app-server"@] + as_disable_args(fv.take(i + 1)));
        i += 1;
    }
    assert(fv.take(features.len() as int) =~= fv);
    let ghost head = string_views(args@);
    let mut k: usize = 0;
    while k < startup_config_args.len()
        invariant
            k <= startup_config_args.len(),
            string_views(args@) == head + string_views(startup_config_args@).take(k as int),
        decreases startup_config_args.len() - k,
    {
        let ghost prev = string_views(args@);
        let a = startup_config_args[k].clone();
        args.push(a);
        assert(string_views(args@) =~= prev.push(string_views(startup_config_args@)[k as int]));
        assert(string_views(args@) =~= head + string_views(startup_config_args@).take(k + 1));
        k += 1;
    }
    assert(string_views(startup_config_args@).take(k as int) =~= string_views(startup_config_args@));
    args.push(String::from_str("--listen"));
    args.push(String::from_str("stdio://"));
    assert(string_views(args@) =~= head + string_views(startup_config_args@) + seq!["--listen"@, "stdio://"@]);
    args
}

/// Each feature preceded by `--disable`.
pub open spec fn as_disable_args(features: Seq<Seq<char>>) -> Seq<Seq<char>>
    decreases features.len(),
{
    if features.len() == 0 {
        Seq::empty()
    } else {
        as_disable_args(features.drop_last()) + seq!["--disable"@, features.last()]
    }
}

} // verus!
