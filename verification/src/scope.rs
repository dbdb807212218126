//! Evaluator scopes: lists of repository paths, where `.` is the whole repository.

use vstd::prelude::*;
use crate::text::{chars_eq, chars_of, chars_starts_with, str_eq};

verus! {

pub open spec fn root_path() -> Seq<char> {
    seq!['.']
}

/// Path `outer` covers path `inner`: `outer` is the repository root, the same path,
/// or a directory above `inner`.
pub open spec fn path_covers(outer: Seq<char>, inner: Seq<char>) -> bool {
    ||| outer == root_path()
    ||| inner == outer
    ||| (inner.len() > outer.len() && inner.take(outer.len() as int) == outer && inner[outer.len() as int]
        == '/')
}

/// Every path of `inner` is covered by some path of `outer`.
pub open spec fn scope_within(inner: Seq<Seq<char>>, outer: Seq<Seq<char>>) -> bool {
    forall|i: int| 0 <= i < inner.len() ==> #[trigger] covered(outer, inner[i])
}

/// Some path of `outer` covers `p`.
pub open spec fn covered(outer: Seq<Seq<char>>, p: Seq<char>) -> bool {
    exists|j: int| 0 <= j < outer.len() && #[trigger] path_covers(outer[j], p)
}

pub open spec fn scope_views(v: Seq<String>) -> Seq<Seq<char>> {
    Seq::new(v.len(), |i: int| v[i]@)
}

/// The whole-repository scope `["."]`.
pub open spec fn is_full_scope(v: Seq<Seq<char>>) -> bool {
    v.len() == 1 && v[0] == root_path()
}

pub fn path_covers_exec(outer: &str, inner: &str) -> (r: bool)
    ensures
        r == path_covers(outer@, inner@),
{
    let o = chars_of(outer);
    let i = chars_of(inner);
    if o.len() == 1 && o[0] == '.' {
        assert(o@ =~= root_path());
        return true;
    }
    proof {
        if o@ == root_path() {
            assert(o@[0] == '.');
        }
    }
    if chars_eq(&o, &i) {
        return true;
    }
    if i.len() > o.len() && chars_starts_with(&i, &o) {
        return i[o.len()] == '/';
    }
    assert(!(i@.len() > o@.len() && i@.take(o@.len() as int) == o@)) by {
        if i@.len() > o@.len() && i@.take(o@.len() as int) == o@ {
            assert(i@.subrange(0, o@.len() as int) == i@.take(o@.len() as int));
        }
    }
    false
}

/// Whether some path of `outer` covers `path`.
pub fn scope_covers_path(outer: &Vec<String>, path: &str) -> (r: bool)
    ensures
        r == covered(scope_views(outer@), path@),
{
    let mut j: usize = 0;
    while j < outer.len()
        invariant
            j <= outer.len(),
            forall|k: int| 0 <= k < j ==> !#[trigger] path_covers(scope_views(outer@)[k], path@),
        decreases outer.len() - j,
    {
        if path_covers_exec(outer[j].as_str(), path) {
            assert(path_covers(scope_views(outer@)[j as int], path@));
            return true;
        }
        j += 1;
    }
    false
}

/// Whether every path of `inner` is covered by a path of `outer`.
pub fn scope_is_within(inner: &Vec<String>, outer: &Vec<String>) -> (r: bool)
    ensures
        r == scope_within(scope_views(inner@), scope_views(outer@)),
{
    let ghost iv = scope_views(inner@);
    let ghost ov = scope_views(outer@);
    let mut i: usize = 0;
    while i < inner.len()
        invariant
            i <= inner.len(),
            iv == scope_views(inner@),
            ov == scope_views(outer@),
            forall|k: int| 0 <= k < i ==> #[trigger] covered(ov, iv[k]),
        decreases inner.len() - i,
    {
        if !scope_covers_path(outer, inner[i].as_str()) {
            assert(iv[i as int] == inner@[i as int]@);
            return false;
        }
        assert(iv[i as int] == inner@[i as int]@);
        i += 1;
    }
    true
}

/// Every scope is within itself.
pub proof fn lemma_scope_within_self(v: Seq<Seq<char>>)
    ensures
        scope_within(v, v),
{
    assert forall|i: int| 0 <= i < v.len() implies #[trigger] covered(v, v[i]) by {
        assert(path_covers(v[i], v[i]));
    }
}

/// Every scope is within the whole repository.
pub proof fn law_every_scope_is_within_full_scope(v: Seq<Seq<char>>)
    ensures
        scope_within(v, seq![root_path()]),
{
    assert forall|i: int| 0 <= i < v.len() implies #[trigger] covered(seq![root_path()], v[i]) by {
        assert(path_covers(seq![root_path()][0], v[i]));
    }
}

/// `inner` is within `outer` and `outer` is not within `inner`.
pub open spec fn strict_subset(inner: Seq<Seq<char>>, outer: Seq<Seq<char>>) -> bool {
    scope_within(inner, outer) && !scope_within(outer, inner)
}

pub fn is_strict_scope_subset(inner: &Vec<String>, outer: &Vec<String>) -> (r: bool)
    ensures
        r == strict_subset(scope_views(inner@), scope_views(outer@)),
{
    scope_is_within(inner, outer) && !scope_is_within(outer, inner)
}

/// Whether `scope` is the whole-repository scope `["."]`.
pub fn scope_is_full(scope: &Vec<String>) -> (r: bool)
    ensures
        r == is_full_scope(scope_views(scope@)),
{
    let r = scope.len() == 1 && str_eq(scope[0].as_str(), ".");
    proof {
        reveal_strlit(".");
        if scope@.len() == 1 {
            assert(scope_views(scope@)[0] == scope@[0]@);
            assert("."@ =~= root_path());
        }
    }
    r
}

} // verus!
