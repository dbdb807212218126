//! Repository-relative paths.
//!
//! A repository path is written with `/` separators. Normalizing drops empty and `.`
//! segments, names the repository root `.`, and refuses absolute paths and paths with
//! a `..` segment.

use vstd::prelude::*;
use crate::text::{chars_of, push_chars, chars_eq};

verus! {

/// `s` split at every `/` (`str::split('/')`).
pub open spec fn split_on_slash(s: Seq<char>) -> Seq<Seq<char>>
    decreases s.len(),
{
    if s.len() == 0 {
        seq![Seq::<char>::empty()]
    } else {
        let r = split_on_slash(s.drop_last());
        if s.last() == '/' {
            r.push(Seq::<char>::empty())
        } else {
            r.update(r.len() - 1, r.last().push(s.last()))
        }
    }
}

pub open spec fn is_kept_segment(seg: Seq<char>) -> bool {
    seg.len() > 0 && seg != seq!['.']
}

/// The segments that survive normalization, in order.
pub open spec fn kept_segments(segs: Seq<Seq<char>>) -> Seq<Seq<char>>
    decreases segs.len(),
{
    if segs.len() == 0 {
        Seq::<Seq<char>>::empty()
    } else if is_kept_segment(segs.last()) {
        kept_segments(segs.drop_last()).push(segs.last())
    } else {
        kept_segments(segs.drop_last())
    }
}

/// The segments joined with `/`.
pub open spec fn join_slash(segs: Seq<Seq<char>>) -> Seq<char>
    decreases segs.len(),
{
    if segs.len() == 0 {
        Seq::<char>::empty()
    } else if segs.len() == 1 {
        segs[0]
    } else {
        join_slash(segs.drop_last()) + seq!['/'] + segs.last()
    }
}

pub open spec fn has_parent_segment(s: Seq<char>) -> bool {
    exists|i: int| 0 <= i < split_on_slash(s).len() && #[trigger] split_on_slash(s)[i] == seq!['.', '.']
}

/// The normalized form of a repository path, or why it is refused.
pub open spec fn normalize_spec(s: Seq<char>) -> Result<Seq<char>, Seq<char>> {
    if s.len() > 0 && s[0] == '/' {
        Err("path must be relative"@)
    } else if has_parent_segment(s) {
        Err("path must not contain parent directory segments"@)
    } else if kept_segments(split_on_slash(s)).len() == 0 {
        Ok(seq!['.'])
    } else {
        Ok(join_slash(kept_segments(split_on_slash(s))))
    }
}

pub open spec fn views(v: Seq<Vec<char>>) -> Seq<Seq<char>> {
    Seq::new(v.len(), |i: int| v[i]@)
}

/// Splits `v` at every `/`.
pub fn split_slash_chars(v: &Vec<char>) -> (r: Vec<Vec<char>>)
    ensures
        views(r@) == split_on_slash(v@),
{
    let mut segs: Vec<Vec<char>> = Vec::new();
    let mut cur: Vec<char> = Vec::new();
    let mut i: usize = 0;
    proof {
        assert(v@.subrange(0, 0) =~= Seq::<char>::empty());
        assert(views(segs@).push(cur@) =~= split_on_slash(v@.subrange(0, 0)));
    }
    while i < v.len()
        invariant
            i <= v.len(),
            views(segs@).push(cur@) == split_on_slash(v@.subrange(0, i as int)),
        decreases v.len() - i,
    {
        let c = v[i];
        let ghost prev = v@.subrange(0, i as int);
        let ghost next = v@.subrange(0, i + 1);
        assert(next.drop_last() =~= prev);
        assert(next.last() == c);
        if c == '/' {
            let done = cur;
            segs.push(done);
            cur = Vec::new();
            assert(views(segs@).push(cur@) =~= split_on_slash(prev).push(Seq::<char>::empty()));
        } else {
            cur.push(c);
            let ghost sp = split_on_slash(prev);
            assert(views(segs@).push(cur@) =~= sp.update(sp.len() - 1, sp.last().push(c)));
        }
        i += 1;
    }
    segs.push(cur);
    assert(v@.subrange(0, v@.len() as int) =~= v@);
    assert(views(segs@) =~= split_on_slash(v@));
    segs
}

pub proof fn lemma_split_nonempty(s: Seq<char>)
    ensures
        split_on_slash(s).len() >= 1,
    decreases s.len(),
{
    if s.len() > 0 {
        lemma_split_nonempty(s.drop_last());
    }
}

/// Normalizes a repository-relative path.
pub fn normalize_repo_path(value: &str) -> (r: Result<String, String>)
    ensures
        match normalize_spec(value@) {
            Ok(p) => r matches Ok(s) && s@ == p,
            Err(m) => r matches Err(e) && e@ == m,
        },
{
    let v = chars_of(value);
    if v.len() > 0 && v[0] == '/' {
        return Err(String::from_str("path must be relative"));
    }
    let segs = split_slash_chars(&v);
    let ghost sp = split_on_slash(v@);
    let dots: Vec<char> = vec!['.', '.'];
    let dot: Vec<char> = vec!['.'];
    assert(dots@ =~= seq!['.', '.']);
    assert(dot@ =~= seq!['.']);
    let mut out = String::new();
    let mut count: usize = 0;
    let mut i: usize = 0;
    while i < segs.len()
        invariant
            i <= segs.len(),
            views(segs@) == sp,
            sp == split_on_slash(v@),
            v@ == value@,
            !(v@.len() > 0 && v@[0] == '/'),
            dots@ == seq!['.', '.'],
            dot@ == seq!['.'],
            forall|j: int| 0 <= j < i ==> sp[j] != seq!['.', '.'],
            count == kept_segments(sp.subrange(0, i as int)).len(),
            out@ == join_slash(kept_segments(sp.subrange(0, i as int))),
            count <= i,
        decreases segs.len() - i,
    {
        let seg = &segs[i];
        assert(seg@ == sp[i as int]);
        let ghost prev = sp.subrange(0, i as int);
        let ghost next = sp.subrange(0, i + 1);
        assert(next.drop_last() =~= prev);
        assert(next.last() == sp[i as int]);
        if chars_eq(seg, &dots) {
            assert(split_on_slash(v@)[i as int] == seq!['.', '.']);
            assert(has_parent_segment(v@));
            assert(!(v@.len() > 0 && v@[0] == '/'));
            return Err(String::from_str("path must not contain parent directory segments"));
        }
        if seg.len() > 0 && !chars_eq(seg, &dot) {
            let ghost k = kept_segments(prev);
            if count > 0 {
                push_char_slash(&mut out);
            }
            push_chars(&mut out, seg, 0, seg.len());
            assert(seg@.subrange(0, seg@.len() as int) =~= seg@);
            proof {
                let k2 = k.push(seg@);
                assert(k2.drop_last() =~= k);
                if k.len() == 0 {
                    assert(out@ =~= join_slash(k2));
                } else {
                    assert(out@ =~= join_slash(k2));
                }
            }
            count += 1;
        }
        i += 1;
    }
    assert(sp.subrange(0, sp.len() as int) =~= sp);
    proof {
        if has_parent_segment(v@) {
            let j = choose|j: int| 0 <= j < split_on_slash(v@).len() && #[trigger] split_on_slash(v@)[j] == seq!['.', '.'];
            assert(sp[j] != seq!['.', '.']);
        }
    }
    if count == 0 {
        let mut d = String::new();
        crate::text::push_char(&mut d, '.');
        assert(d@ =~= seq!['.']);
        return Ok(d);
    }
    Ok(out)
}

fn push_char_slash(s: &mut String)
    ensures
        final(s)@ == old(s)@ + seq!['/'],
{
    crate::text::push_char(s, '/');
    assert(s@ =~= old(s)@ + seq!['/']);
}

} // verus!
