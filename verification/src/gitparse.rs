//! Reading the NUL-separated output of `git diff --cached --name-status -z`, and
//! which staged changes touch only the project's own `.canon` tree.

use vstd::prelude::*;

verus! {

/// `s` split at every NUL byte.
pub open spec fn split_nul(s: Seq<u8>) -> Seq<Seq<u8>>
    decreases s.len(),
{
    if s.len() == 0 {
        seq![Seq::<u8>::empty()]
    } else {
        let r = split_nul(s.drop_last());
        if s.last() == 0 {
            r.push(Seq::<u8>::empty())
        } else {
            r.update(r.len() - 1, r.last().push(s.last()))
        }
    }
}

/// The non-empty fields of `f`, in order.
pub open spec fn nonempty_fields(f: Seq<Seq<u8>>) -> Seq<Seq<u8>>
    decreases f.len(),
{
    if f.len() == 0 {
        Seq::empty()
    } else if f.last().len() == 0 {
        nonempty_fields(f.drop_last())
    } else {
        nonempty_fields(f.drop_last()).push(f.last())
    }
}

/// A rename or copy status names two paths.
pub open spec fn two_path_status(status: Seq<u8>) -> bool {
    status.len() > 0 && (status[0] == 82u8 || status[0] == 67u8)
}

/// The paths of the records in `f[i..]`: each record is a status and one path, or
/// two for a rename or copy.
pub open spec fn name_status_paths(f: Seq<Seq<u8>>, i: int) -> Result<Seq<Seq<u8>>, Seq<char>>
    decreases f.len() - i,
{
    if i < 0 || i >= f.len() {
        Ok(Seq::empty())
    } else if i + 1 >= f.len() {
        Err("git diff name-status output ended before path"@)
    } else if two_path_status(f[i]) {
        if i + 2 >= f.len() {
            Err("git diff name-status output ended before rename/copy path"@)
        } else {
            match name_status_paths(f, i + 3) {
                Ok(rest) => Ok(seq![f[i + 1], f[i + 2]] + rest),
                Err(e) => Err(e),
            }
        }
    } else {
        match name_status_paths(f, i + 2) {
            Ok(rest) => Ok(seq![f[i + 1]] + rest),
            Err(e) => Err(e),
        }
    }
}

pub open spec fn byte_views(v: Seq<Vec<u8>>) -> Seq<Seq<u8>> {
    Seq::new(v.len(), |i: int| v[i]@)
}

pub open spec fn prefixed(prefix: Seq<Seq<u8>>, r: Result<Seq<Seq<u8>>, Seq<char>>) -> Result<Seq<Seq<u8>>, Seq<char>> {
    match r {
        Ok(rest) => Ok(prefix + rest),
        Err(e) => Err(e),
    }
}

fn nonempty_nul_fields(stdout: &[u8]) -> (r: Vec<Vec<u8>>)
    ensures
        byte_views(r@) == nonempty_fields(split_nul(stdout@)),
{
    let mut fields: Vec<Vec<u8>> = Vec::new();
    let mut cur: Vec<u8> = Vec::new();
    let mut i: usize = 0;
    assert(stdout@.take(0) =~= Seq::<u8>::empty());
    assert(split_nul(stdout@.take(0)) =~= seq![Seq::<u8>::empty()]);
    assert(byte_views(fields@) =~= nonempty_fields(split_nul(stdout@.take(0)).drop_last()));
    while i < stdout.len()
        invariant
            i <= stdout.len(),
            split_nul(stdout@.take(i as int)).len() >= 1,
            split_nul(stdout@.take(i as int)).last() == cur@,
            byte_views(fields@) == nonempty_fields(split_nul(stdout@.take(i as int)).drop_last()),
        decreases stdout.len() - i,
    {
        let b = stdout[i];
        let ghost prev = stdout@.take(i as int);
        let ghost sp = split_nul(prev);
        assert(stdout@.take(i + 1).drop_last() =~= prev);
        assert(stdout@.take(i + 1).last() == b);
        if b == 0 {
            let ghost done = cur@;
            if cur.len() > 0 {
                let c = cur;
                fields.push(c);
            }
            cur = Vec::new();
            proof {
                let np = split_nul(stdout@.take(i + 1));
                assert(np == sp.push(Seq::<u8>::empty()));
                assert(np.drop_last() =~= sp);
                assert(sp =~= sp.drop_last().push(done));
                assert(byte_views(fields@) =~= nonempty_fields(sp));
            }
        } else {
            cur.push(b);
            proof {
                let np = split_nul(stdout@.take(i + 1));
                assert(np == sp.update(sp.len() - 1, sp.last().push(b)));
                assert(np.drop_last() =~= sp.drop_last());
            }
        }
        i += 1;
    }
    let ghost all = split_nul(stdout@.take(i as int));
    assert(stdout@.take(i as int) =~= stdout@);
    if cur.len() > 0 {
        fields.push(cur);
    }
    proof {
        assert(all =~= all.drop_last().push(all.last()));
        assert(byte_views(fields@) =~= nonempty_fields(all));
    }
    fields
}

fn copy_bytes(v: &Vec<u8>) -> (r: Vec<u8>)
    ensures
        r@ == v@,
{
    let mut r: Vec<u8> = Vec::new();
    let mut i: usize = 0;
    while i < v.len()
        invariant
            i <= v.len(),
            r@ == v@.take(i as int),
        decreases v.len() - i,
    {
        r.push(v[i]);
        assert(v@.take(i + 1) =~= v@.take(i as int).push(v@[i as int]));
        i += 1;
    }
    assert(v@.take(v.len() as int) =~= v@);
    r
}

/// The changed paths named by `git diff --cached --name-status -z` output, in order,
/// both paths of a rename or copy included.
pub fn staged_changed_path_bytes_from_name_status_z(stdout: &[u8]) -> (r: Result<Vec<Vec<u8>>, String>)
    ensures
        match name_status_paths(nonempty_fields(split_nul(stdout@)), 0) {
            Ok(p) => r matches Ok(v) && byte_views(v@) == p,
            Err(m) => r matches Err(e) && e@ == m,
        },
{
    let fields = nonempty_nul_fields(stdout);
    let ghost f = byte_views(fields@);
    let mut paths: Vec<Vec<u8>> = Vec::new();
    let mut i: usize = 0;
    while i < fields.len()
        invariant
            f == byte_views(fields@),
            f == nonempty_fields(split_nul(stdout@)),
            i <= fields.len(),
            name_status_paths(f, 0) == prefixed(byte_views(paths@), name_status_paths(f, i as int)),
        decreases fields.len() - i,
    {
        if i + 1 >= fields.len() {
            return Err(String::from_str("git diff name-status output ended before path"));
        }
        let status = &fields[i];
        assert(f[i as int] == status@);
        assert(f[i + 1] == fields@[i + 1]@);
        let two = status.len() > 0 && (status[0] == 82u8 || status[0] == 67u8);
        assert(two == two_path_status(f[i as int]));
        let ghost before = byte_views(paths@);
        paths.push(copy_bytes(&fields[i + 1]));
        if two {
            if i + 2 >= fields.len() {
                return Err(String::from_str("git diff name-status output ended before rename/copy path"));
            }
            assert(f[i + 2] == fields@[i + 2]@);
            paths.push(copy_bytes(&fields[i + 2]));
            proof {
                assert(byte_views(paths@) =~= before + seq![f[i + 1], f[i + 2]]);
                match name_status_paths(f, i + 3) {
                    Ok(rest) => {
                        assert(before + (seq![f[i + 1], f[i + 2]] + rest) =~= byte_views(paths@) + rest);
                        assert(name_status_paths(f, i as int) == Ok::<Seq<Seq<u8>>, Seq<char>>(seq![f[i + 1], f[i + 2]] + rest));
                    },
                    Err(_) => {},
                }
            }
            i += 3;
        } else {
            proof {
                assert(byte_views(paths@) =~= before + seq![f[i + 1]]);
                match name_status_paths(f, i + 2) {
                    Ok(rest) => {
                        assert(before + (seq![f[i + 1]] + rest) =~= byte_views(paths@) + rest);
                        assert(name_status_paths(f, i as int) == Ok::<Seq<Seq<u8>>, Seq<char>>(seq![f[i + 1]] + rest));
                    },
                    Err(_) => {},
                }
            }
            i += 2;
        }
    }
    assert(byte_views(paths@) + Seq::<Seq<u8>>::empty() =~= byte_views(paths@));
    Ok(paths)
}

/// The bytes of `.canon`.
pub open spec fn canon_dir() -> Seq<u8> {
    seq![46u8, 99u8, 97u8, 110u8, 111u8, 110u8]
}

/// `.canon` itself or a path under it.
pub open spec fn canon_path_spec(path: Seq<u8>) -> bool {
    path == canon_dir() || (path.len() >= 7 && path.take(6) == canon_dir() && path[6] == 47u8)
}

pub fn is_canon_project_path_bytes(path: &[u8]) -> (r: bool)
    ensures
        r == canon_path_spec(path@),
{
    let d: [u8; 6] = [46u8, 99u8, 97u8, 110u8, 111u8, 110u8];
    if path.len() < 6 {
        assert(path@ != canon_dir());
        return false;
    }
    let mut k: usize = 0;
    while k < 6
        invariant
            k <= 6,
            6 <= path.len(),
            d@ == canon_dir(),
            forall|j: int| 0 <= j < k ==> path@[j] == canon_dir()[j],
        decreases 6 - k,
    {
        if path[k] != d[k] {
            assert(path@.take(6)[k as int] != canon_dir()[k as int]);
            assert(path@ != canon_dir()) by {
                if path@ == canon_dir() {
                    assert(path@[k as int] == canon_dir()[k as int]);
                }
            }
            return false;
        }
        k += 1;
    }
    assert(path@.take(6) =~= canon_dir());
    if path.len() == 6 {
        assert(path@ =~= canon_dir());
        return true;
    }
    path[6] == 47u8
}

/// Some change is staged and every staged change is under `.canon`.
pub fn is_canon_only_staged_change_bytes(paths: &Vec<Vec<u8>>) -> (r: bool)
    ensures
        r == (paths@.len() > 0 && forall|i: int| 0 <= i < paths@.len() ==> canon_path_spec(#[trigger] paths@[i]@)),
{
    if paths.len() == 0 {
        return false;
    }
    let mut i: usize = 0;
    while i < paths.len()
        invariant
            i <= paths.len(),
            forall|j: int| 0 <= j < i ==> canon_path_spec(#[trigger] paths@[j]@),
        decreases paths.len() - i,
    {
        if !is_canon_project_path_bytes(paths[i].as_slice()) {
            return false;
        }
        i += 1;
    }
    true
}

/// What `String::from_utf8_lossy` makes of some bytes.
pub uninterp spec fn utf8_lossy(bytes: Seq<u8>) -> Seq<char>;

/// Calls `String::from_utf8_lossy`. Its documentation says that valid UTF-8 comes
/// back unchanged; for other input each invalid sequence becomes U+FFFD, which the
/// contract leaves to the name.
#[verifier::external_body]
fn lossy_string(bytes: &Vec<u8>) -> (r: String)
    ensures
        r@ == utf8_lossy(bytes@),
        vstd::utf8::valid_utf8(bytes@) ==> r@ == vstd::utf8::decode_utf8(bytes@),
{
    String::from_utf8_lossy(bytes.as_slice()).into_owned()
}

/// The changed paths as text, each read as UTF-8 with invalid sequences replaced.
pub fn staged_changed_paths_from_name_status_z(stdout: &[u8]) -> (r: Result<Vec<String>, String>)
    ensures
        match name_status_paths(nonempty_fields(split_nul(stdout@)), 0) {
            Ok(p) => r matches Ok(v) && v@.len() == p.len() && forall|k: int|
                0 <= k < p.len() ==> #[trigger] v@[k]@ == utf8_lossy(p[k]),
            Err(m) => r matches Err(e) && e@ == m,
        },
{
    let paths = staged_changed_path_bytes_from_name_status_z(stdout)?;
    let mut out: Vec<String> = Vec::new();
    let mut i: usize = 0;
    while i < paths.len()
        invariant
            i <= paths.len(),
            out@.len() == i,
            forall|k: int| 0 <= k < i ==> #[trigger] out@[k]@ == utf8_lossy(paths@[k]@),
        decreases paths.len() - i,
    {
        out.push(lossy_string(&paths[i]));
        i += 1;
    }
    Ok(out)
}

} // verus!
