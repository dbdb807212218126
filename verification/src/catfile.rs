//! The output of `git cat-file --batch`: for each requested object a header line
//! `<id> <type> <size>`, the object's bytes and a newline.

use vstd::prelude::*;
use vstd::utf8::{decode_utf8, valid_utf8};
use crate::text::{all_digits, chars_of, digits_value, is_ascii_digit, is_ws, is_ws_char, parse_digits_u64, string_from_chars};
use crate::validation::{concat2, concat3};

verus! {

/// The position of the first newline at or after `i`.
pub open spec fn newline_from(b: Seq<u8>, i: int) -> Option<int>
    decreases b.len() - i,
{
    if i < 0 || i >= b.len() {
        None
    } else if b[i] == 10u8 {
        Some(i)
    } else {
        newline_from(b, i + 1)
    }
}

pub proof fn lemma_newline_from(b: Seq<u8>, i: int)
    ensures
        newline_from(b, i) matches Some(k) ==> 0 <= i <= k < b.len() && b[k] == 10u8,
    decreases b.len() - i,
{
    if 0 <= i < b.len() {
        lemma_newline_from(b, i + 1);
    }
}

/// The first position at or after `i` that holds no whitespace (or the end).
pub open spec fn skip_ws(s: Seq<char>, i: int) -> int
    decreases s.len() - i,
{
    if i < 0 || i >= s.len() {
        s.len() as int
    } else if is_ws(s[i]) {
        skip_ws(s, i + 1)
    } else {
        i
    }
}

/// The first position at or after `i` that holds whitespace (or the end).
pub open spec fn word_end(s: Seq<char>, i: int) -> int
    decreases s.len() - i,
{
    if i < 0 || i >= s.len() {
        s.len() as int
    } else if is_ws(s[i]) {
        i
    } else {
        word_end(s, i + 1)
    }
}

/// The bounds of the next whitespace-separated word at or after `from`.
pub open spec fn next_word(s: Seq<char>, from: int) -> Option<(int, int)> {
    let a = skip_ws(s, from);
    if a >= s.len() {
        None
    } else {
        Some((a, word_end(s, a)))
    }
}

pub proof fn lemma_word_bounds(s: Seq<char>, i: int)
    requires
        0 <= i <= s.len(),
    ensures
        i <= skip_ws(s, i) <= s.len(),
        i <= word_end(s, i) <= s.len(),
    decreases s.len() - i,
{
    if i < s.len() {
        lemma_word_bounds(s, i + 1);
    }
}

/// What `usize::from_str` reads from `t`: an optional `+` and at least one decimal
/// digit, of a value that fits.
pub open spec fn usize_value(t: Seq<char>) -> Option<nat> {
    let d = if t.len() > 0 && t[0] == '+' {
        t.drop_first()
    } else {
        t
    };
    if d.len() > 0 && all_digits(d) && digits_value(d) <= usize::MAX {
        Some(digits_value(d))
    } else {
        None
    }
}

/// The object id and size that a header line announces, or why it is refused.
pub open spec fn blob_header(h: Seq<u8>) -> Result<(Seq<char>, nat), Seq<char>> {
    if !valid_utf8(h) {
        Err("git cat-file header must be valid UTF-8"@)
    } else {
        let c = decode_utf8(h);
        match next_word(c, 0) {
            None => Err("git cat-file header missing object id"@),
            Some(w1) => {
                let id = c.subrange(w1.0, w1.1);
                match next_word(c, w1.1) {
                    None => Err("git cat-file header missing type for "@ + id),
                    Some(w2) => {
                        let ty = c.subrange(w2.0, w2.1);
                        if ty == "missing"@ {
                            Err("staged blob "@ + id + " is missing"@)
                        } else if ty != "blob"@ {
                            Err("staged object "@ + id + " is "@ + ty + ", not blob"@)
                        } else {
                            match next_word(c, w2.1) {
                                None => Err("git cat-file header missing size for "@ + id),
                                Some(w3) => match usize_value(c.subrange(w3.0, w3.1)) {
                                    None => Err("git cat-file header has invalid size for "@ + id),
                                    Some(n) => Ok((id, n)),
                                },
                            }
                        }
                    },
                }
            },
        }
    }
}

/// The blobs of `out` from `offset` on, one for each of `ids[k..]`; the output must
/// end right after the last one.
pub open spec fn blob_batch(out: Seq<u8>, ids: Seq<String>, k: int, offset: int) -> Result<Seq<Seq<u8>>, Seq<char>>
    decreases ids.len() - k,
{
    if k < 0 || k >= ids.len() {
        if offset != out.len() {
            Err("git cat-file output has trailing data"@)
        } else {
            Ok(Seq::empty())
        }
    } else {
        match newline_from(out, offset) {
            None => Err("git cat-file output missing header for "@ + ids[k]@),
            Some(he) => match blob_header(out.subrange(offset, he)) {
                Err(m) => Err(m),
                Ok(hdr) => {
                    let start = he + 1;
                    let end = start + hdr.1;
                    if end > usize::MAX {
                        Err("git cat-file object size overflowed"@)
                    } else if out.len() < end {
                        Err("git cat-file output truncated for "@ + hdr.0)
                    } else if end >= out.len() || out[end] != 10u8 {
                        Err("git cat-file output missing object delimiter for "@ + hdr.0)
                    } else {
                        match blob_batch(out, ids, k + 1, end + 1) {
                            Err(m) => Err(m),
                            Ok(rest) => Ok(seq![out.subrange(start, end)] + rest),
                        }
                    }
                },
            },
        }
    }
}

/// Calls `std::str::from_utf8`. Its documentation says that it succeeds exactly on
/// valid UTF-8, and then the text is what the bytes encode.
#[verifier::external_body]
pub(crate) fn utf8_text(bytes: &Vec<u8>) -> (r: Option<String>)
    ensures
        r is Some <==> valid_utf8(bytes@),
        r matches Some(s) ==> s@ == decode_utf8(bytes@),
{
    match std::str::from_utf8(bytes.as_slice()) {
        Ok(s) => Some(s.to_string()),
        Err(_) => None,
    }
}

fn find_newline(out: &[u8], from: usize) -> (r: Option<usize>)
    ensures
        match r {
            None => newline_from(out@, from as int) is None,
            Some(k) => newline_from(out@, from as int) == Some(k as int),
        },
{
    let mut i = from;
    while i < out.len()
        invariant
            from <= i,
            newline_from(out@, from as int) == newline_from(out@, i as int),
        decreases out.len() - i,
    {
        if out[i] == 10u8 {
            return Some(i);
        }
        i += 1;
    }
    None
}

fn word_at(c: &Vec<char>, from: usize) -> (r: Option<(usize, usize)>)
    requires
        from <= c@.len(),
    ensures
        match r {
            None => next_word(c@, from as int) is None,
            Some(w) => next_word(c@, from as int) == Some((w.0 as int, w.1 as int)),
        },
{
    proof {
        lemma_word_bounds(c@, from as int);
    }
    let mut a = from;
    while a < c.len() && is_ws_char(c[a])
        invariant
            from <= a <= c@.len(),
            skip_ws(c@, from as int) == skip_ws(c@, a as int),
        decreases c.len() - a,
    {
        a += 1;
    }
    if a >= c.len() {
        return None;
    }
    let mut e = a;
    while e < c.len() && !is_ws_char(c[e])
        invariant
            a <= e <= c@.len(),
            word_end(c@, a as int) == word_end(c@, e as int),
        decreases c.len() - e,
    {
        e += 1;
    }
    Some((a, e))
}

#[verifier::loop_isolation(false)]
fn usize_from_chars(c: &Vec<char>, a: usize, e: usize) -> (r: Option<usize>)
    requires
        a <= e <= c@.len(),
    ensures
        match usize_value(c@.subrange(a as int, e as int)) {
            None => r is None,
            Some(n) => r == Some(n as usize),
        },
{
    let ghost t = c@.subrange(a as int, e as int);
    let mut s = a;
    if s < e && c[s] == '+' {
        s = s + 1;
    }
    proof {
        let d = if t.len() > 0 && t[0] == '+' { t.drop_first() } else { t };
        assert(d =~= c@.subrange(s as int, e as int));
    }
    if s >= e {
        return None;
    }
    let mut i = s;
    while i < e
        invariant
            s <= i <= e <= c@.len(),
            forall|j: int| s <= j < i ==> is_ascii_digit(#[trigger] c@[j]),
        decreases e - i,
    {
        let u = c[i] as u32;
        if !(48 <= u && u <= 57) {
            assert(!is_ascii_digit(c@.subrange(s as int, e as int)[i - s]));
            return None;
        }
        i += 1;
    }
    assert(all_digits(c@.subrange(s as int, e as int)));
    match parse_digits_u64(c, s, e) {
        None => None,
        Some(v) => {
            if v as u128 <= usize::MAX as u128 {
                Some(v as usize)
            } else {
                None
            }
        },
    }
}

fn copy_range(out: &[u8], start: usize, end: usize) -> (r: Vec<u8>)
    requires
        start <= end <= out@.len(),
    ensures
        r@ == out@.subrange(start as int, end as int),
{
    let mut r: Vec<u8> = Vec::new();
    let mut i = start;
    while i < end
        invariant
            start <= i <= end <= out@.len(),
            r@ == out@.subrange(start as int, i as int),
        decreases end - i,
    {
        r.push(out[i]);
        assert(out@.subrange(start as int, i + 1) =~= out@.subrange(start as int, i as int).push(out@[i as int]));
        i += 1;
    }
    r
}

fn parse_blob_header(h: &Vec<u8>) -> (r: Result<(String, usize), String>)
    ensures
        match blob_header(h@) {
            Err(m) => r matches Err(e) && e@ == m,
            Ok(x) => r matches Ok(y) && y.0@ == x.0 && y.1 as nat == x.1,
        },
{
    let text = match utf8_text(h) {
        Some(t) => t,
        None => {
            return Err(String::from_str("git cat-file header must be valid UTF-8"));
        },
    };
    let c = chars_of(text.as_str());
    let w1 = match word_at(&c, 0) {
        Some(w) => w,
        None => {
            return Err(String::from_str("git cat-file header missing object id"));
        },
    };
    proof {
        lemma_word_bounds(c@, 0);
        lemma_word_bounds(c@, w1.0 as int);
    }
    let id = string_from_chars(&c, w1.0, w1.1);
    let w2 = match word_at(&c, w1.1) {
        Some(w) => w,
        None => {
            return Err(concat2("git cat-file header missing type for ", id.as_str()));
        },
    };
    proof {
        lemma_word_bounds(c@, w1.1 as int);
        lemma_word_bounds(c@, w2.0 as int);
    }
    let ty = string_from_chars(&c, w2.0, w2.1);
    if crate::text::str_eq(ty.as_str(), "missing") {
        return Err(concat3("staged blob ", id.as_str(), " is missing"));
    }
    if !crate::text::str_eq(ty.as_str(), "blob") {
        let mut m = concat3("staged object ", id.as_str(), " is ");
        m.append(ty.as_str());
        m.append(", not blob");
        return Err(m);
    }
    let w3 = match word_at(&c, w2.1) {
        Some(w) => w,
        None => {
            return Err(concat2("git cat-file header missing size for ", id.as_str()));
        },
    };
    proof {
        lemma_word_bounds(c@, w2.1 as int);
        lemma_word_bounds(c@, w3.0 as int);
    }
    match usize_from_chars(&c, w3.0, w3.1) {
        None => Err(concat2("git cat-file header has invalid size for ", id.as_str())),
        Some(n) => Ok((id, n)),
    }
}

/// The blobs that `git cat-file --batch` printed for `object_ids`, in order, or why
/// the output does not have that shape.
pub fn parse_git_blob_batch(output: &[u8], object_ids: &Vec<String>) -> (r: Result<Vec<Vec<u8>>, String>)
    ensures
        match blob_batch(output@, object_ids@, 0, 0) {
            Err(m) => r matches Err(e) && e@ == m,
            Ok(blobs) => r matches Ok(v) && v@.len() == blobs.len() && forall|k: int|
                0 <= k < blobs.len() ==> #[trigger] v@[k]@ == blobs[k],
        },
{
    let out_len = output.len();
    let mut offset: usize = 0;
    let mut blobs: Vec<Vec<u8>> = Vec::new();
    let mut k: usize = 0;
    while k < object_ids.len()
        invariant
            k <= object_ids@.len(),
            out_len == output@.len(),
            offset <= output@.len(),
            blob_batch(output@, object_ids@, 0, 0) == match blob_batch(
                output@,
                object_ids@,
                k as int,
                offset as int,
            ) {
                Err(m) => Err(m),
                Ok(rest) => Ok(blobs@.map_values(|b: Vec<u8>| b@) + rest),
            },
        decreases object_ids.len() - k,
    {
        proof {
            lemma_newline_from(output@, offset as int);
        }
        let he = match find_newline(output, offset) {
            Some(he) => he,
            None => {
                return Err(concat2("git cat-file output missing header for ", object_ids[k].as_str()));
            },
        };
        let header = copy_range(output, offset, he);
        let (id, size) = match parse_blob_header(&header) {
            Ok(x) => x,
            Err(m) => {
                return Err(m);
            },
        };
        let start = he + 1;
        let end = match start.checked_add(size) {
            Some(e) => e,
            None => {
                return Err(String::from_str("git cat-file object size overflowed"));
            },
        };
        if output.len() < end {
            return Err(concat2("git cat-file output truncated for ", id.as_str()));
        }
        if end >= output.len() || output[end] != 10u8 {
            return Err(concat2("git cat-file output missing object delimiter for ", id.as_str()));
        }
        let blob = copy_range(output, start, end);
        let ghost before = blobs@.map_values(|b: Vec<u8>| b@);
        blobs.push(blob);
        proof {
            assert(blobs@.map_values(|b: Vec<u8>| b@) =~= before.push(output@.subrange(start as int, end as int)));
            let rest = blob_batch(output@, object_ids@, k + 1, end + 1);
            if rest is Ok {
                assert(before + (seq![output@.subrange(start as int, end as int)] + rest->Ok_0)
                    =~= before.push(output@.subrange(start as int, end as int)) + rest->Ok_0);
            }
        }
        offset = end + 1;
        k += 1;
    }
    if offset != output.len() {
        return Err(String::from_str("git cat-file output has trailing data"));
    }
    proof {
        let v = blobs@.map_values(|b: Vec<u8>| b@);
        assert(v + Seq::<Seq<u8>>::empty() =~= v);
    }
    Ok(blobs)
}

/// A staged file: its path and the id of its blob.
pub struct StagedTrackedFile {
    pub path: Vec<u8>,
    pub object_id: String,
}

/// The position of the first tab in `b`.
pub open spec fn tab_from(b: Seq<u8>, i: int) -> Option<int>
    decreases b.len() - i,
{
    if i < 0 || i >= b.len() {
        None
    } else if b[i] == 9u8 {
        Some(i)
    } else {
        tab_from(b, i + 1)
    }
}

pub proof fn lemma_tab_from(b: Seq<u8>, i: int)
    ensures
        tab_from(b, i) matches Some(k) ==> 0 <= i <= k < b.len() && b[k] == 9u8,
    decreases b.len() - i,
{
    if 0 <= i < b.len() {
        lemma_tab_from(b, i + 1);
    }
}

/// One entry of `git ls-files -z --stage`: `<mode> <id> <stage>\t<path>`. Only
/// stage 0 entries name a staged file; the others are `None`.
pub open spec fn staged_entry(entry: Seq<u8>) -> Result<Option<(Seq<u8>, Seq<char>)>, Seq<char>> {
    match tab_from(entry, 0) {
        None => Err("git ls-files entry missing path separator"@),
        Some(tab) => {
            let meta = entry.subrange(0, tab);
            if !valid_utf8(meta) {
                Err("git ls-files entry metadata must be valid UTF-8"@)
            } else {
                let c = decode_utf8(meta);
                match next_word(c, 0) {
                    None => Err("git ls-files entry missing mode"@),
                    Some(w1) => match next_word(c, w1.1) {
                        None => Err("git ls-files entry missing object id"@),
                        Some(w2) => match next_word(c, w2.1) {
                            None => Err("git ls-files entry missing stage"@),
                            Some(w3) => if c.subrange(w3.0, w3.1) != "0"@ {
                                Ok(None)
                            } else {
                                Ok(Some((entry.subrange(tab + 1, entry.len() as int), c.subrange(w2.0, w2.1))))
                            },
                        },
                    },
                }
            }
        },
    }
}

pub fn parse_staged_tracked_file(entry: &[u8]) -> (r: Result<Option<StagedTrackedFile>, String>)
    ensures
        match staged_entry(entry@) {
            Err(m) => r matches Err(e) && e@ == m,
            Ok(None) => r matches Ok(None),
            Ok(Some(x)) => r matches Ok(Some(f)) && f.path@ == x.0 && f.object_id@ == x.1,
        },
{
    let n = entry.len();
    proof {
        lemma_tab_from(entry@, 0);
    }
    let mut tab: usize = 0;
    while tab < n && entry[tab] != 9u8
        invariant
            tab <= n,
            n == entry@.len(),
            tab_from(entry@, 0) == tab_from(entry@, tab as int),
        decreases n - tab,
    {
        tab += 1;
    }
    if tab >= n {
        return Err(String::from_str("git ls-files entry missing path separator"));
    }
    let meta = copy_range(entry, 0, tab);
    let text = match utf8_text(&meta) {
        Some(t) => t,
        None => {
            return Err(String::from_str("git ls-files entry metadata must be valid UTF-8"));
        },
    };
    let c = chars_of(text.as_str());
    proof {
        lemma_word_bounds(c@, 0);
    }
    let w1 = match word_at(&c, 0) {
        Some(w) => w,
        None => {
            return Err(String::from_str("git ls-files entry missing mode"));
        },
    };
    proof {
        lemma_word_bounds(c@, w1.0 as int);
    }
    let w2 = match word_at(&c, w1.1) {
        Some(w) => w,
        None => {
            return Err(String::from_str("git ls-files entry missing object id"));
        },
    };
    proof {
        lemma_word_bounds(c@, w1.1 as int);
        lemma_word_bounds(c@, w2.0 as int);
    }
    let w3 = match word_at(&c, w2.1) {
        Some(w) => w,
        None => {
            return Err(String::from_str("git ls-files entry missing stage"));
        },
    };
    proof {
        lemma_word_bounds(c@, w2.1 as int);
        lemma_word_bounds(c@, w3.0 as int);
    }
    let stage = string_from_chars(&c, w3.0, w3.1);
    if !crate::text::str_eq(stage.as_str(), "0") {
        return Ok(None);
    }
    let object_id = string_from_chars(&c, w2.0, w2.1);
    let path = copy_range(entry, tab + 1, n);
    Ok(Some(StagedTrackedFile { path, object_id }))
}

} // verus!
