//! Generator expectations: question templates, spec titles and the file names they
//! must match, and wildcard path patterns.

use vstd::prelude::*;
use crate::text::{
    chars_of, is_ws, push_char, push_chars, string_from_chars, trim_bounds, trim_spec,
    trim_start_spec, decimal,
};
use crate::validation::numbered;

verus! {

/// The `{content}` placeholder of a question template.
pub open spec fn placeholder() -> Seq<char> {
    seq!['{', 'c', 'o', 'n', 't', 'e', 'n', 't', '}']
}

/// `s` starts with `p`.
pub open spec fn starts_with_at(s: Seq<char>, i: int, p: Seq<char>) -> bool {
    0 <= i && i + p.len() <= s.len() && s.subrange(i, i + p.len()) == p
}

/// `s[i..]` with each placeholder, found left to right without overlap, replaced by
/// `content` (`str::replace`).
pub open spec fn replace_from(s: Seq<char>, i: int, content: Seq<char>) -> Seq<char>
    decreases s.len() - i,
{
    if i < 0 || i >= s.len() {
        Seq::empty()
    } else if starts_with_at(s, i, placeholder()) {
        content + replace_from(s, i + placeholder().len(), content)
    } else {
        seq![s[i]] + replace_from(s, i + 1, content)
    }
}

/// How many placeholders `s[i..]` holds, counted left to right without overlap
/// (`str::matches(..).count()`).
pub open spec fn count_from(s: Seq<char>, i: int) -> nat
    decreases s.len() - i,
{
    if i < 0 || i >= s.len() {
        0
    } else if starts_with_at(s, i, placeholder()) {
        1 + count_from(s, i + placeholder().len())
    } else {
        count_from(s, i + 1)
    }
}

fn placeholder_at(v: &Vec<char>, i: usize) -> (r: bool)
    requires
        i <= v.len(),
    ensures
        r == starts_with_at(v@, i as int, placeholder()),
{
    let p = ['{', 'c', 'o', 'n', 't', 'e', 'n', 't', '}'];
    if v.len() - i < 9 {
        return false;
    }
    let mut k: usize = 0;
    while k < 9
        invariant
            k <= 9,
            i + 9 <= v.len(),
            p@ == placeholder(),
            forall|j: int| 0 <= j < k ==> v@[i + j] == placeholder()[j],
        decreases 9 - k,
    {
        if v[i + k] != p[k] {
            assert(v@.subrange(i as int, i + 9)[k as int] != placeholder()[k as int]);
            return false;
        }
        k += 1;
    }
    assert(v@.subrange(i as int, i + 9) =~= placeholder());
    true
}

/// The question of a generated expectation: the template with every `{content}`
/// replaced by the file's content.
pub fn render_generator_question(template: &str, content: &str) -> (r: String)
    ensures
        r@ == replace_from(template@, 0, content@),
{
    let v = chars_of(template);
    let mut out = String::new();
    let mut i: usize = 0;
    while i < v.len()
        invariant
            i <= v.len(),
            out@ + replace_from(v@, i as int, content@) == replace_from(v@, 0, content@),
        decreases v.len() - i,
    {
        if placeholder_at(&v, i) {
            out.append(content);
            proof {
                assert(out@ + replace_from(v@, i + 9, content@) =~= old_out_plus(out@, content@, replace_from(v@, i + 9, content@)));
            }
            i += 9;
        } else {
            push_char(&mut out, v[i]);
            i += 1;
        }
    }
    assert(replace_from(v@, i as int, content@) =~= Seq::<char>::empty());
    assert(out@ =~= out@ + Seq::<char>::empty());
    out
}

spec fn old_out_plus(a: Seq<char>, b: Seq<char>, c: Seq<char>) -> Seq<char> {
    a + c
}

/// A template is valid when it holds exactly one `{content}` placeholder.
pub fn validate_generator_template(template: &str, number: usize) -> (r: Result<(), String>)
    ensures
        count_from(template@, 0) == 1 ==> r is Ok,
        count_from(template@, 0) != 1 ==> (r matches Err(e) && e@ == "expectation "@ + decimal(
            number as nat,
        ) + " q_template must contain exactly one {content} placeholder"@),
{
    let v = chars_of(template);
    let mut n: usize = 0;
    let mut i: usize = 0;
    while i < v.len()
        invariant
            i <= v.len(),
            n <= i,
            n + count_from(v@, i as int) == count_from(v@, 0),
        decreases v.len() - i,
    {
        if placeholder_at(&v, i) {
            n += 1;
            i += 9;
        } else {
            i += 1;
        }
    }
    if n != 1 {
        return Err(numbered("expectation ", number, " q_template must contain exactly one {content} placeholder"));
    }
    Ok(())
}

/// The title of a line that is an H1 heading: after leading whitespace, `# ` and a
/// title that is not blank once trimmed.
pub open spec fn h1_of_line(line: Seq<char>) -> Option<Seq<char>> {
    let t = trim_start_spec(line);
    if t.len() >= 2 && t[0] == '#' && t[1] == ' ' {
        let title = trim_spec(t.subrange(2, t.len() as int));
        if title.len() == 0 {
            None
        } else {
            Some(title)
        }
    } else {
        None
    }
}

/// `s` split at every line feed. A carriage return before a line feed stays on its
/// line, where it is trimmed with the title, so headings read the same as with
/// `str::lines`.
pub open spec fn split_lines(s: Seq<char>) -> Seq<Seq<char>>
    decreases s.len(),
{
    if s.len() == 0 {
        seq![Seq::<char>::empty()]
    } else {
        let r = split_lines(s.drop_last());
        if s.last() == '\n' {
            r.push(Seq::<char>::empty())
        } else {
            r.update(r.len() - 1, r.last().push(s.last()))
        }
    }
}

/// The first H1 title among `lines[i..]`.
pub open spec fn first_h1(lines: Seq<Seq<char>>, i: int) -> Option<Seq<char>>
    decreases lines.len() - i,
{
    if i < 0 || i >= lines.len() {
        None
    } else {
        match h1_of_line(lines[i]) {
            Some(t) => Some(t),
            None => first_h1(lines, i + 1),
        }
    }
}

pub open spec fn line_views(v: Seq<Vec<char>>) -> Seq<Seq<char>> {
    Seq::new(v.len(), |i: int| v[i]@)
}

fn split_line_chars(v: &Vec<char>) -> (r: Vec<Vec<char>>)
    ensures
        line_views(r@) == split_lines(v@),
{
    let mut lines: Vec<Vec<char>> = Vec::new();
    let mut cur: Vec<char> = Vec::new();
    let mut i: usize = 0;
    assert(line_views(lines@).push(cur@) =~= split_lines(v@.take(0)));
    while i < v.len()
        invariant
            i <= v.len(),
            line_views(lines@).push(cur@) == split_lines(v@.take(i as int)),
        decreases v.len() - i,
    {
        let c = v[i];
        let ghost prev = v@.take(i as int);
        assert(v@.take(i + 1).drop_last() =~= prev);
        assert(v@.take(i + 1).last() == c);
        if c == '\n' {
            let done = cur;
            lines.push(done);
            cur = Vec::new();
            assert(line_views(lines@).push(cur@) =~= split_lines(prev).push(Seq::<char>::empty()));
        } else {
            cur.push(c);
            let ghost sp = split_lines(prev);
            assert(line_views(lines@).push(cur@) =~= sp.update(sp.len() - 1, sp.last().push(c)));
        }
        i += 1;
    }
    lines.push(cur);
    assert(v@.take(v@.len() as int) =~= v@);
    assert(line_views(lines@) =~= split_lines(v@));
    lines
}

fn h1_of_line_chars(line: &Vec<char>) -> (r: Option<String>)
    ensures
        match h1_of_line(line@) {
            Some(t) => r matches Some(s) && s@ == t,
            None => r is None,
        },
{
    let (a, _) = trim_bounds(line);
    if line.len() - a < 2 || line[a] != '#' || line[a + 1] != ' ' {
        return None;
    }
    let mut rest: Vec<char> = Vec::new();
    let mut k: usize = a + 2;
    while k < line.len()
        invariant
            a + 2 <= k <= line.len(),
            rest@ == line@.subrange(a + 2, k as int),
        decreases line.len() - k,
    {
        rest.push(line[k]);
        assert(line@.subrange(a + 2, k + 1) =~= line@.subrange(a + 2, k as int).push(line@[k as int]));
        k += 1;
    }
    let ghost t = trim_start_spec(line@);
    assert(t =~= line@.subrange(a as int, line@.len() as int));
    assert(t.subrange(2, t.len() as int) =~= rest@);
    let (b, c) = trim_bounds(&rest);
    if b == c {
        assert(trim_spec(rest@).len() == 0);
        return None;
    }
    Some(string_from_chars(&rest, b, c))
}

/// The first H1 title of a markdown document.
pub fn spec_h1_title(content: &str) -> (r: Option<String>)
    ensures
        match first_h1(split_lines(content@), 0) {
            Some(t) => r matches Some(s) && s@ == t,
            None => r is None,
        },
{
    let v = chars_of(content);
    let lines = split_line_chars(&v);
    let ghost ls = split_lines(content@);
    let mut i: usize = 0;
    while i < lines.len()
        invariant
            i <= lines.len(),
            ls == line_views(lines@),
            ls == split_lines(content@),
            first_h1(ls, 0) == first_h1(ls, i as int),
        decreases lines.len() - i,
    {
        let found = h1_of_line_chars(&lines[i]);
        assert(ls[i as int] == lines@[i as int]@);
        match found {
            Some(t) => {
                assert(first_h1(ls, i as int) == Some(t@));
                return Some(t);
            },
            None => {},
        }
        i += 1;
    }
    None
}

/// The first position at or after `from` where `chars` holds `c`.
pub open spec fn first_from(chars: Seq<char>, c: char, from: int) -> Option<int>
    decreases chars.len() - from,
{
    if from < 0 || from >= chars.len() {
        None
    } else if chars[from] == c {
        Some(from)
    } else {
        first_from(chars, c, from + 1)
    }
}

pub proof fn lemma_first_from_bounds(chars: Seq<char>, c: char, from: int)
    ensures
        first_from(chars, c, from) matches Some(k) ==> from <= k < chars.len() && chars[k] == c,
    decreases chars.len() - from,
{
    if 0 <= from < chars.len() && chars[from] != c {
        lemma_first_from_bounds(chars, c, from + 1);
    }
}

/// For a `[` at `start`: the positions of the `]` that closes the label and of the
/// `)` that closes the `(` right after it.
pub open spec fn link_bounds(chars: Seq<char>, start: int) -> Option<(int, int)> {
    match first_from(chars, ']', start + 1) {
        None => None,
        Some(le) => if le + 1 < chars.len() && chars[le + 1] == '(' {
            match first_from(chars, ')', le + 2) {
                None => None,
                Some(e) => Some((le, e)),
            }
        } else {
            None
        },
    }
}

fn find_char_from(chars: &Vec<char>, c: char, from: usize) -> (r: Option<usize>)
    ensures
        match first_from(chars@, c, from as int) {
            Some(k) => r == Some(k as usize),
            None => r is None,
        },
{
    let mut i = from;
    while i < chars.len()
        invariant
            from <= i,
            first_from(chars@, c, from as int) == first_from(chars@, c, i as int),
        decreases chars.len() - i,
    {
        if chars[i] == c {
            return Some(i);
        }
        i += 1;
    }
    None
}

pub fn markdown_link_bounds(chars: &Vec<char>, start: usize) -> (r: Option<(usize, usize)>)
    requires
        start < chars@.len(),
    ensures
        match link_bounds(chars@, start as int) {
            Some((a, b)) => r == Some((a as usize, b as usize)),
            None => r is None,
        },
{
    let n = chars.len();
    let label_end = match find_char_from(chars, ']', start + 1) {
        Some(k) => k,
        None => {
            return None;
        },
    };
    proof {
        lemma_first_from_bounds(chars@, ']', start + 1);
    }
    if label_end + 1 >= n || chars[label_end + 1] != '(' {
        return None;
    }
    match find_char_from(chars, ')', label_end + 2) {
        Some(e) => Some((label_end, e)),
        None => None,
    }
}

/// The marks dropped from titles: backticks, asterisks and underscores.
pub open spec fn is_markup(c: char) -> bool {
    c == '`' || c == '*' || c == '_'
}

/// `chars[i..]` without inline markup: a link `[label](target)` keeps its label, and
/// backticks, asterisks and underscores are dropped.
pub open spec fn strip_from(chars: Seq<char>, i: int) -> Seq<char>
    decreases chars.len() - i,
{
    if i < 0 || i >= chars.len() {
        Seq::empty()
    } else if chars[i] == '[' && link_bounds(chars, i) is Some {
        let (le, e) = link_bounds(chars, i)->0;
        if i < e + 1 <= chars.len() && i + 1 <= le <= chars.len() {
            chars.subrange(i + 1, le) + strip_from(chars, e + 1)
        } else {
            Seq::empty()
        }
    } else if is_markup(chars[i]) {
        strip_from(chars, i + 1)
    } else {
        seq![chars[i]] + strip_from(chars, i + 1)
    }
}

proof fn lemma_link_bounds_order(chars: Seq<char>, i: int)
    requires
        0 <= i < chars.len(),
        link_bounds(chars, i) is Some,
    ensures
        link_bounds(chars, i) matches Some((a, b)) ==> i < a < b < chars.len(),
{
    lemma_first_from_bounds(chars, ']', i + 1);
    let le = first_from(chars, ']', i + 1)->0;
    lemma_first_from_bounds(chars, ')', le + 2);
}

pub fn strip_markdown_inline_markup(title: &str) -> (r: String)
    ensures
        r@ == strip_from(title@, 0),
{
    let chars = chars_of(title);
    let mut output = String::new();
    let mut index: usize = 0;
    while index < chars.len()
        invariant
            index <= chars.len(),
            output@ + strip_from(chars@, index as int) == strip_from(chars@, 0),
        decreases chars.len() - index,
    {
        let ch = chars[index];
        if ch == '[' {
            match markdown_link_bounds(&chars, index) {
                Some((label_end, link_end)) => {
                    proof {
                        lemma_link_bounds_order(chars@, index as int);
                    }
                    let ghost before = output@;
                    push_chars(&mut output, &chars, index + 1, label_end);
                    assert(output@ + strip_from(chars@, link_end + 1) =~= before + strip_from(
                        chars@,
                        index as int,
                    ));
                    index = link_end + 1;
                    continue;
                },
                None => {},
            }
        }
        if ch == '`' || ch == '*' || ch == '_' {
            index += 1;
            continue;
        }
        let ghost before = output@;
        push_char(&mut output, ch);
        assert(output@ + strip_from(chars@, index + 1) =~= before + strip_from(chars@, index as int));
        index += 1;
    }
    assert(output@ =~= output@ + strip_from(chars@, index as int));
    output
}


/// The characters of `c.to_lowercase()`.
pub uninterp spec fn lowercase_of(c: char) -> Seq<char>;

/// Calls `char::to_lowercase` and collects its characters. The contract names the
/// result without stating the Unicode case tables it follows.
#[verifier::external_body]
fn char_lowercase(c: char) -> (r: Vec<char>)
    ensures
        r@ == lowercase_of(c),
{
    c.to_lowercase().collect()
}

pub open spec fn is_ascii_alnum(c: char) -> bool {
    let u = c as u32;
    (48 <= u <= 57) || (65 <= u <= 90) || (97 <= u <= 122)
}

/// `char::to_ascii_lowercase`.
pub open spec fn ascii_lower(c: char) -> char {
    let u = c as u32;
    if 65 <= u <= 90 {
        (u + 32) as char
    } else {
        c
    }
}

/// `out`, with a `-` added when a separator is pending and `out` is not empty.
pub open spec fn with_sep(out: Seq<char>, pending: bool) -> Seq<char> {
    if pending && out.len() > 0 {
        out.push('-')
    } else {
        out
    }
}

/// Appends the lowercase characters of a non-ASCII character, each after a pending
/// separator.
pub open spec fn push_lowers(out: Seq<char>, pending: bool, lowers: Seq<char>) -> (Seq<char>, bool)
    decreases lowers.len(),
{
    if lowers.len() == 0 {
        (out, pending)
    } else {
        let (o, p) = push_lowers(out, pending, lowers.drop_last());
        (with_sep(o, p).push(lowers.last()), false)
    }
}

/// One character of a title slug: ASCII letters and digits are kept in lowercase,
/// other ASCII characters become one pending `-`, other characters are kept in
/// lowercase.
pub open spec fn slug_step(st: (Seq<char>, bool), ch: char) -> (Seq<char>, bool) {
    if is_ascii_alnum(ch) {
        (with_sep(st.0, st.1).push(ascii_lower(ch)), false)
    } else if (ch as u32) < 128 {
        (st.0, true)
    } else {
        push_lowers(st.0, st.1, lowercase_of(ch))
    }
}

pub open spec fn slug_all(s: Seq<char>) -> (Seq<char>, bool)
    decreases s.len(),
{
    if s.len() == 0 {
        (Seq::empty(), false)
    } else {
        slug_step(slug_all(s.drop_last()), s.last())
    }
}

/// The file name stem a spec title calls for: its markup stripped, then its slug;
/// none when the slug is empty.
pub open spec fn title_slug(title: Seq<char>) -> Option<Seq<char>> {
    let out = slug_all(strip_from(title, 0)).0;
    if out.len() == 0 {
        None
    } else {
        Some(out)
    }
}

pub fn normalize_spec_title(title: &str) -> (r: Option<String>)
    ensures
        match title_slug(title@) {
            Some(t) => r matches Some(s) && s@ == t,
            None => r is None,
        },
{
    let stripped = strip_markdown_inline_markup(title);
    let chars = chars_of(stripped.as_str());
    let mut normalized = String::new();
    let mut pending = false;
    let mut i: usize = 0;
    while i < chars.len()
        invariant
            i <= chars.len(),
            (normalized@, pending) == slug_all(chars@.take(i as int)),
        decreases chars.len() - i,
    {
        let ch = chars[i];
        assert(chars@.take(i + 1).drop_last() =~= chars@.take(i as int));
        let u = ch as u32;
        if (48 <= u && u <= 57) || (65 <= u && u <= 90) || (97 <= u && u <= 122) {
            if pending && !normalized.as_str().is_empty() {
                push_char(&mut normalized, '-');
            }
            let lower = if 65 <= u && u <= 90 {
                ((u + 32) as u8) as char
            } else {
                ch
            };
            assert(lower == ascii_lower(ch));
            push_char(&mut normalized, lower);
            pending = false;
        } else if u < 128 {
            pending = true;
        } else {
            let lowers = char_lowercase(ch);
            let ghost out0 = normalized@;
            let ghost p0 = pending;
            let mut k: usize = 0;
            while k < lowers.len()
                invariant
                    k <= lowers.len(),
                    (normalized@, pending) == push_lowers(out0, p0, lowers@.take(k as int)),
                decreases lowers.len() - k,
            {
                assert(lowers@.take(k + 1).drop_last() =~= lowers@.take(k as int));
                if pending && !normalized.as_str().is_empty() {
                    push_char(&mut normalized, '-');
                }
                push_char(&mut normalized, lowers[k]);
                pending = false;
                k += 1;
            }
            assert(lowers@.take(lowers.len() as int) =~= lowers@);
        }
        i += 1;
    }
    assert(chars@.take(chars.len() as int) =~= chars@);
    if normalized.as_str().is_empty() {
        None
    } else {
        Some(normalized)
    }
}

/// The last component of a path, as `Path::file_name` gives it: the last segment
/// that is neither empty nor `.`; none when there is none or it is `..`.
pub open spec fn file_name_spec(path: Seq<char>) -> Option<Seq<char>> {
    let kept = crate::repo_path::kept_segments(crate::repo_path::split_on_slash(path));
    if kept.len() == 0 || kept.last() == seq!['.', '.'] {
        None
    } else {
        Some(kept.last())
    }
}

proof fn lemma_kept_last(segs: Seq<Seq<char>>)
    ensures
        crate::repo_path::kept_segments(segs).len() > 0 ==> exists|j: int|
            0 <= j < segs.len() && segs[j] == crate::repo_path::kept_segments(segs).last() && crate::repo_path::is_kept_segment(segs[j])
            && forall|t: int| j < t < segs.len() ==> !crate::repo_path::is_kept_segment(#[trigger] segs[t]),
        crate::repo_path::kept_segments(segs).len() == 0 ==> forall|t: int|
            0 <= t < segs.len() ==> !crate::repo_path::is_kept_segment(#[trigger] segs[t]),
    decreases segs.len(),
{
    if segs.len() > 0 {
        lemma_kept_last(segs.drop_last());
        if crate::repo_path::is_kept_segment(segs.last()) {
            assert(segs[segs.len() - 1] == segs.last());
        } else {
            let k = crate::repo_path::kept_segments(segs.drop_last());
            if k.len() > 0 {
                let j = choose|j: int|
                    0 <= j < segs.drop_last().len() && segs.drop_last()[j] == k.last()
                        && crate::repo_path::is_kept_segment(segs.drop_last()[j]) && forall|t: int|
                        j < t < segs.drop_last().len() ==> !crate::repo_path::is_kept_segment(
                            #[trigger] segs.drop_last()[t],
                        );
                assert(segs[j] == k.last());
                assert forall|t: int| j < t < segs.len() implies !crate::repo_path::is_kept_segment(#[trigger] segs[t]) by {
                    if t < segs.len() - 1 {
                        assert(segs[t] == segs.drop_last()[t]);
                    }
                }
            } else {
                assert forall|t: int| 0 <= t < segs.len() implies !crate::repo_path::is_kept_segment(#[trigger] segs[t]) by {
                    if t < segs.len() - 1 {
                        assert(segs[t] == segs.drop_last()[t]);
                    }
                }
            }
        }
    }
}

/// The last component of `path`, when it has one.
pub fn path_file_name(path: &str) -> (r: Option<String>)
    ensures
        match file_name_spec(path@) {
            Some(n) => r matches Some(s) && s@ == n,
            None => r is None,
        },
{
    let v = chars_of(path);
    let segs = crate::repo_path::split_slash_chars(&v);
    let ghost sv = crate::repo_path::views(segs@);
    proof {
        lemma_kept_last(sv);
    }
    let mut found: Option<usize> = None;
    let mut i: usize = 0;
    while i < segs.len()
        invariant
            i <= segs.len(),
            sv == crate::repo_path::views(segs@),
            match found {
                Some(j) => j < i && crate::repo_path::is_kept_segment(sv[j as int]) && forall|t: int|
                    j < t < i ==> !crate::repo_path::is_kept_segment(#[trigger] sv[t]),
                None => forall|t: int| 0 <= t < i ==> !crate::repo_path::is_kept_segment(#[trigger] sv[t]),
            },
        decreases segs.len() - i,
    {
        let seg = &segs[i];
        assert(sv[i as int] == seg@);
        let kept = seg.len() > 0 && !(seg.len() == 1 && seg[0] == '.');
        proof {
            if seg@ == seq!['.'] {
                assert(seg@[0] == '.');
            }
            if seg.len() == 1 && seg@[0] == '.' {
                assert(seg@ =~= seq!['.']);
            }
        }
        if kept {
            found = Some(i);
        }
        i += 1;
    }
    let ghost kept_all = crate::repo_path::kept_segments(sv);
    match found {
        None => {
            proof {
                if kept_all.len() > 0 {
                    let j = choose|j: int|
                        0 <= j < sv.len() && sv[j] == kept_all.last() && crate::repo_path::is_kept_segment(sv[j])
                            && forall|t: int| j < t < sv.len() ==> !crate::repo_path::is_kept_segment(#[trigger] sv[t]);
                    assert(!crate::repo_path::is_kept_segment(sv[j]));
                }
            }
            None
        },
        Some(j) => {
            let seg = &segs[j];
            proof {
                assert(kept_all.len() > 0) by {
                    if kept_all.len() == 0 {
                        assert(!crate::repo_path::is_kept_segment(sv[j as int]));
                    }
                }
                let j2 = choose|j2: int|
                    0 <= j2 < sv.len() && sv[j2] == kept_all.last() && crate::repo_path::is_kept_segment(sv[j2])
                        && forall|t: int| j2 < t < sv.len() ==> !crate::repo_path::is_kept_segment(#[trigger] sv[t]);
                if j2 < j {
                    assert(!crate::repo_path::is_kept_segment(sv[j as int]));
                }
                if j2 > j {
                    assert(!crate::repo_path::is_kept_segment(sv[j2]));
                }
                assert(sv[j as int] == seg@);
            }
            if seg.len() == 2 && seg[0] == '.' && seg[1] == '.' {
                assert(seg@ =~= seq!['.', '.']);
                None
            } else {
                assert(seg@ != seq!['.', '.']) by {
                    if seg@ == seq!['.', '.'] {
                        assert(seg@[0] == '.' && seg@[1] == '.');
                    }
                }
                Some(string_from_chars(seg, 0, seg.len()))
            }
        },
    }
}

/// The problem with a generated spec whose title and file name were read: no H1
/// title, a title with no slug, no file name, or a file name other than the slug
/// with `.md`.
pub open spec fn spec_title_problem(path: Seq<char>, content: Seq<char>, number: nat) -> Option<Seq<char>> {
    let head = "expectation "@ + decimal(number) + " generated spec "@ + path;
    match first_h1(split_lines(content), 0) {
        None => Some(head + " must contain an H1 title"@),
        Some(title) => match title_slug(title) {
            None => Some(head + " H1 title must normalize to a filename"@),
            Some(slug) => match file_name_spec(path) {
                None => Some("expectation "@ + decimal(number) + " generated spec path is invalid: "@
                    + path),
                Some(actual) => if actual == slug + ".md"@ {
                    None
                } else {
                    Some(head + " H1 title normalizes to "@ + slug + ".md"@ + ", but filename is "@
                        + actual)
                },
            },
        },
    }
}

/// A generated spec's H1 title must normalise to its file name without `.md`.
pub fn validate_generator_spec_title(path: &str, content: &str, number: usize) -> (r: Result<(), String>)
    ensures
        match spec_title_problem(path@, content@, number as nat) {
            None => r is Ok,
            Some(m) => r matches Err(e) && e@ == m,
        },
{
    let mut head = numbered("expectation ", number, " generated spec ");
    head.append(path);
    let title = match spec_h1_title(content) {
        Some(t) => t,
        None => {
            head.append(" must contain an H1 title");
            return Err(head);
        },
    };
    let normalized = match normalize_spec_title(title.as_str()) {
        Some(n) => n,
        None => {
            head.append(" H1 title must normalize to a filename");
            return Err(head);
        },
    };
    let mut expected = normalized.clone();
    expected.append(".md");
    let actual = match path_file_name(path) {
        Some(a) => a,
        None => {
            let mut e = numbered("expectation ", number, " generated spec path is invalid: ");
            e.append(path);
            return Err(e);
        },
    };
    if crate::text::str_eq(actual.as_str(), expected.as_str()) {
        return Ok(());
    }
    head.append(" H1 title normalizes to ");
    head.append(expected.as_str());
    head.append(", but filename is ");
    head.append(actual.as_str());
    Err(head)
}

/// `s` without its trailing slashes.
pub open spec fn trim_end_slashes(s: Seq<char>) -> Seq<char>
    decreases s.len(),
{
    if s.len() > 0 && s.last() == '/' {
        trim_end_slashes(s.drop_last())
    } else {
        s
    }
}

/// A generator path joined to the directory of its config file.
pub fn join_repo_path(config_dir: &str, path: &str) -> (r: String)
    ensures
        r@ == if config_dir@.len() == 0 {
            path@
        } else {
            trim_end_slashes(config_dir@) + seq!['/'] + path@
        },
{
    let d = chars_of(config_dir);
    if d.len() == 0 {
        return String::from_str(path);
    }
    let mut end = d.len();
    assert(d@.take(end as int) =~= d@);
    while end > 0 && d[end - 1] == '/'
        invariant
            end <= d.len(),
            trim_end_slashes(d@) == trim_end_slashes(d@.take(end as int)),
        decreases end,
    {
        assert(d@.take(end as int).drop_last() =~= d@.take(end - 1));
        end -= 1;
    }
    let mut out = string_from_chars(&d, 0, end);
    proof {
        assert(d@.subrange(0, end as int) =~= d@.take(end as int));
    }
    push_char(&mut out, '/');
    out.append(path);
    out
}


/// `s` split at every `sep` (`str::split`).
pub open spec fn split_on_char(s: Seq<char>, sep: char) -> Seq<Seq<char>>
    decreases s.len(),
{
    if s.len() == 0 {
        seq![Seq::<char>::empty()]
    } else {
        let r = split_on_char(s.drop_last(), sep);
        if s.last() == sep {
            r.push(Seq::<char>::empty())
        } else {
            r.update(r.len() - 1, r.last().push(s.last()))
        }
    }
}

proof fn lemma_split_on_char_nonempty(s: Seq<char>, sep: char)
    ensures
        split_on_char(s, sep).len() >= 1,
    decreases s.len(),
{
    if s.len() > 0 {
        lemma_split_on_char_nonempty(s.drop_last(), sep);
    }
}

fn split_chars_on(v: &Vec<char>, sep: char) -> (r: Vec<Vec<char>>)
    ensures
        line_views(r@) == split_on_char(v@, sep),
{
    let mut parts: Vec<Vec<char>> = Vec::new();
    let mut cur: Vec<char> = Vec::new();
    let mut i: usize = 0;
    assert(line_views(parts@).push(cur@) =~= split_on_char(v@.take(0), sep));
    while i < v.len()
        invariant
            i <= v.len(),
            line_views(parts@).push(cur@) == split_on_char(v@.take(i as int), sep),
        decreases v.len() - i,
    {
        let c = v[i];
        let ghost prev = v@.take(i as int);
        assert(v@.take(i + 1).drop_last() =~= prev);
        assert(v@.take(i + 1).last() == c);
        if c == sep {
            let done = cur;
            parts.push(done);
            cur = Vec::new();
            assert(line_views(parts@).push(cur@) =~= split_on_char(prev, sep).push(Seq::<char>::empty()));
        } else {
            cur.push(c);
            let ghost sp = split_on_char(prev, sep);
            assert(line_views(parts@).push(cur@) =~= sp.update(sp.len() - 1, sp.last().push(c)));
        }
        i += 1;
    }
    parts.push(cur);
    assert(v@.take(v@.len() as int) =~= v@);
    assert(line_views(parts@) =~= split_on_char(v@, sep));
    parts
}

fn chars_match_at(s: &Vec<char>, i: usize, p: &Vec<char>) -> (r: bool)
    requires
        i <= s.len(),
    ensures
        r == starts_with_at(s@, i as int, p@),
{
    if s.len() - i < p.len() {
        return false;
    }
    let mut k: usize = 0;
    while k < p.len()
        invariant
            k <= p.len(),
            i + p.len() <= s.len(),
            forall|j: int| 0 <= j < k ==> s@[i + j] == p@[j],
        decreases p.len() - k,
    {
        if s[i + k] != p[k] {
            assert(s@.subrange(i as int, i + p.len())[k as int] != p@[k as int]);
            return false;
        }
        k += 1;
    }
    assert(s@.subrange(i as int, i + p.len()) =~= p@);
    true
}

/// The first position at or after `from` where `p` occurs in `s` (`str::find`).
pub open spec fn find_from(s: Seq<char>, p: Seq<char>, from: int) -> Option<int>
    decreases s.len() + 1 - from,
{
    if from < 0 || from + p.len() > s.len() {
        None
    } else if s.subrange(from, from + p.len()) == p {
        Some(from)
    } else {
        find_from(s, p, from + 1)
    }
}

proof fn lemma_find_from_bounds(s: Seq<char>, p: Seq<char>, from: int)
    ensures
        find_from(s, p, from) matches Some(i) ==> from <= i && i + p.len() <= s.len(),
    decreases s.len() + 1 - from,
{
    if 0 <= from && from + p.len() <= s.len() && s.subrange(from, from + p.len()) != p {
        lemma_find_from_bounds(s, p, from + 1);
    }
}

fn find_chars_from(s: &Vec<char>, p: &Vec<char>, from: usize) -> (r: Option<usize>)
    requires
        from <= s.len(),
    ensures
        match find_from(s@, p@, from as int) {
            Some(i) => r == Some(i as usize),
            None => r is None,
        },
{
    let mut i = from;
    while s.len() - i >= p.len()
        invariant
            from <= i <= s.len(),
            find_from(s@, p@, from as int) == find_from(s@, p@, i as int),
        decreases s.len() - i,
    {
        if chars_match_at(s, i, p) {
            return Some(i);
        }
        assert(p@.len() > 0) by {
            if p@.len() == 0 {
                assert(s@.subrange(i as int, i as int) =~= p@);
            }
        }
        i += 1;
    }
    None
}

/// Where matching continues after the middle parts `parts[k..len - 1]`, each found
/// leftmost from `pos` on; none when one is missing.
pub open spec fn after_middles(text: Seq<char>, parts: Seq<Seq<char>>, k: int, pos: int) -> Option<int>
    decreases parts.len() - k,
{
    if k < 0 || k >= parts.len() - 1 {
        Some(pos)
    } else if parts[k].len() == 0 {
        after_middles(text, parts, k + 1, pos)
    } else {
        match find_from(text, parts[k], pos) {
            None => None,
            Some(i) => after_middles(text, parts, k + 1, i + parts[k].len()),
        }
    }
}

/// Whether `text` matches a pattern in which `*` stands for any run of characters:
/// the first part is a prefix, the middle parts are found in order from the left,
/// and the last part is a suffix of what remains.
pub open spec fn wildcard_spec(pattern: Seq<char>, text: Seq<char>) -> bool {
    let parts = split_on_char(pattern, '*');
    if parts.len() == 1 {
        pattern == text
    } else {
        let prefix = parts[0];
        if prefix.len() > 0 && !(prefix.len() <= text.len() && text.take(prefix.len() as int) == prefix) {
            false
        } else {
            match after_middles(text, parts, 1, prefix.len() as int) {
                None => false,
                Some(pos) => {
                    let suffix = parts.last();
                    suffix.len() == 0 || (text.len() - pos >= suffix.len() && text.subrange(
                        text.len() - suffix.len(),
                        text.len() as int,
                    ) == suffix)
                },
            }
        }
    }
}

pub fn wildcard_match(pattern: &str, text: &str) -> (r: bool)
    ensures
        r == wildcard_spec(pattern@, text@),
{
    let pv = chars_of(pattern);
    let tv = chars_of(text);
    let parts = split_chars_on(&pv, '*');
    let ghost ps = split_on_char(pattern@, '*');
    proof {
        lemma_split_on_char_nonempty(pattern@, '*');
    }
    if parts.len() == 1 {
        return crate::text::chars_eq(&pv, &tv);
    }
    let prefix = &parts[0];
    assert(ps[0] == prefix@);
    let mut pos: usize = 0;
    if prefix.len() > 0 {
        if !chars_match_at(&tv, 0, prefix) {
            proof {
                if prefix@.len() <= tv@.len() && tv@.take(prefix@.len() as int) == prefix@ {
                    assert(tv@.subrange(0, prefix@.len() as int) == tv@.take(prefix@.len() as int));
                }
            }
            return false;
        }
        assert(tv@.subrange(0, prefix@.len() as int) == tv@.take(prefix@.len() as int));
        pos = prefix.len();
    }
    let last = parts.len() - 1;
    let mut k: usize = 1;
    while k < last
        invariant
            1 <= k <= last,
            last == parts.len() - 1,
            pos <= tv.len(),
            ps == line_views(parts@),
            after_middles(tv@, ps, 1, ps[0].len() as int) == after_middles(tv@, ps, k as int, pos as int),
            ps == split_on_char(pattern@, '*'),
            tv@ == text@,
            ps.len() > 1,
            ps[0].len() > 0 ==> ps[0].len() <= tv@.len() && tv@.take(ps[0].len() as int) == ps[0],
        decreases last - k,
    {
        let part = &parts[k];
        assert(ps[k as int] == part@);
        if part.len() > 0 {
            match find_chars_from(&tv, part, pos) {
                None => {
                    return false;
                },
                Some(i) => {
                    proof {
                        lemma_find_from_bounds(tv@, part@, pos as int);
                    }
                    pos = i + part.len();
                },
            }
        }
        k += 1;
    }
    let suffix = &parts[last];
    assert(ps.last() == suffix@);
    if suffix.len() == 0 {
        return true;
    }
    if tv.len() - pos < suffix.len() {
        return false;
    }
    chars_match_at(&tv, tv.len() - suffix.len(), suffix)
}

} // verus!
