//! Character-level building blocks shared by the parsers and renderers.

use vstd::prelude::*;

verus! {

/// Unicode `White_Space` (the characters that `char::is_whitespace` accepts).
pub open spec fn is_ws(c: char) -> bool {
    let u = c as u32;
    ||| 0x09 <= u <= 0x0d
    ||| u == 0x20
    ||| u == 0x85
    ||| u == 0xa0
    ||| u == 0x1680
    ||| 0x2000 <= u <= 0x200a
    ||| u == 0x2028
    ||| u == 0x2029
    ||| u == 0x202f
    ||| u == 0x205f
    ||| u == 0x3000
}

/// Unicode general category `Cc` (the characters that `char::is_control` accepts).
pub open spec fn is_control(c: char) -> bool {
    let u = c as u32;
    u <= 0x1f || (0x7f <= u && u <= 0x9f)
}

pub open spec fn is_ascii_digit(c: char) -> bool {
    48 <= (c as u32) <= 57
}

pub open spec fn is_ascii_lower(c: char) -> bool {
    97 <= (c as u32) <= 122
}

pub open spec fn is_ascii_upper(c: char) -> bool {
    65 <= (c as u32) <= 90
}

pub open spec fn is_ascii_char(c: char) -> bool {
    (c as u32) < 128
}

/// Every character of `s` is whitespace (so `s.trim()` is empty).
pub open spec fn is_blank(s: Seq<char>) -> bool {
    forall|i: int| 0 <= i < s.len() ==> #[trigger] is_ws(s[i])
}

/// `s` with its leading whitespace removed (`str::trim_start`).
pub open spec fn trim_start_spec(s: Seq<char>) -> Seq<char>
    decreases s.len(),
{
    if s.len() > 0 && is_ws(s[0]) {
        trim_start_spec(s.drop_first())
    } else {
        s
    }
}

/// `s` with its trailing whitespace removed (`str::trim_end`).
pub open spec fn trim_end_spec(s: Seq<char>) -> Seq<char>
    decreases s.len(),
{
    if s.len() > 0 && is_ws(s.last()) {
        trim_end_spec(s.drop_last())
    } else {
        s
    }
}

/// `s` with surrounding whitespace removed (`str::trim`).
pub open spec fn trim_spec(s: Seq<char>) -> Seq<char> {
    trim_end_spec(trim_start_spec(s))
}

/// The decimal digit character for `d < 10`.
pub open spec fn digit_char(d: nat) -> char {
    (d + 48) as char
}

/// The decimal rendering of `n`, without sign or separators.
pub open spec fn decimal(n: nat) -> Seq<char>
    decreases n,
{
    if n < 10 {
        seq![digit_char(n)]
    } else {
        decimal(n / 10).push(digit_char(n % 10))
    }
}

/// The value of a run of ASCII decimal digits.
pub open spec fn digits_value(s: Seq<char>) -> nat
    decreases s.len(),
{
    if s.len() == 0 {
        0
    } else {
        digits_value(s.drop_last()) * 10 + ((s.last() as u32) - 48) as nat
    }
}

pub open spec fn all_digits(s: Seq<char>) -> bool {
    forall|i: int| 0 <= i < s.len() ==> #[trigger] is_ascii_digit(s[i])
}

/// Appends one character to a string (`String::push`).
#[verifier::external_body]
pub(crate) fn push_char(s: &mut String, c: char)
    ensures
        final(s)@ == old(s)@.push(c),
{
    s.push(c);
}

/// The characters of a string slice, in order.
pub fn chars_of(s: &str) -> (v: Vec<char>)
    ensures
        v@ == s@,
{
    let mut v: Vec<char> = Vec::new();
    for c in iter: s.chars()
        invariant
            v@ == iter.seq().take(iter.index() as int),
    {
        v.push(c);
    }
    v
}

/// A string holding the characters `v[start..end]`.
pub fn string_from_chars(v: &Vec<char>, start: usize, end: usize) -> (s: String)
    requires
        start <= end <= v.len(),
    ensures
        s@ == v@.subrange(start as int, end as int),
{
    let mut s = String::new();
    let mut i = start;
    while i < end
        invariant
            start <= i <= end <= v.len(),
            s@ == v@.subrange(start as int, i as int),
        decreases end - i,
    {
        push_char(&mut s, v[i]);
        assert(v@.subrange(start as int, i + 1) == v@.subrange(start as int, i as int).push(v@[i as int]));
        i += 1;
    }
    s
}

/// Appends `v[start..end]` to `s`.
pub fn push_chars(s: &mut String, v: &Vec<char>, start: usize, end: usize)
    requires
        start <= end <= v.len(),
    ensures
        final(s)@ == old(s)@ + v@.subrange(start as int, end as int),
{
    let mut i = start;
    while i < end
        invariant
            start <= i <= end <= v.len(),
            s@ == old(s)@ + v@.subrange(start as int, i as int),
        decreases end - i,
    {
        push_char(s, v[i]);
        assert(v@.subrange(start as int, i + 1) == v@.subrange(start as int, i as int).push(v@[i as int]));
        i += 1;
    }
}

/// Whether two strings hold the same characters.
pub fn str_eq(a: &str, b: &str) -> (r: bool)
    ensures
        r == (a@ == b@),
{
    let x = chars_of(a);
    let y = chars_of(b);
    chars_eq(&x, &y)
}

/// Whether two character vectors are equal.
pub fn chars_eq(x: &Vec<char>, y: &Vec<char>) -> (r: bool)
    ensures
        r == (x@ == y@),
{
    if x.len() != y.len() {
        return false;
    }
    let mut i: usize = 0;
    while i < x.len()
        invariant
            x.len() == y.len(),
            i <= x.len(),
            forall|j: int| 0 <= j < i ==> x@[j] == y@[j],
        decreases x.len() - i,
    {
        if x[i] != y[i] {
            return false;
        }
        i += 1;
    }
    assert(x@ =~= y@);
    true
}

/// Whether `s` starts with `prefix`.
pub fn chars_starts_with(s: &Vec<char>, prefix: &Vec<char>) -> (r: bool)
    ensures
        r == (prefix@.len() <= s@.len() && s@.subrange(0, prefix@.len() as int) == prefix@),
{
    if prefix.len() > s.len() {
        return false;
    }
    let mut i: usize = 0;
    while i < prefix.len()
        invariant
            prefix.len() <= s.len(),
            i <= prefix.len(),
            forall|j: int| 0 <= j < i ==> s@[j] == prefix@[j],
        decreases prefix.len() - i,
    {
        if s[i] != prefix[i] {
            assert(s@.subrange(0, prefix@.len() as int)[i as int] != prefix@[i as int]);
            return false;
        }
        i += 1;
    }
    assert(s@.subrange(0, prefix@.len() as int) =~= prefix@);
    true
}

/// `char::is_whitespace`.
pub fn is_ws_char(c: char) -> (r: bool)
    ensures
        r == is_ws(c),
{
    let u = c as u32;
    (0x09 <= u && u <= 0x0d) || u == 0x20 || u == 0x85 || u == 0xa0 || u == 0x1680 || (0x2000
        <= u && u <= 0x200a) || u == 0x2028 || u == 0x2029 || u == 0x202f || u == 0x205f || u
        == 0x3000
}

/// `char::is_control`.
pub fn is_control_char(c: char) -> (r: bool)
    ensures
        r == is_control(c),
{
    let u = c as u32;
    u <= 0x1f || (0x7f <= u && u <= 0x9f)
}

/// `char::is_ascii_digit`.
pub fn is_ascii_digit_char(c: char) -> (r: bool)
    ensures
        r == is_ascii_digit(c),
{
    let u = c as u32;
    48 <= u && u <= 57
}

/// `char::is_ascii_lowercase`.
pub fn is_ascii_lower_char(c: char) -> (r: bool)
    ensures
        r == is_ascii_lower(c),
{
    let u = c as u32;
    97 <= u && u <= 122
}

/// Whether every character of `s` is whitespace (`s.trim().is_empty()`).
pub fn chars_blank(s: &Vec<char>) -> (r: bool)
    ensures
        r == is_blank(s@),
{
    let mut i: usize = 0;
    while i < s.len()
        invariant
            i <= s.len(),
            forall|j: int| 0 <= j < i ==> is_ws(#[trigger] s@[j]),
        decreases s.len() - i,
    {
        if !is_ws_char(s[i]) {
            return false;
        }
        i += 1;
    }
    true
}

/// Whether a string is blank.
pub fn str_blank(s: &str) -> (r: bool)
    ensures
        r == is_blank(s@),
{
    let v = chars_of(s);
    chars_blank(&v)
}

pub proof fn lemma_trim_start_skip(s: Seq<char>, i: int)
    requires
        0 <= i <= s.len(),
        forall|j: int| 0 <= j < i ==> is_ws(#[trigger] s[j]),
    ensures
        trim_start_spec(s) == trim_start_spec(s.subrange(i, s.len() as int)),
    decreases i,
{
    if i > 0 {
        assert(s.drop_first() =~= s.subrange(1, s.len() as int));
        lemma_trim_start_skip(s.drop_first(), i - 1);
        assert(s.drop_first().subrange(i - 1, s.drop_first().len() as int) =~= s.subrange(
            i,
            s.len() as int,
        ));
    } else {
        assert(s.subrange(0, s.len() as int) =~= s);
    }
}

pub proof fn lemma_trim_end_skip(s: Seq<char>, k: int)
    requires
        0 <= k <= s.len(),
        forall|j: int| k <= j < s.len() ==> is_ws(#[trigger] s[j]),
    ensures
        trim_end_spec(s) == trim_end_spec(s.subrange(0, k)),
    decreases s.len() - k,
{
    if k < s.len() {
        assert(s.drop_last() =~= s.subrange(0, s.len() - 1));
        lemma_trim_end_skip(s.drop_last(), k);
        assert(s.drop_last().subrange(0, k) =~= s.subrange(0, k));
    } else {
        assert(s.subrange(0, s.len() as int) =~= s);
    }
}

/// The bounds `(start, end)` of `s.trim()` within `s`.
pub fn trim_bounds(s: &Vec<char>) -> (r: (usize, usize))
    ensures
        r.0 <= r.1 <= s@.len(),
        trim_spec(s@) == s@.subrange(r.0 as int, r.1 as int),
        trim_start_spec(s@) == s@.subrange(r.0 as int, s@.len() as int),
{
    let mut start: usize = 0;
    while start < s.len() && is_ws_char(s[start])
        invariant
            start <= s.len(),
            forall|j: int| 0 <= j < start ==> is_ws(#[trigger] s@[j]),
        decreases s.len() - start,
    {
        start += 1;
    }
    proof {
        lemma_trim_start_skip(s@, start as int);
        let t = s@.subrange(start as int, s@.len() as int);
        if t.len() > 0 {
            assert(t[0] == s@[start as int]);
        }
    }
    let mut end: usize = s.len();
    while end > start && is_ws_char(s[end - 1])
        invariant
            start <= end <= s.len(),
            forall|j: int| end <= j < s.len() ==> is_ws(#[trigger] s@[j]),
        decreases end,
    {
        end -= 1;
    }
    proof {
        let t = s@.subrange(start as int, s@.len() as int);
        lemma_trim_end_skip(t, end - start);
        assert(t.subrange(0, end - start) =~= s@.subrange(start as int, end as int));
        let u = s@.subrange(start as int, end as int);
        if u.len() > 0 {
            assert(u.last() == s@[end - 1]);
        }
    }
    (start, end)
}

/// `s.trim()` as a string.
pub fn trim_str(s: &str) -> (r: String)
    ensures
        r@ == trim_spec(s@),
{
    let v = chars_of(s);
    let (a, b) = trim_bounds(&v);
    string_from_chars(&v, a, b)
}

/// Appends the decimal rendering of `n` to `s`.
pub fn push_decimal(s: &mut String, n: u64)
    ensures
        final(s)@ == old(s)@ + decimal(n as nat),
    decreases n,
{
    if n >= 10 {
        push_decimal(s, n / 10);
    }
    let d = (n % 10) as u8;
    push_char(s, (d + 48) as char);
    proof {
        assert(((d + 48) as u8) as char == digit_char((n % 10) as nat));
    }
}

/// The decimal rendering of `n` (`n.to_string()`).
pub fn decimal_string(n: u64) -> (s: String)
    ensures
        s@ == decimal(n as nat),
{
    let mut s = String::new();
    push_decimal(&mut s, n);
    assert(s@ =~= decimal(n as nat));
    s
}

/// Parses `s[start..end]`, a run of ASCII digits, as a `u64`;
/// `None` when the value does not fit.
pub fn parse_digits_u64(s: &Vec<char>, start: usize, end: usize) -> (r: Option<u64>)
    requires
        start <= end <= s.len(),
        all_digits(s@.subrange(start as int, end as int)),
    ensures
        match r {
            Some(v) => v as nat == digits_value(s@.subrange(start as int, end as int)),
            None => digits_value(s@.subrange(start as int, end as int)) > u64::MAX,
        },
{
    let ghost t = s@.subrange(start as int, end as int);
    let mut value: u64 = 0;
    let mut i = start;
    while i < end
        invariant
            start <= i <= end <= s.len(),
            t == s@.subrange(start as int, end as int),
            all_digits(t),
            value as nat == digits_value(s@.subrange(start as int, i as int)),
        decreases end - i,
    {
        let ghost prev = s@.subrange(start as int, i as int);
        let ghost next = s@.subrange(start as int, i + 1);
        assert(next.drop_last() =~= prev);
        assert(next.last() == s@[i as int]);
        assert(is_ascii_digit(t[i - start]));
        let d = (s[i] as u32 - 48) as u64;
        match value.checked_mul(10) {
            Some(m) => match m.checked_add(d) {
                Some(v) => {
                    value = v;
                },
                None => {
                    proof {
                        lemma_digits_value_monotone(t, i + 1 - start);
                        assert(t.subrange(0, i + 1 - start) =~= next);
                    }
                    return None;
                },
            },
            None => {
                proof {
                    lemma_digits_value_monotone(t, i + 1 - start);
                    assert(t.subrange(0, i + 1 - start) =~= next);
                }
                return None;
            },
        }
        i += 1;
    }
    Some(value)
}

/// A longer digit run never has a smaller value than its prefix.
pub proof fn lemma_digits_value_monotone(t: Seq<char>, k: int)
    requires
        0 <= k <= t.len(),
        all_digits(t),
    ensures
        digits_value(t.subrange(0, k)) <= digits_value(t),
    decreases t.len() - k,
{
    if k < t.len() {
        lemma_digits_value_monotone(t.drop_last(), k);
        assert(t.drop_last().subrange(0, k) =~= t.subrange(0, k));
        assert(is_ascii_digit(t[t.len() - 1]));
        assert(digits_value(t) == digits_value(t.drop_last()) * 10 + ((t.last() as u32) - 48) as nat);
    } else {
        assert(t.subrange(0, k) =~= t);
    }
}

} // verus!
