//! Validation of a loaded check configuration.

use vstd::prelude::*;
use crate::answer::{chars_have_line_break, has_line_break, idk_text, malformed_text, OBSERVED_IDK, OBSERVED_MALFORMED};
use crate::config::CheckConfig;
use crate::durations::{cooldown_spec, parse_cooldown};
use crate::repo_path::{normalize_repo_path, normalize_spec};
use crate::text::{
    chars_blank, chars_of, decimal, is_ascii_char, is_ascii_digit, is_ascii_digit_char,
    is_ascii_lower, is_ascii_lower_char, is_blank, is_control, is_control_char, is_ws, is_ws_char,
    push_decimal, str_eq, trim_bounds, trim_spec,
};

verus! {

/// Format-control and default-ignorable characters that render as nothing.
pub open spec fn is_invisible_format(c: char) -> bool {
    let u = c as u32;
    ||| u == 0x00ad
    ||| u == 0x034f
    ||| 0x0600 <= u <= 0x0605
    ||| u == 0x061c
    ||| u == 0x06dd
    ||| u == 0x070f
    ||| 0x0890 <= u <= 0x0891
    ||| u == 0x08e2
    ||| 0x115f <= u <= 0x1160
    ||| 0x17b4 <= u <= 0x17b5
    ||| 0x180b <= u <= 0x180f
    ||| 0x200b <= u <= 0x200f
    ||| 0x202a <= u <= 0x202e
    ||| 0x2060 <= u <= 0x206f
    ||| u == 0x2800
    ||| u == 0x3164
    ||| 0xfe00 <= u <= 0xfe0f
    ||| u == 0xfeff
    ||| u == 0xffa0
    ||| 0xfff0 <= u <= 0xfffb
    ||| u == 0x110bd
    ||| u == 0x110cd
    ||| 0x13430 <= u <= 0x1345f
    ||| 0x1bca0 <= u <= 0x1bca3
    ||| 0x1d173 <= u <= 0x1d17a
    ||| u == 0xe0001
    ||| 0xe0020 <= u <= 0xe007f
    ||| 0xe0100 <= u <= 0xe01ef
}

pub open spec fn is_visible(c: char) -> bool {
    !is_control(c) && !is_ws(c) && !is_invisible_format(c)
}

/// Some character of `s` is visible.
pub open spec fn has_visible(s: Seq<char>) -> bool {
    exists|i: int| 0 <= i < s.len() && #[trigger] is_visible(s[i])
}

pub fn is_invisible_format_char(c: char) -> (r: bool)
    ensures
        r == is_invisible_format(c),
{
    let u = c as u32;
    u == 0x00ad || u == 0x034f || (0x0600 <= u && u <= 0x0605) || u == 0x061c || u == 0x06dd || u
        == 0x070f || (0x0890 <= u && u <= 0x0891) || u == 0x08e2 || (0x115f <= u && u <= 0x1160)
        || (0x17b4 <= u && u <= 0x17b5) || (0x180b <= u && u <= 0x180f) || (0x200b <= u && u
        <= 0x200f) || (0x202a <= u && u <= 0x202e) || (0x2060 <= u && u <= 0x206f) || u == 0x2800
        || u == 0x3164 || (0xfe00 <= u && u <= 0xfe0f) || u == 0xfeff || u == 0xffa0 || (0xfff0
        <= u && u <= 0xfffb) || u == 0x110bd || u == 0x110cd || (0x13430 <= u && u <= 0x1345f)
        || (0x1bca0 <= u && u <= 0x1bca3) || (0x1d173 <= u && u <= 0x1d17a) || u == 0xe0001 || (
    0xe0020 <= u && u <= 0xe007f) || (0xe0100 <= u && u <= 0xe01ef)
}

/// Whether `value` shows anything when printed.
pub fn contains_visible_config_text(value: &str) -> (r: bool)
    ensures
        r == has_visible(value@),
{
    let v = chars_of(value);
    let mut i: usize = 0;
    while i < v.len()
        invariant
            i <= v.len(),
            v@ == value@,
            forall|j: int| 0 <= j < i ==> !is_visible(#[trigger] v@[j]),
        decreases v.len() - i,
    {
        let c = v[i];
        if !is_control_char(c) && !is_ws_char(c) && !is_invisible_format_char(c) {
            assert(is_visible(v@[i as int]));
            return true;
        }
        i += 1;
    }
    false
}

/// `a + b + c` as a string.
pub fn concat3(a: &str, b: &str, c: &str) -> (r: String)
    ensures
        r@ == a@ + b@ + c@,
{
    let mut s = String::from_str(a);
    s.append(b);
    s.append(c);
    s
}

/// `a + b` as a string.
pub fn concat2(a: &str, b: &str) -> (r: String)
    ensures
        r@ == a@ + b@,
{
    let mut s = String::from_str(a);
    s.append(b);
    s
}

/// `a + decimal(n) + b` as a string.
pub fn numbered(a: &str, n: usize, b: &str) -> (r: String)
    ensures
        r@ == a@ + decimal(n as nat) + b@,
{
    let mut s = String::from_str(a);
    push_decimal(&mut s, n as u64);
    s.append(b);
    s
}

pub open spec fn trimmed_eq(s: Seq<char>) -> bool {
    trim_spec(s) == s
}

/// Whether `v.trim() == v`.
pub fn chars_trimmed_eq(v: &Vec<char>) -> (r: bool)
    ensures
        r == trimmed_eq(v@),
{
    let (a, b) = trim_bounds(v);
    proof {
        if trim_spec(v@) == v@ {
            assert(v@.subrange(a as int, b as int).len() == v@.len());
        }
        if a == 0 && b == v.len() {
            assert(v@.subrange(0, v@.len() as int) =~= v@);
        }
    }
    a == 0 && b == v.len()
}

pub open spec fn any_ws(s: Seq<char>) -> bool {
    exists|i: int| 0 <= i < s.len() && #[trigger] is_ws(s[i])
}

pub open spec fn any_control(s: Seq<char>) -> bool {
    exists|i: int| 0 <= i < s.len() && #[trigger] is_control(s[i])
}

pub open spec fn all_ascii(s: Seq<char>) -> bool {
    forall|i: int| 0 <= i < s.len() ==> #[trigger] is_ascii_char(s[i])
}

pub fn chars_any_ws(v: &Vec<char>) -> (r: bool)
    ensures
        r == any_ws(v@),
{
    let mut i: usize = 0;
    while i < v.len()
        invariant
            i <= v.len(),
            forall|j: int| 0 <= j < i ==> !is_ws(#[trigger] v@[j]),
        decreases v.len() - i,
    {
        if is_ws_char(v[i]) {
            return true;
        }
        i += 1;
    }
    false
}

pub fn chars_any_control(v: &Vec<char>) -> (r: bool)
    ensures
        r == any_control(v@),
{
    let mut i: usize = 0;
    while i < v.len()
        invariant
            i <= v.len(),
            forall|j: int| 0 <= j < i ==> !is_control(#[trigger] v@[j]),
        decreases v.len() - i,
    {
        if is_control_char(v[i]) {
            return true;
        }
        i += 1;
    }
    false
}

pub fn chars_all_ascii(v: &Vec<char>) -> (r: bool)
    ensures
        r == all_ascii(v@),
{
    let mut i: usize = 0;
    while i < v.len()
        invariant
            i <= v.len(),
            forall|j: int| 0 <= j < i ==> is_ascii_char(#[trigger] v@[j]),
        decreases v.len() - i,
    {
        if (v[i] as u32) >= 128 {
            assert(!is_ascii_char(v@[i as int]));
            return false;
        }
        i += 1;
    }
    true
}

pub open spec fn kebab_char(c: char) -> bool {
    is_ascii_lower(c) || is_ascii_digit(c) || c == '-'
}

pub open spec fn has_double_dash(s: Seq<char>) -> bool {
    exists|i: int| 0 <= i < s.len() - 1 && #[trigger] s[i] == '-' && s[i + 1] == '-'
}

/// A plugin key segment is nonempty lowercase kebab-case: ASCII lowercase letters,
/// digits and single inner dashes.
pub open spec fn plugin_segment_ok(s: Seq<char>) -> bool {
    &&& s.len() > 0
    &&& s[0] != '-'
    &&& s.last() != '-'
    &&& !has_double_dash(s)
    &&& forall|i: int| 0 <= i < s.len() ==> #[trigger] kebab_char(s[i])
}

/// Whether `v[start..end]` is a valid plugin key segment.
pub fn plugin_segment_chars(v: &Vec<char>, start: usize, end: usize) -> (r: bool)
    requires
        start <= end <= v.len(),
    ensures
        r == plugin_segment_ok(v@.subrange(start as int, end as int)),
{
    let ghost s = v@.subrange(start as int, end as int);
    if start == end {
        return false;
    }
    if v[start] == '-' || v[end - 1] == '-' {
        assert(s[0] == v@[start as int]);
        assert(s.last() == v@[end - 1]);
        return false;
    }
    let mut i = start;
    while i < end
        invariant
            start <= i <= end <= v.len(),
            s == v@.subrange(start as int, end as int),
            forall|j: int| start <= j < i ==> kebab_char(#[trigger] v@[j]),
            forall|j: int| start <= j < i && j + 1 < end ==> !(#[trigger] v@[j] == '-' && v@[j + 1] == '-'),
        decreases end - i,
    {
        let c = v[i];
        if !(is_ascii_lower_char(c) || is_ascii_digit_char(c) || c == '-') {
            assert(!kebab_char(s[i - start]));
            return false;
        }
        if c == '-' && i + 1 < end && v[i + 1] == '-' {
            assert(s[i - start] == '-' && s[i - start + 1] == '-');
            return false;
        }
        i += 1;
    }
    assert forall|j: int| 0 <= j < s.len() implies #[trigger] kebab_char(s[j]) by {
        assert(s[j] == v@[start + j]);
    }
    assert(!has_double_dash(s)) by {
        if has_double_dash(s) {
            let j = choose|j: int| 0 <= j < s.len() - 1 && #[trigger] s[j] == '-' && s[j + 1] == '-';
            assert(s[j] == v@[start + j]);
            assert(s[j + 1] == v@[start + j + 1]);
        }
    }
    assert(s[0] == v@[start as int]);
    assert(s.last() == v@[end - 1]);
    true
}

/// Whether `value` is a plugin key segment.
pub fn is_plugin_key_segment(value: &str) -> (r: bool)
    ensures
        r == plugin_segment_ok(value@),
{
    let v = chars_of(value);
    assert(v@.subrange(0, v@.len() as int) =~= v@);
    plugin_segment_chars(&v, 0, v.len())
}

/// `k` is the position of the first `@` in `s`.
pub open spec fn first_at(s: Seq<char>, k: int) -> bool {
    0 <= k < s.len() && s[k] == '@' && forall|j: int| 0 <= j < k ==> #[trigger] s[j] != '@'
}

pub open spec fn has_at(s: Seq<char>) -> bool {
    exists|k: int| 0 <= k < s.len() && #[trigger] s[k] == '@'
}

pub open spec fn plugin_shape_text(s: Seq<char>) -> Seq<char> {
    "agent plugin entry must use Codex plugin key <plugin>@<marketplace>: "@ + s
}

/// Why a plugin key (`<plugin>@<marketplace>`) is refused, if it is.
pub open spec fn plugin_error(s: Seq<char>) -> Option<Seq<char>> {
    if is_blank(s) {
        Some("agent has an empty plugin entry"@)
    } else if !trimmed_eq(s) {
        Some("agent plugin entries must not have surrounding whitespace"@)
    } else if has_line_break(s) {
        Some("agent plugin entries must be single-line strings"@)
    } else if any_ws(s) {
        Some("agent plugin entries must not contain whitespace"@)
    } else if !has_at(s) {
        Some(plugin_shape_text(s))
    } else {
        let k = choose|k: int| first_at(s, k);
        let plugin = s.subrange(0, k);
        let marketplace = s.subrange(k + 1, s.len() as int);
        if plugin.len() == 0 || marketplace.len() == 0 || has_at(marketplace) {
            Some(plugin_shape_text(s))
        } else if !plugin_segment_ok(plugin) || !plugin_segment_ok(marketplace) {
            Some("agent plugin entry segments must be lowercase kebab-case: "@ + s)
        } else {
            None
        }
    }
}

pub proof fn lemma_first_at_unique(s: Seq<char>, k1: int, k2: int)
    requires
        first_at(s, k1),
        first_at(s, k2),
    ensures
        k1 == k2,
{
    if k1 < k2 {
        assert(s[k1] != '@');
    } else if k2 < k1 {
        assert(s[k2] != '@');
    }
}

/// Checks one `agent.plugins` entry.
pub fn validate_plugin_config_key(value: &str) -> (r: Result<(), String>)
    ensures
        match plugin_error(value@) {
            None => r is Ok,
            Some(m) => r matches Err(e) && e@ == m,
        },
{
    let v = chars_of(value);
    if chars_blank(&v) {
        return Err(String::from_str("agent has an empty plugin entry"));
    }
    if !chars_trimmed_eq(&v) {
        return Err(String::from_str("agent plugin entries must not have surrounding whitespace"));
    }
    if chars_have_line_break(&v) {
        return Err(String::from_str("agent plugin entries must be single-line strings"));
    }
    if chars_any_ws(&v) {
        return Err(String::from_str("agent plugin entries must not contain whitespace"));
    }
    let mut k: usize = 0;
    while k < v.len() && v[k] != '@'
        invariant
            k <= v.len(),
            forall|j: int| 0 <= j < k ==> #[trigger] v@[j] != '@',
        decreases v.len() - k,
    {
        k += 1;
    }
    if k == v.len() {
        proof {
            if has_at(v@) {
                let t = choose|t: int| 0 <= t < v@.len() && #[trigger] v@[t] == '@';
                assert(v@[t] != '@');
            }
        }
        return Err(concat2("agent plugin entry must use Codex plugin key <plugin>@<marketplace>: ", value));
    }
    proof {
        assert(first_at(v@, k as int));
        assert(has_at(v@));
        let c = choose|c: int| first_at(v@, c);
        lemma_first_at_unique(v@, c, k as int);
    }
    let mut more_at = false;
    let mut j = k + 1;
    while j < v.len()
        invariant
            k < j <= v.len(),
            more_at == exists|t: int| k + 1 <= t < j && #[trigger] v@[t] == '@',
        decreases v.len() - j,
    {
        if v[j] == '@' {
            more_at = true;
        }
        j += 1;
    }
    proof {
        let m = v@.subrange(k + 1, v@.len() as int);
        if more_at {
            let t = choose|t: int| k + 1 <= t < v@.len() && #[trigger] v@[t] == '@';
            assert(m[t - k - 1] == '@');
        }
        if has_at(m) {
            let t = choose|t: int| 0 <= t < m.len() && #[trigger] m[t] == '@';
            assert(v@[t + k + 1] == '@');
        }
    }
    if k == 0 || k + 1 == v.len() || more_at {
        return Err(concat2("agent plugin entry must use Codex plugin key <plugin>@<marketplace>: ", value));
    }
    if !plugin_segment_chars(&v, 0, k) || !plugin_segment_chars(&v, k + 1, v.len()) {
        return Err(concat2("agent plugin entry segments must be lowercase kebab-case: ", value));
    }
    Ok(())
}

pub open spec fn model_text(label: Seq<char>, tail: Seq<char>) -> Seq<char> {
    "check.yml "@ + label + tail
}

/// Why a model name is refused, if it is.
pub open spec fn model_error(m: Seq<char>, label: Seq<char>) -> Option<Seq<char>> {
    if is_blank(m) {
        Some(model_text(label, " must not be empty"@))
    } else if !trimmed_eq(m) {
        Some(model_text(label, " must not have surrounding whitespace"@))
    } else if any_control(m) {
        Some(model_text(label, " must not contain control characters"@))
    } else if !all_ascii(m) {
        Some(model_text(label, " must be ASCII"@))
    } else if any_ws(m) {
        Some(model_text(label, " must not contain whitespace"@))
    } else {
        None
    }
}

/// Checks a model name, when one is given.
pub fn validate_optional_model(value: Option<&str>, label: &str) -> (r: Result<(), String>)
    ensures
        match value {
            None => r is Ok,
            Some(m) => match model_error(m@, label@) {
                None => r is Ok,
                Some(msg) => r matches Err(e) && e@ == msg,
            },
        },
{
    let model = match value {
        Some(m) => m,
        None => {
            return Ok(());
        },
    };
    let v = chars_of(model);
    if chars_blank(&v) {
        return Err(concat3("check.yml ", label, " must not be empty"));
    }
    if !chars_trimmed_eq(&v) {
        return Err(concat3("check.yml ", label, " must not have surrounding whitespace"));
    }
    if chars_any_control(&v) {
        return Err(concat3("check.yml ", label, " must not contain control characters"));
    }
    if !chars_all_ascii(&v) {
        return Err(concat3("check.yml ", label, " must be ASCII"));
    }
    if chars_any_ws(&v) {
        return Err(concat3("check.yml ", label, " must not contain whitespace"));
    }
    Ok(())
}

/// The thinking levels a configuration may name.
pub open spec fn known_thinking(t: Seq<char>) -> bool {
    t == "off"@ || t == "none"@ || t == "minimal"@ || t == "low"@ || t == "medium"@ || t
        == "high"@ || t == "xhigh"@ || t == "adaptive"@ || t == "max"@
}

/// Why a thinking level is refused, if it is.
pub open spec fn thinking_error(t: Seq<char>) -> Option<Seq<char>> {
    if is_blank(t) {
        Some("check.yml agent.thinking must not be empty"@)
    } else if has_line_break(t) {
        Some("check.yml agent.thinking must be a single-line string"@)
    } else if known_thinking(t) {
        None
    } else {
        Some("unsupported check.yml agent.thinking: "@ + t)
    }
}

/// Checks a thinking level.
pub fn validate_thinking(value: &str) -> (r: Result<(), String>)
    ensures
        match thinking_error(value@) {
            None => r is Ok,
            Some(m) => r matches Err(e) && e@ == m,
        },
{
    let v = chars_of(value);
    if chars_blank(&v) {
        return Err(String::from_str("check.yml agent.thinking must not be empty"));
    }
    if chars_have_line_break(&v) {
        return Err(String::from_str("check.yml agent.thinking must be a single-line string"));
    }
    if str_eq(value, "off") || str_eq(value, "none") || str_eq(value, "minimal") || str_eq(
        value,
        "low",
    ) || str_eq(value, "medium") || str_eq(value, "high") || str_eq(value, "xhigh") || str_eq(
        value,
        "adaptive",
    ) || str_eq(value, "max") {
        return Ok(());
    }
    Err(concat2("unsupported check.yml agent.thinking: ", value))
}

/// The reasoning effort the app server is asked for at a thinking level:
/// none for `adaptive`, `none` for `off`, `xhigh` for `max`, else the level itself.
pub open spec fn reasoning_effort(t: Seq<char>) -> Option<Seq<char>> {
    if t == "adaptive"@ {
        None
    } else if t == "off"@ || t == "none"@ {
        Some("none"@)
    } else if t == "max"@ {
        Some("xhigh"@)
    } else {
        Some(t)
    }
}

pub fn codex_reasoning_effort(thinking: &str) -> (r: Option<&str>)
    ensures
        r is Some == reasoning_effort(thinking@) is Some,
        r is Some ==> r->0@ == reasoning_effort(thinking@)->0,
{
    if str_eq(thinking, "adaptive") {
        None
    } else if str_eq(thinking, "off") || str_eq(thinking, "none") {
        Some("none")
    } else if str_eq(thinking, "max") {
        Some("xhigh")
    } else {
        Some(thinking)
    }
}

/// Checks a relative path named in the configuration; `label` prefixes the error.
pub fn validate_relative_config_path(value: &str, label: &str) -> (r: Result<(), String>)
    ensures
        match normalize_spec(value@) {
            Ok(_) => r is Ok,
            Err(m) => r matches Err(e) && e@ == label@ + ": "@ + m,
        },
{
    match normalize_repo_path(value) {
        Ok(_) => Ok(()),
        Err(err) => Err(concat3(label, ": ", err.as_str())),
    }
}

/// The normalized ignore pattern, or why it is refused.
pub open spec fn ignore_pattern_spec(p: Seq<char>) -> Result<Seq<char>, Seq<char>> {
    if is_blank(p) {
        Err("agent ignore pattern: path must not be empty"@)
    } else {
        match normalize_spec(p) {
            Ok(n) => Ok(n),
            Err(m) => Err("agent ignore pattern: "@ + m),
        }
    }
}

/// Normalizes one `agent.ignore` pattern.
pub fn normalize_agent_ignore_pattern_for_config(value: &str) -> (r: Result<String, String>)
    ensures
        match ignore_pattern_spec(value@) {
            Ok(n) => r matches Ok(s) && s@ == n,
            Err(m) => r matches Err(e) && e@ == m,
        },
{
    let v = chars_of(value);
    if chars_blank(&v) {
        return Err(String::from_str("agent ignore pattern: path must not be empty"));
    }
    match normalize_repo_path(value) {
        Ok(n) => Ok(n),
        Err(err) => Err(concat2("agent ignore pattern: ", err.as_str())),
    }
}

/// The first error that `f` reports for an item of `s` at or after `i`.
pub open spec fn first_error_from<T>(
    s: Seq<T>,
    f: spec_fn(int, T) -> Option<Seq<char>>,
    i: int,
) -> Option<Seq<char>>
    decreases s.len() - i,
{
    if i < 0 || i >= s.len() {
        None
    } else {
        match f(i, s[i]) {
            Some(m) => Some(m),
            None => first_error_from(s, f, i + 1),
        }
    }
}

pub open spec fn fallback_label(i: int) -> Seq<char> {
    "agent.model.fallbacks["@ + decimal(i as nat) + "]"@
}

pub open spec fn fallback_error(i: int, m: String) -> Option<Seq<char>> {
    model_error(m@, fallback_label(i))
}

pub open spec fn ignore_error(i: int, p: String) -> Option<Seq<char>> {
    match ignore_pattern_spec(p@) {
        Ok(_) => None,
        Err(m) => Some(m),
    }
}

pub open spec fn plugin_entry_error(i: int, p: String) -> Option<Seq<char>> {
    plugin_error(p@)
}

pub open spec fn expectation_text(n: nat, tail: Seq<char>) -> Seq<char> {
    "expectation "@ + decimal(n) + tail
}

/// Why expectation number `n` is refused, if it is.
pub open spec fn expectation_error(i: int, e: crate::config::Expectation) -> Option<Seq<char>> {
    let n = (i + 1) as nat;
    if !has_visible(e.q@) {
        Some(expectation_text(n, " q must contain visible text"@))
    } else if has_line_break(e.a@) {
        Some(expectation_text(n, " expected answer must be single-line"@))
    } else if !has_visible(e.a@) {
        Some(expectation_text(n, " expected answer must contain visible text"@))
    } else if e.a@ == idk_text() || e.a@ == malformed_text() {
        Some(expectation_text(n, " expected answer must not be idk or malformed"@))
    } else if e.cooldown is Some && cooldown_spec(e.cooldown->0@) is Err {
        Some(expectation_text(n, " cooldown: "@) + cooldown_spec(e.cooldown->0@)->Err_0)
    } else if e.thinking is Some && thinking_error(e.thinking->0@) is Some {
        Some(expectation_text(n, " thinking: "@) + thinking_error(e.thinking->0@)->0)
    } else {
        None
    }
}

/// The first problem with a configuration, checked in this order: the version, the
/// agent instructions, the primary and fallback models, the thinking level, the ignore
/// patterns, the plugins, then each expectation in turn.
pub open spec fn config_error(config: CheckConfig) -> Option<Seq<char>> {
    let agent = config.agent;
    if config.version != 1 {
        Some("check.yml version must be 1"@)
    } else if !has_visible(agent.instructions@) {
        Some("check.yml agent.instructions must contain visible text"@)
    } else if agent.model.primary is Some && model_error(
        agent.model.primary->0@,
        "agent.model.primary"@,
    ) is Some {
        model_error(agent.model.primary->0@, "agent.model.primary"@)
    } else if first_error_from(agent.model.fallbacks@, |i: int, m: String| fallback_error(i, m), 0)
        is Some {
        first_error_from(agent.model.fallbacks@, |i: int, m: String| fallback_error(i, m), 0)
    } else if thinking_error(agent.thinking@) is Some {
        thinking_error(agent.thinking@)
    } else if first_error_from(agent.ignore@, |i: int, p: String| ignore_error(i, p), 0) is Some {
        first_error_from(agent.ignore@, |i: int, p: String| ignore_error(i, p), 0)
    } else if first_error_from(agent.plugins@, |i: int, p: String| plugin_entry_error(i, p), 0)
        is Some {
        first_error_from(agent.plugins@, |i: int, p: String| plugin_entry_error(i, p), 0)
    } else if config.expectations@.len() == 0 {
        Some("check.yml expectations must not be empty"@)
    } else {
        first_error_from(
            config.expectations@,
            |i: int, e: crate::config::Expectation| expectation_error(i, e),
            0,
        )
    }
}

pub proof fn lemma_first_error_step<T>(s: Seq<T>, f: spec_fn(int, T) -> Option<Seq<char>>, i: int)
    requires
        0 <= i < s.len(),
        f(i, s[i]) is None,
    ensures
        first_error_from(s, f, i) == first_error_from(s, f, i + 1),
{
}

/// Checks one expectation; `index` is its position in the list.
pub fn validate_expectation(index: usize, e: &crate::config::Expectation) -> (r: Result<(), String>)
    requires
        index < usize::MAX,
    ensures
        match expectation_error(index as int, *e) {
            None => r is Ok,
            Some(m) => r matches Err(x) && x@ == m,
        },
{
    let number = index + 1;
    if !contains_visible_config_text(e.q.as_str()) {
        return Err(numbered("expectation ", number, " q must contain visible text"));
    }
    let av = chars_of(e.a.as_str());
    if chars_have_line_break(&av) {
        return Err(numbered("expectation ", number, " expected answer must be single-line"));
    }
    if !contains_visible_config_text(e.a.as_str()) {
        return Err(numbered("expectation ", number, " expected answer must contain visible text"));
    }
    if str_eq(e.a.as_str(), OBSERVED_IDK) || str_eq(e.a.as_str(), OBSERVED_MALFORMED) {
        return Err(
            numbered("expectation ", number, " expected answer must not be idk or malformed"),
        );
    }
    if let Some(cooldown) = &e.cooldown {
        if let Err(err) = parse_cooldown(cooldown.as_str()) {
            let mut m = numbered("expectation ", number, " cooldown: ");
            m.append(err.as_str());
            return Err(m);
        }
    }
    if let Some(thinking) = &e.thinking {
        if let Err(err) = validate_thinking(thinking.as_str()) {
            let mut m = numbered("expectation ", number, " thinking: ");
            m.append(err.as_str());
            return Err(m);
        }
    }
    Ok(())
}

/// Checks a loaded configuration; the error is the first problem found.
#[verifier::loop_isolation(false)]
pub fn validate_check_config(config: &CheckConfig) -> (r: Result<(), String>)
    ensures
        match config_error(*config) {
            None => r is Ok,
            Some(m) => r matches Err(e) && e@ == m,
        },
{
    if config.version != 1 {
        return Err(String::from_str("check.yml version must be 1"));
    }
    if !contains_visible_config_text(config.agent.instructions.as_str()) {
        return Err(String::from_str("check.yml agent.instructions must contain visible text"));
    }
    let primary: Option<&str> = match &config.agent.model.primary {
        Some(p) => Some(p.as_str()),
        None => None,
    };
    validate_optional_model(primary, "agent.model.primary")?;
    let ghost ff = |i: int, m: String| fallback_error(i, m);
    let fallbacks = &config.agent.model.fallbacks;
    let mut i: usize = 0;
    while i < fallbacks.len()
        invariant
            i <= fallbacks.len(),
            ff == (|i: int, m: String| fallback_error(i, m)),
            first_error_from(fallbacks@, ff, 0) == first_error_from(fallbacks@, ff, i as int),
        decreases fallbacks.len() - i,
    {
        let mut label = numbered("agent.model.fallbacks[", i, "]");
        assert(label@ == fallback_label(i as int));
        let r = validate_optional_model(Some(fallbacks[i].as_str()), label.as_str());
        if r.is_err() {
            return r;
        }
        proof {
            lemma_first_error_step(fallbacks@, ff, i as int);
        }
        i += 1;
    }
    validate_thinking(config.agent.thinking.as_str())?;
    let ghost fi = |i: int, p: String| ignore_error(i, p);
    let ignore = &config.agent.ignore;
    let mut i: usize = 0;
    while i < ignore.len()
        invariant
            i <= ignore.len(),
            fi == (|i: int, p: String| ignore_error(i, p)),
            first_error_from(ignore@, fi, 0) == first_error_from(ignore@, fi, i as int),
        decreases ignore.len() - i,
    {
        match normalize_agent_ignore_pattern_for_config(ignore[i].as_str()) {
            Ok(_) => {},
            Err(e) => {
                return Err(e);
            },
        }
        proof {
            lemma_first_error_step(ignore@, fi, i as int);
        }
        i += 1;
    }
    let ghost fp = |i: int, p: String| plugin_entry_error(i, p);
    let plugins = &config.agent.plugins;
    let mut i: usize = 0;
    while i < plugins.len()
        invariant
            i <= plugins.len(),
            fp == (|i: int, p: String| plugin_entry_error(i, p)),
            first_error_from(plugins@, fp, 0) == first_error_from(plugins@, fp, i as int),
        decreases plugins.len() - i,
    {
        validate_plugin_config_key(plugins[i].as_str())?;
        proof {
            lemma_first_error_step(plugins@, fp, i as int);
        }
        i += 1;
    }
    if config.expectations.len() == 0 {
        return Err(String::from_str("check.yml expectations must not be empty"));
    }
    let ghost fe = |i: int, e: crate::config::Expectation| expectation_error(i, e);
    let exps = &config.expectations;
    let mut i: usize = 0;
    while i < exps.len()
        invariant
            i <= exps.len(),
            fe == (|i: int, e: crate::config::Expectation| expectation_error(i, e)),
            first_error_from(exps@, fe, 0) == first_error_from(exps@, fe, i as int),
        decreases exps.len() - i,
    {
        validate_expectation(i, &exps[i])?;
        proof {
            lemma_first_error_step(exps@, fe, i as int);
        }
        i += 1;
    }
    Ok(())
}


/// The first ignore pattern that cannot be normalised, with its reason.
pub open spec fn first_ignore_problem(patterns: Seq<String>, i: int) -> Option<Seq<char>>
    decreases patterns.len() - i,
{
    if i < 0 || i >= patterns.len() {
        None
    } else {
        match ignore_pattern_spec(patterns[i]@) {
            Err(m) => Some(m),
            Ok(_) => first_ignore_problem(patterns, i + 1),
        }
    }
}

/// The agent settings with each ignore pattern in normal form; the first pattern
/// that has none is the error.
pub fn normalize_agent_config(agent: crate::config::AgentConfig) -> (r: Result<crate::config::AgentConfig, String>)
    ensures
        match first_ignore_problem(agent.ignore@, 0) {
            Some(m) => r matches Err(e) && e@ == m,
            None => r matches Ok(a) && a.model == agent.model && a.thinking == agent.thinking
                && a.instructions == agent.instructions && a.plugins == agent.plugins
                && a.ignore@.len() == agent.ignore@.len() && forall|k: int|
                0 <= k < a.ignore@.len() ==> ignore_pattern_spec(agent.ignore@[k]@) == Ok::<Seq<char>, Seq<char>>(
                    #[trigger] a.ignore@[k]@,
                ),
        },
{
    let mut normalized: Vec<String> = Vec::new();
    let mut i: usize = 0;
    while i < agent.ignore.len()
        invariant
            i <= agent.ignore.len(),
            normalized@.len() == i,
            first_ignore_problem(agent.ignore@, 0) == first_ignore_problem(agent.ignore@, i as int),
            forall|k: int|
                0 <= k < i ==> ignore_pattern_spec(agent.ignore@[k]@) == Ok::<Seq<char>, Seq<char>>(
                    #[trigger] normalized@[k]@,
                ),
        decreases agent.ignore.len() - i,
    {
        match normalize_agent_ignore_pattern_for_config(agent.ignore[i].as_str()) {
            Ok(n) => normalized.push(n),
            Err(e) => {
                return Err(e);
            },
        }
        i += 1;
    }
    let mut agent = agent;
    agent.ignore = normalized;
    Ok(agent)
}

} // verus!
