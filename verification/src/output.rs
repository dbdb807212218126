//! Check output: the escaped text of records, query answers and the final summary.

use vstd::prelude::*;
use crate::answer::{
    answer_state, is_line_break, is_line_break_char, CheckRecord, CheckResult, ObservedAnswerState,
    ParsedAnswer,
};
use crate::run::CheckRunReport;
use crate::text::{chars_of, decimal, is_control, is_control_char, push_char, push_decimal};

verus! {

/// The lowercase hexadecimal digit for `d < 16`.
pub open spec fn hex_digit(d: nat) -> char {
    if d < 10 {
        (d + 48) as char
    } else {
        (d + 87) as char
    }
}

/// The last `count` hexadecimal digits of `n`, most significant first.
pub open spec fn hex_digits(n: nat, count: nat) -> Seq<char>
    decreases count,
{
    if count == 0 {
        Seq::empty()
    } else {
        hex_digits(n / 16, (count - 1) as nat).push(hex_digit(n % 16))
    }
}

/// How many hexadecimal digits `{:04x}` prints for a character code.
pub open spec fn hex_width(n: nat) -> nat {
    if n < 0x10000 {
        4
    } else if n < 0x100000 {
        5
    } else {
        6
    }
}

/// `\u` and the code of `c` in at least four lowercase hexadecimal digits.
pub open spec fn unicode_escape(c: char) -> Seq<char> {
    seq!['\\', 'u'] + hex_digits(c as nat, hex_width(c as nat))
}

/// How one character appears in check output.
pub open spec fn escape_char(c: char) -> Seq<char> {
    if c == '\n' {
        seq!['\\', 'n']
    } else if c == '\r' {
        seq!['\\', 'r']
    } else if c == '\t' {
        seq!['\\', 't']
    } else if is_line_break(c) || is_control(c) {
        unicode_escape(c)
    } else {
        seq![c]
    }
}

/// Evaluator-supplied text as it appears in check output.
pub open spec fn escape_text(s: Seq<char>) -> Seq<char>
    decreases s.len(),
{
    if s.len() == 0 {
        Seq::empty()
    } else {
        escape_text(s.drop_last()) + escape_char(s.last())
    }
}

fn push_hex_digits(out: &mut String, n: u32, count: u32)
    requires
        count <= 8,
    ensures
        final(out)@ == old(out)@ + hex_digits(n as nat, count as nat),
    decreases count,
{
    if count > 0 {
        push_hex_digits(out, n / 16, count - 1);
        let d = (n % 16) as u8;
        let c = if d < 10 {
            (d + 48) as char
        } else {
            (d + 87) as char
        };
        assert(c == hex_digit((n % 16) as nat));
        push_char(out, c);
        assert(hex_digits(n as nat, count as nat) == hex_digits((n / 16) as nat, (count - 1) as nat).push(
            hex_digit((n % 16) as nat),
        ));
    }
}

/// Appends `\u` and the code of `ch` in at least four lowercase hexadecimal digits.
pub fn push_check_output_unicode_escape(output: &mut String, ch: char)
    ensures
        final(output)@ == old(output)@ + unicode_escape(ch),
{
    let n = ch as u32;
    let width: u32 = if n < 0x10000 {
        4
    } else if n < 0x100000 {
        5
    } else {
        6
    };
    push_char(output, '\\');
    push_char(output, 'u');
    push_hex_digits(output, n, width);
    assert(final(output)@ =~= old(output)@ + unicode_escape(ch));
}

/// Escapes evaluator text for check output: LF, CR and TAB become `\n`, `\r`, `\t`,
/// other line breaks and control characters become `\uXXXX`, the rest is kept.
pub fn escape_check_output_text(value: &str) -> (r: String)
    ensures
        r@ == escape_text(value@),
{
    let v = chars_of(value);
    let mut output = String::new();
    let mut i: usize = 0;
    while i < v.len()
        invariant
            i <= v.len(),
            output@ == escape_text(v@.take(i as int)),
        decreases v.len() - i,
    {
        let ch = v[i];
        assert(v@.take(i + 1).drop_last() =~= v@.take(i as int));
        if ch == '\n' {
            output.append("\\n");
            proof { reveal_strlit("\\n"); }
        } else if ch == '\r' {
            output.append("\\r");
            proof { reveal_strlit("\\r"); }
        } else if ch == '\t' {
            output.append("\\t");
            proof { reveal_strlit("\\t"); }
        } else if is_line_break_char(ch) || is_control_char(ch) {
            push_check_output_unicode_escape(&mut output, ch);
        } else {
            push_char(&mut output, ch);
        }
        assert(output@ =~= escape_text(v@.take(i as int)) + escape_char(ch));
        i += 1;
    }
    assert(v@.take(v.len() as int) =~= value@);
    output
}

/// How one character appears inside a JSON string: quote, backslash and the
/// control characters below U+0020 are escaped, everything else is kept.
pub open spec fn json_char(c: char) -> Seq<char> {
    let u = c as nat;
    if c == '"' {
        seq!['\\', '"']
    } else if c == '\\' {
        seq!['\\', '\\']
    } else if u == 0x08 {
        seq!['\\', 'b']
    } else if u == 0x09 {
        seq!['\\', 't']
    } else if u == 0x0a {
        seq!['\\', 'n']
    } else if u == 0x0c {
        seq!['\\', 'f']
    } else if u == 0x0d {
        seq!['\\', 'r']
    } else if u < 0x20 {
        seq!['\\', 'u', '0', '0'] + hex_digits(u, 2)
    } else {
        seq![c]
    }
}

/// The characters of `s` as they appear inside a JSON string.
pub open spec fn json_chars(s: Seq<char>) -> Seq<char>
    decreases s.len(),
{
    if s.len() == 0 {
        Seq::empty()
    } else {
        json_chars(s.drop_last()) + json_char(s.last())
    }
}

/// `s` as a JSON string literal.
pub open spec fn json_string(s: Seq<char>) -> Seq<char> {
    seq!['"'] + json_chars(s) + seq!['"']
}

/// The elements of a JSON array of strings, separated by commas.
pub open spec fn json_items(v: Seq<Seq<char>>) -> Seq<char>
    decreases v.len(),
{
    if v.len() == 0 {
        Seq::empty()
    } else if v.len() == 1 {
        json_string(v[0])
    } else {
        json_items(v.drop_last()) + seq![','] + json_string(v.last())
    }
}

/// Compact JSON for an array of strings, as `serde_json::to_string` writes it.
pub open spec fn json_string_array(v: Seq<Seq<char>>) -> Seq<char> {
    seq!['['] + json_items(v) + seq![']']
}

pub open spec fn string_seq_views(v: Seq<String>) -> Seq<Seq<char>> {
    Seq::new(v.len(), |i: int| v[i]@)
}

/// Calls `serde_json::to_string` on a string. Its compact formatter writes the
/// string quoted, escaping by the table in `format_escaped_str_contents`: quote,
/// backslash, `\b \t \n \f \r`, and `\u00xx` in lowercase hex for the other control
/// characters below U+0020, as `json_string` states. Serialising a string into
/// memory cannot fail.
#[verifier::external_body]
pub(crate) fn json_string_text(value: &str) -> (r: String)
    ensures
        r@ == json_string(value@),
{
    match serde_json::to_string(value) {
        Ok(text) => text,
        Err(_) => String::new(),
    }
}

/// Compact JSON for an array of strings, as `serde_json::to_string` writes a slice
/// of strings: `[`, each string as JSON, separated by `,`, and `]`.
pub fn compact_json_string_array(values: &Vec<String>) -> (r: String)
    ensures
        r@ == json_string_array(string_seq_views(values@)),
{
    let ghost sv = string_seq_views(values@);
    let mut out = String::new();
    push_char(&mut out, '[');
    let ghost open = out@;
    let mut i: usize = 0;
    while i < values.len()
        invariant
            i <= values.len(),
            sv == string_seq_views(values@),
            open == seq!['['],
            out@ == open + json_items(sv.take(i as int)),
        decreases values.len() - i,
    {
        assert(sv.take(i + 1).drop_last() =~= sv.take(i as int));
        assert(sv[i as int] == values@[i as int]@);
        let ghost before = out@;
        if i > 0 {
            push_char(&mut out, ',');
        }
        let item = json_string_text(values[i].as_str());
        out.append(item.as_str());
        proof {
            if i == 0 {
                assert(sv.take(1).len() == 1);
                assert(json_items(sv.take(1)) == json_string(sv.take(1)[0]));
                assert(out@ =~= open + json_items(sv.take(1)));
            } else {
                assert(out@ =~= before + seq![','] + json_string(sv[i as int]));
            }
        }
        i += 1;
    }
    assert(sv.take(values.len() as int) =~= sv);
    push_char(&mut out, ']');
    assert(out@ =~= json_string_array(sv));
    out
}

/// The expected text of a record, empty when it has none.
pub open spec fn expected_or_empty(r: CheckRecord) -> Seq<char> {
    match r.expected {
        Some(e) => e@,
        None => Seq::empty(),
    }
}

pub open spec fn prompt_or_empty(r: CheckRecord) -> Seq<char> {
    match r.prompt {
        Some(p) => p@,
        None => Seq::empty(),
    }
}

/// A final record needs human review unless its observed answer is an answer for the
/// expected one; a record without expected text always does.
pub open spec fn review_spec(r: CheckRecord) -> bool {
    match r.expected {
        None => true,
        Some(e) => answer_state(e@, r.observed@) != ObservedAnswerState::Answer,
    }
}

pub fn record_requires_human_review(record: &CheckRecord) -> (r: bool)
    ensures
        r == review_spec(*record),
{
    match record.expected_text() {
        Some(expected) => ObservedAnswerState::from_expected_and_observed(
            expected,
            record.observed.as_str(),
        ).requires_human_review(),
        None => true,
    }
}

/// The check output of one record: one `OK` line for a pass; for a non-pass a
/// status line (`ERROR` when it needs review, else `FAILED`), the question, and the
/// expected, observed and evidence lines, plus a scope line for `FAILED`.
pub open spec fn check_output_spec(r: CheckRecord) -> Seq<char> {
    if r.result == CheckResult::Pass {
        r.display_id@ + ". OK\n"@
    } else {
        let review = review_spec(r);
        r.display_id@ + ". "@ + (if review {
            "ERROR"@
        } else {
            "FAILED"@
        }) + "\n"@ + escape_text(prompt_or_empty(r)) + "\n"@ + "Expected: "@ + escape_text(
            expected_or_empty(r),
        ) + "\n"@ + "Observed: "@ + escape_text(r.observed@) + "\n"@ + "Evidence: "@ + escape_text(
            r.evidence@,
        ) + "\n"@ + (if review {
            Seq::<char>::empty()
        } else {
            "Scope: "@ + json_string_array(string_seq_views(r.scope@)) + "\n"@
        })
    }
}

pub fn render_check_output_record(record: &CheckRecord) -> (r: String)
    ensures
        r@ == check_output_spec(*record),
{
    if record.passed() {
        let mut out = record.display_id.clone();
        out.append(". OK\n");
        return out;
    }
    let review = record_requires_human_review(record);
    let mut output = record.display_id.clone();
    output.append(". ");
    if review {
        output.append("ERROR");
    } else {
        output.append("FAILED");
    }
    output.append("\n");
    let prompt = escape_check_output_text(record.prompt_text());
    output.append(prompt.as_str());
    output.append("\n");
    output.append("Expected: ");
    let expected = match record.expected_text() {
        Some(e) => escape_check_output_text(e),
        None => escape_check_output_text(""),
    };
    proof {
        reveal_strlit("");
    }
    output.append(expected.as_str());
    output.append("\n");
    output.append("Observed: ");
    let observed = escape_check_output_text(record.observed.as_str());
    output.append(observed.as_str());
    output.append("\n");
    output.append("Evidence: ");
    let evidence = escape_check_output_text(record.evidence.as_str());
    output.append(evidence.as_str());
    output.append("\n");
    let ghost before = output@;
    if !review {
        output.append("Scope: ");
        let scope = compact_json_string_array(&record.scope);
        output.append(scope.as_str());
        output.append("\n");
    }
    assert(output@ =~= check_output_spec(*record));
    output
}

/// The three lines of a query answer: observed, evidence and scope.
pub open spec fn query_output_spec(a: ParsedAnswer) -> Seq<char> {
    "Observed: "@ + escape_text(a.answer@) + "\n"@ + "Evidence: "@ + escape_text(a.evidence@) + "\n"@
        + "Scope: "@ + json_string_array(string_seq_views(a.scope@)) + "\n"@
}

pub fn render_query_output(answer: &ParsedAnswer) -> (r: String)
    ensures
        r@ == query_output_spec(*answer),
{
    let mut output = String::new();
    output.append("Observed: ");
    let a = escape_check_output_text(answer.answer.as_str());
    output.append(a.as_str());
    output.append("\n");
    output.append("Evidence: ");
    let e = escape_check_output_text(answer.evidence.as_str());
    output.append(e.as_str());
    output.append("\n");
    output.append("Scope: ");
    let s = compact_json_string_array(&answer.scope);
    output.append(s.as_str());
    output.append("\n");
    assert(output@ =~= query_output_spec(*answer));
    output
}

/// The skipped count shown in the summary: the final non-selected count.
pub fn report_output_skipped_count(report: &CheckRunReport) -> (r: usize)
    ensures
        r == report.skipped,
{
    report.skipped
}


/// The number of UTF-8 bytes of `s`.
pub open spec fn utf8_len(s: Seq<char>) -> nat {
    vstd::utf8::encode_utf8(s).len()
}

/// A character takes at most four UTF-8 bytes.
pub proof fn lemma_utf8_len_bound(s: Seq<char>)
    ensures
        utf8_len(s) <= 4 * s.len(),
    decreases s.len(),
{
    if s.len() > 0 {
        lemma_utf8_len_bound(s.drop_first());
    }
}

/// A summary text centred in its line of `=`, with the line break.
pub open spec fn padded_line(inner: Seq<char>) -> Seq<char> {
    equals_run(pad_left(utf8_len(inner))) + inner + equals_run(pad_right(utf8_len(inner)))
}

/// `n` equals signs.
pub open spec fn equals_run(n: nat) -> Seq<char> {
    Seq::new(n, |i: int| '=')
}

/// The summary line width for a text of `len` bytes: 80, or wider to keep one `=`
/// on each side.
pub open spec fn summary_width(len: nat) -> nat {
    if len + 2 > 80 {
        len + 2
    } else {
        80
    }
}

pub open spec fn pad_left(len: nat) -> nat {
    ((summary_width(len) - len) / 2) as nat
}

pub open spec fn pad_right(len: nat) -> nat {
    (summary_width(len) - len - pad_left(len)) as nat
}

fn push_equals(out: &mut String, n: usize)
    ensures
        final(out)@ == old(out)@ + equals_run(n as nat),
{
    let mut i: usize = 0;
    while i < n
        invariant
            i <= n,
            out@ == old(out)@ + equals_run(i as nat),
        decreases n - i,
    {
        push_char(out, '=');
        assert(equals_run((i + 1) as nat) =~= equals_run(i as nat).push('='));
        i += 1;
    }
}

/// Centres `inner` between runs of `=` in a line of at least 80 bytes, with at
/// least one `=` on each side; an odd padding puts the extra `=` on the right.
pub fn pad_summary_line(inner: &str) -> (r: String)
    requires
        utf8_len(inner@) + 2 <= usize::MAX,
    ensures
        r@ == equals_run(pad_left(utf8_len(inner@))) + inner@ + equals_run(
            pad_right(utf8_len(inner@)),
        ),
        1 <= pad_left(utf8_len(inner@)) <= pad_right(utf8_len(inner@)) <= pad_left(
            utf8_len(inner@),
        ) + 1,
        pad_left(utf8_len(inner@)) + utf8_len(inner@) + pad_right(
            utf8_len(inner@),
        ) == summary_width(utf8_len(inner@)),
{
    let len = inner.len();
    let width: usize = if len + 2 > 80 {
        len + 2
    } else {
        80
    };
    let padding = width - len;
    let left = padding / 2;
    let right = padding - left;
    let mut out = String::new();
    push_equals(&mut out, left);
    out.append(inner);
    push_equals(&mut out, right);
    out
}

/// 0 for a pass, 1 for a record that needs review, 2 for a failure.
pub open spec fn record_kind(r: CheckRecord) -> int {
    if r.result == CheckResult::Pass {
        0
    } else if review_spec(r) {
        1
    } else {
        2
    }
}

/// How many of `records` are of `kind`.
pub open spec fn count_kind(records: Seq<CheckRecord>, kind: int) -> nat
    decreases records.len(),
{
    if records.len() == 0 {
        0
    } else {
        count_kind(records.drop_last(), kind) + if record_kind(records.last()) == kind {
            1nat
        } else {
            0nat
        }
    }
}

pub proof fn lemma_count_kind_bounded(records: Seq<CheckRecord>, kind: int)
    ensures
        count_kind(records, kind) <= records.len(),
    decreases records.len(),
{
    if records.len() > 0 {
        lemma_count_kind_bounded(records.drop_last(), kind);
    }
}

/// The outcome phrases of a summary, in their fixed order.
pub open spec fn summary_outcomes(failed: nat, errors: nat, passed: nat, skipped: nat) -> Seq<Seq<char>> {
    let a = if failed > 0 {
        seq![decimal(failed) + " failed"@]
    } else {
        Seq::empty()
    };
    let b = if errors > 0 {
        a.push(
            decimal(errors) + if errors == 1 {
                " error"@
            } else {
                " errors"@
            },
        )
    } else {
        a
    };
    let c = if passed > 0 {
        b.push(decimal(passed) + " passed"@)
    } else {
        b
    };
    let d = if skipped > 0 {
        c.push(decimal(skipped) + " skipped"@)
    } else {
        c
    };
    if d.len() == 0 {
        seq!["0 passed"@]
    } else {
        d
    }
}

/// The phrases of `v` separated by `, `.
pub open spec fn join_comma(v: Seq<Seq<char>>) -> Seq<char>
    decreases v.len(),
{
    if v.len() == 0 {
        Seq::empty()
    } else if v.len() == 1 {
        v[0]
    } else {
        join_comma(v.drop_last()) + ", "@ + v.last()
    }
}

/// The summary line of a run, given the elapsed seconds as rendered with two
/// decimals.
pub open spec fn summary_inner(report: CheckRunReport, elapsed: Seq<char>) -> Seq<char> {
    let records = report.records@;
    " "@ + join_comma(
        summary_outcomes(
            count_kind(records, 2),
            count_kind(records, 1),
            count_kind(records, 0),
            report.skipped as nat,
        ),
    ) + " in "@ + elapsed + "s "@
}

fn push_count_phrase(outcomes: &mut Vec<String>, n: usize, label: &str)
    ensures
        final(outcomes)@.len() == old(outcomes)@.len() + 1,
        forall|k: int| 0 <= k < old(outcomes)@.len() ==> final(outcomes)@[k] == old(outcomes)@[k],
        final(outcomes)@.last()@ == decimal(n as nat) + label@,
{
    let mut s = String::new();
    push_decimal(&mut s, n as u64);
    s.append(label);
    outcomes.push(s);
}

pub open spec fn views_of(v: Seq<String>) -> Seq<Seq<char>> {
    Seq::new(v.len(), |i: int| v[i]@)
}

fn join_outcomes(v: &Vec<String>) -> (r: String)
    ensures
        r@ == join_comma(views_of(v@)),
{
    let mut out = String::new();
    let mut i: usize = 0;
    while i < v.len()
        invariant
            i <= v.len(),
            out@ == join_comma(views_of(v@).take(i as int)),
        decreases v.len() - i,
    {
        assert(views_of(v@).take(i + 1).drop_last() =~= views_of(v@).take(i as int));
        if i > 0 {
            out.append(", ");
        }
        out.append(v[i].as_str());
        proof {
            if i == 0 {
                assert(out@ =~= views_of(v@).take(1)[0]);
            }
        }
        i += 1;
    }
    assert(views_of(v@).take(v.len() as int) =~= views_of(v@));
    out
}

/// The summary of a run: failed, errors, passed and skipped counts (only those
/// above zero, else `0 passed`) and the elapsed time, centred in a line of `=`.
pub fn render_check_summary(report: &CheckRunReport, elapsed: &str) -> (r: String)
    requires
        summary_inner(*report, elapsed@).len() * 4 + 2 <= usize::MAX,
    ensures
        r@ == padded_line(summary_inner(*report, elapsed@)) + "\n"@,
{
    let mut passed: usize = 0;
    let mut failed: usize = 0;
    let mut errors: usize = 0;
    let mut i: usize = 0;
    while i < report.records.len()
        invariant
            i <= report.records.len(),
            passed == count_kind(report.records@.take(i as int), 0),
            errors == count_kind(report.records@.take(i as int), 1),
            failed == count_kind(report.records@.take(i as int), 2),
            passed + errors + failed <= i,
        decreases report.records.len() - i,
    {
        let record = &report.records[i];
        assert(report.records@.take(i + 1).drop_last() =~= report.records@.take(i as int));
        if record.passed() {
            passed += 1;
        } else if record_requires_human_review(record) {
            errors += 1;
        } else {
            failed += 1;
        }
        i += 1;
    }
    assert(report.records@.take(report.records.len() as int) =~= report.records@);
    let mut outcomes: Vec<String> = Vec::new();
    if failed > 0 {
        push_count_phrase(&mut outcomes, failed, " failed");
    }
    if errors > 0 {
        if errors == 1 {
            push_count_phrase(&mut outcomes, errors, " error");
        } else {
            push_count_phrase(&mut outcomes, errors, " errors");
        }
    }
    if passed > 0 {
        push_count_phrase(&mut outcomes, passed, " passed");
    }
    let skipped = report_output_skipped_count(report);
    if skipped > 0 {
        push_count_phrase(&mut outcomes, skipped, " skipped");
    }
    if outcomes.len() == 0 {
        outcomes.push(String::from_str("0 passed"));
    }
    assert(views_of(outcomes@) =~= summary_outcomes(failed as nat, errors as nat, passed as nat, skipped as nat));
    let joined = join_outcomes(&outcomes);
    let mut inner = String::from_str(" ");
    inner.append(joined.as_str());
    inner.append(" in ");
    inner.append(elapsed);
    inner.append("s ");
    assert(inner@ =~= summary_inner(*report, elapsed@));
    proof {
        lemma_utf8_len_bound(inner@);
    }
    let mut line = pad_summary_line(inner.as_str());
    line.append("\n");
    line
}


/// The number of LF characters in `s`: the lines of a text whose every line ends in LF.
pub open spec fn line_count(s: Seq<char>) -> nat
    decreases s.len(),
{
    if s.len() == 0 {
        0
    } else {
        line_count(s.drop_last()) + if s.last() == '\n' {
            1nat
        } else {
            0nat
        }
    }
}

pub proof fn lemma_line_count_concat(a: Seq<char>, b: Seq<char>)
    ensures
        line_count(a + b) == line_count(a) + line_count(b),
    decreases b.len(),
{
    if b.len() == 0 {
        assert(a + b =~= a);
    } else {
        assert((a + b).drop_last() =~= a + b.drop_last());
        lemma_line_count_concat(a, b.drop_last());
    }
}

pub proof fn lemma_line_count_zero(s: Seq<char>)
    requires
        forall|k: int| 0 <= k < s.len() ==> s[k] != '\n',
    ensures
        line_count(s) == 0,
    decreases s.len(),
{
    if s.len() > 0 {
        lemma_line_count_zero(s.drop_last());
    }
}

proof fn lemma_hex_digits_no_newline(n: nat, count: nat)
    ensures
        forall|k: int| 0 <= k < hex_digits(n, count).len() ==> hex_digits(n, count)[k] != '\n',
    decreases count,
{
    if count > 0 {
        lemma_hex_digits_no_newline(n / 16, (count - 1) as nat);
        let d = n % 16;
        assert(hex_digit(d) != '\n') by {
            if d < 10 {
                assert((d + 48) as char as u32 == d + 48);
            } else {
                assert((d + 87) as char as u32 == d + 87);
            }
        }
        let prev = hex_digits(n / 16, (count - 1) as nat);
        let cur = hex_digits(n, count);
        assert(cur == prev.push(hex_digit(d)));
        assert forall|k: int| 0 <= k < cur.len() implies cur[k] != '\n' by {
            if k < prev.len() {
                assert(cur[k] == prev[k]);
            }
        }
    }
}

proof fn lemma_escape_char_no_newline(c: char)
    ensures
        forall|k: int| 0 <= k < escape_char(c).len() ==> escape_char(c)[k] != '\n',
{
    lemma_hex_digits_no_newline(c as nat, hex_width(c as nat));
}

/// Escaped text holds no LF.
pub proof fn lemma_escape_text_one_line(s: Seq<char>)
    ensures
        line_count(escape_text(s)) == 0,
    decreases s.len(),
{
    if s.len() > 0 {
        lemma_escape_text_one_line(s.drop_last());
        lemma_escape_char_no_newline(s.last());
        lemma_line_count_zero(escape_char(s.last()));
        lemma_line_count_concat(escape_text(s.drop_last()), escape_char(s.last()));
    }
}

proof fn lemma_json_char_no_newline(c: char)
    ensures
        line_count(json_char(c)) == 0,
{
    lemma_hex_digits_no_newline(c as nat, 2);
    lemma_line_count_zero(json_char(c));
}

proof fn lemma_json_chars_one_line(s: Seq<char>)
    ensures
        line_count(json_chars(s)) == 0,
    decreases s.len(),
{
    if s.len() > 0 {
        lemma_json_chars_one_line(s.drop_last());
        lemma_json_char_no_newline(s.last());
        lemma_line_count_concat(json_chars(s.drop_last()), json_char(s.last()));
    }
}

proof fn lemma_json_string_one_line(s: Seq<char>)
    ensures
        line_count(json_string(s)) == 0,
{
    lemma_json_chars_one_line(s);
    lemma_line_count_zero(seq!['"']);
    lemma_line_count_concat(seq!['"'], json_chars(s));
    lemma_line_count_concat(seq!['"'] + json_chars(s), seq!['"']);
}

proof fn lemma_json_items_one_line(v: Seq<Seq<char>>)
    ensures
        line_count(json_items(v)) == 0,
    decreases v.len(),
{
    if v.len() == 1 {
        lemma_json_string_one_line(v[0]);
    } else if v.len() > 1 {
        lemma_json_items_one_line(v.drop_last());
        lemma_json_string_one_line(v.last());
        lemma_line_count_zero(seq![',']);
        lemma_line_count_concat(json_items(v.drop_last()), seq![',']);
        lemma_line_count_concat(json_items(v.drop_last()) + seq![','], json_string(v.last()));
    }
}

/// A JSON array of strings is written on one line.
pub proof fn lemma_json_string_array_one_line(v: Seq<Seq<char>>)
    ensures
        line_count(json_string_array(v)) == 0,
{
    lemma_json_items_one_line(v);
    lemma_line_count_zero(seq!['[']);
    lemma_line_count_zero(seq![']']);
    lemma_line_count_concat(seq!['['], json_items(v));
    lemma_line_count_concat(seq!['['] + json_items(v), seq![']']);
}

proof fn lemma_label_lines()
    ensures
        line_count(". OK\n"@) == 1,
        line_count(". "@) == 0,
        line_count("ERROR"@) == 0,
        line_count("FAILED"@) == 0,
        line_count("\n"@) == 1,
        line_count("Expected: "@) == 0,
        line_count("Observed: "@) == 0,
        line_count("Evidence: "@) == 0,
        line_count("Scope: "@) == 0,
{
    reveal_strlit(". OK\n");
    reveal_strlit(". ");
    reveal_strlit("ERROR");
    reveal_strlit("FAILED");
    reveal_strlit("\n");
    reveal_strlit("Expected: ");
    reveal_strlit("Observed: ");
    reveal_strlit("Evidence: ");
    reveal_strlit("Scope: ");
    let ok = seq!['.', ' ', 'O', 'K'];
    assert(". OK\n"@.drop_last() =~= ok);
    assert(". OK\n"@.last() == '\n');
    lemma_line_count_zero(ok);
    lemma_line_count_zero(". "@);
    lemma_line_count_zero("ERROR"@);
    lemma_line_count_zero("FAILED"@);
    assert("\n"@.drop_last() =~= Seq::<char>::empty());
    assert("\n"@.last() == '\n');
    lemma_line_count_zero(Seq::<char>::empty());
    lemma_line_count_zero("Expected: "@);
    lemma_line_count_zero("Observed: "@);
    lemma_line_count_zero("Evidence: "@);
    lemma_line_count_zero("Scope: "@);
}

/// The check output of a record has one line for a pass, five for a record that
/// needs human review, and six (with the scope line) for a failure, whatever text
/// the evaluator supplied; only the display ID must hold no line feed.
pub proof fn law_check_output_line_counts(r: CheckRecord)
    requires
        line_count(r.display_id@) == 0,
    ensures
        line_count(check_output_spec(r)) == if r.result == CheckResult::Pass {
            1nat
        } else if review_spec(r) {
            5nat
        } else {
            6nat
        },
{
    lemma_label_lines();
    let d = r.display_id@;
    if r.result == CheckResult::Pass {
        lemma_line_count_concat(d, ". OK\n"@);
    } else {
        let review = review_spec(r);
        let status = if review {
            "ERROR"@
        } else {
            "FAILED"@
        };
        let p = escape_text(prompt_or_empty(r));
        let e = escape_text(expected_or_empty(r));
        let o = escape_text(r.observed@);
        let v = escape_text(r.evidence@);
        lemma_escape_text_one_line(prompt_or_empty(r));
        lemma_escape_text_one_line(expected_or_empty(r));
        lemma_escape_text_one_line(r.observed@);
        lemma_escape_text_one_line(r.evidence@);
        let nl = "\n"@;
        let tail = if review {
            Seq::<char>::empty()
        } else {
            "Scope: "@ + json_string_array(string_seq_views(r.scope@)) + nl
        };
        if !review {
            lemma_json_string_array_one_line(string_seq_views(r.scope@));
            lemma_line_count_concat("Scope: "@, json_string_array(string_seq_views(r.scope@)));
            lemma_line_count_concat("Scope: "@ + json_string_array(string_seq_views(r.scope@)), nl);
        } else {
            lemma_line_count_zero(tail);
        }
        let s1 = d + ". "@;
        let s2 = s1 + status;
        let s3 = s2 + nl;
        let s4 = s3 + p;
        let s5 = s4 + nl;
        let s6 = s5 + "Expected: "@;
        let s7 = s6 + e;
        let s8 = s7 + nl;
        let s9 = s8 + "Observed: "@;
        let s10 = s9 + o;
        let s11 = s10 + nl;
        let s12 = s11 + "Evidence: "@;
        let s13 = s12 + v;
        let s14 = s13 + nl;
        lemma_line_count_concat(d, ". "@);
        lemma_line_count_concat(s1, status);
        lemma_line_count_concat(s2, nl);
        lemma_line_count_concat(s3, p);
        lemma_line_count_concat(s4, nl);
        lemma_line_count_concat(s5, "Expected: "@);
        lemma_line_count_concat(s6, e);
        lemma_line_count_concat(s7, nl);
        lemma_line_count_concat(s8, "Observed: "@);
        lemma_line_count_concat(s9, o);
        lemma_line_count_concat(s10, nl);
        lemma_line_count_concat(s11, "Evidence: "@);
        lemma_line_count_concat(s12, v);
        lemma_line_count_concat(s13, nl);
        lemma_line_count_concat(s14, tail);
        assert(check_output_spec(r) == s14 + tail);
    }
}

} // verus!
