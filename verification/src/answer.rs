//! Evaluator answers, check results and check records.

use vstd::prelude::*;
use crate::text::{chars_of, is_ascii_lower, is_ascii_lower_char, str_eq};

verus! {

/// The observed value for an evaluator that cannot tell.
pub const OBSERVED_IDK: &'static str = "idk";

/// The observed value for an expectation the evaluator judged malformed.
pub const OBSERVED_MALFORMED: &'static str = "malformed";

/// The observed value recorded when the evaluator response could not be parsed.
pub const UNPARSEABLE_OBSERVED: &'static str = "<unparseable>";

/// The observed value recorded when the evaluator gave no evidence.
pub const EMPTY_EVIDENCE_OBSERVED: &'static str = "<empty-evidence>";

pub const RESULT_PASS: &'static str = "pass";

pub const RESULT_FAIL: &'static str = "fail";

pub open spec fn idk_text() -> Seq<char> {
    OBSERVED_IDK@
}

pub open spec fn malformed_text() -> Seq<char> {
    OBSERVED_MALFORMED@
}

pub open spec fn unparseable_text() -> Seq<char> {
    UNPARSEABLE_OBSERVED@
}

pub open spec fn empty_evidence_text() -> Seq<char> {
    EMPTY_EVIDENCE_OBSERVED@
}

/// The characters that end a line: LF, CR, VT, FF, NEL, LS and PS.
pub open spec fn is_line_break(c: char) -> bool {
    let u = c as u32;
    u == 0x0a || u == 0x0d || u == 0x0b || u == 0x0c || u == 0x85 || u == 0x2028 || u == 0x2029
}

pub open spec fn has_line_break(s: Seq<char>) -> bool {
    exists|i: int| 0 <= i < s.len() && #[trigger] is_line_break(s[i])
}

pub fn is_line_break_char(c: char) -> (r: bool)
    ensures
        r == is_line_break(c),
{
    let u = c as u32;
    u == 0x0a || u == 0x0d || u == 0x0b || u == 0x0c || u == 0x85 || u == 0x2028 || u == 0x2029
}

pub fn chars_have_line_break(v: &Vec<char>) -> (r: bool)
    ensures
        r == has_line_break(v@),
{
    let mut i: usize = 0;
    while i < v.len()
        invariant
            i <= v.len(),
            forall|j: int| 0 <= j < i ==> !is_line_break(#[trigger] v@[j]),
        decreases v.len() - i,
    {
        if is_line_break_char(v[i]) {
            return true;
        }
        i += 1;
    }
    false
}

/// Whether `value` holds a line break.
pub fn contains_line_break(value: &str) -> (r: bool)
    ensures
        r == has_line_break(value@),
{
    let v = chars_of(value);
    chars_have_line_break(&v)
}

/// How an observed answer is to be treated.
#[derive(Clone, Copy, Debug, PartialEq, Eq, Structural)]
pub enum ObservedAnswerState {
    Answer,
    Idk,
    Malformed,
    Unparseable,
    EmptyEvidence,
    Unknown,
}

pub open spec fn yes_no_token(s: Seq<char>) -> bool {
    s == "yes"@ || s == "no"@
}

pub open spec fn option_token(s: Seq<char>) -> bool {
    s.len() == 1 && is_ascii_lower(s[0])
}

/// The state of an observed answer on its own.
pub open spec fn observed_state(observed: Seq<char>) -> ObservedAnswerState {
    if observed == idk_text() {
        ObservedAnswerState::Idk
    } else if observed == malformed_text() {
        ObservedAnswerState::Malformed
    } else if observed == unparseable_text() {
        ObservedAnswerState::Unparseable
    } else if observed == empty_evidence_text() {
        ObservedAnswerState::EmptyEvidence
    } else if has_line_break(observed) {
        ObservedAnswerState::Unknown
    } else {
        ObservedAnswerState::Answer
    }
}

/// The state of an observed answer given the expected answer: closed vocabularies
/// (yes/no, one option letter) reject answers outside them.
pub open spec fn answer_state(expected: Seq<char>, observed: Seq<char>) -> ObservedAnswerState {
    let state = observed_state(observed);
    if state != ObservedAnswerState::Answer {
        state
    } else if yes_no_token(expected) {
        if yes_no_token(observed) {
            ObservedAnswerState::Answer
        } else {
            ObservedAnswerState::Unknown
        }
    } else if option_token(expected) {
        if option_token(observed) {
            ObservedAnswerState::Answer
        } else {
            ObservedAnswerState::Unknown
        }
    } else {
        ObservedAnswerState::Answer
    }
}

/// Whether `value` is `yes` or `no`.
pub fn is_yes_no_token(value: &str) -> (r: bool)
    ensures
        r == yes_no_token(value@),
{
    str_eq(value, "yes") || str_eq(value, "no")
}

/// Whether `value` is one lowercase ASCII letter.
pub fn is_option_token(value: &str) -> (r: bool)
    ensures
        r == option_token(value@),
{
    let v = chars_of(value);
    v.len() == 1 && is_ascii_lower_char(v[0])
}

impl ObservedAnswerState {
    pub fn from_observed(observed: &str) -> (r: ObservedAnswerState)
        ensures
            r == observed_state(observed@),
    {
        if str_eq(observed, OBSERVED_IDK) {
            ObservedAnswerState::Idk
        } else if str_eq(observed, OBSERVED_MALFORMED) {
            ObservedAnswerState::Malformed
        } else if str_eq(observed, UNPARSEABLE_OBSERVED) {
            ObservedAnswerState::Unparseable
        } else if str_eq(observed, EMPTY_EVIDENCE_OBSERVED) {
            ObservedAnswerState::EmptyEvidence
        } else if contains_line_break(observed) {
            ObservedAnswerState::Unknown
        } else {
            ObservedAnswerState::Answer
        }
    }

    pub fn from_expected_and_observed(expected: &str, observed: &str) -> (r: ObservedAnswerState)
        ensures
            r == answer_state(expected@, observed@),
    {
        let state = ObservedAnswerState::from_observed(observed);
        if state != ObservedAnswerState::Answer {
            return state;
        }
        if is_yes_no_token(expected) {
            if is_yes_no_token(observed) {
                ObservedAnswerState::Answer
            } else {
                ObservedAnswerState::Unknown
            }
        } else if is_option_token(expected) {
            if is_option_token(observed) {
                ObservedAnswerState::Answer
            } else {
                ObservedAnswerState::Unknown
            }
        } else {
            ObservedAnswerState::Answer
        }
    }

    pub fn requires_human_review(self) -> (r: bool)
        ensures
            r == (self != ObservedAnswerState::Answer),
    {
        !matches!(self, ObservedAnswerState::Answer)
    }

    pub fn is_reusable_history(self) -> (r: bool)
        ensures
            r == (self == ObservedAnswerState::Answer),
    {
        matches!(self, ObservedAnswerState::Answer)
    }
}

/// Exactly the answers that need no human review are reusable as history.
pub proof fn law_review_and_reuse_are_complementary(state: ObservedAnswerState)
    ensures
        (state != ObservedAnswerState::Answer) == !(state == ObservedAnswerState::Answer),
{
}

/// The outcome of one check.
#[derive(Clone, Copy, Debug, PartialEq, Eq, Structural)]
pub enum CheckResult {
    Pass,
    Fail,
}

impl CheckResult {
    pub fn as_str(self) -> (r: &'static str)
        ensures
            r@ == (match self {
                CheckResult::Pass => RESULT_PASS@,
                CheckResult::Fail => RESULT_FAIL@,
            }),
    {
        match self {
            CheckResult::Pass => RESULT_PASS,
            CheckResult::Fail => RESULT_FAIL,
        }
    }
}

/// A minimum interval between passing checks of one expectation.
#[derive(Clone, Copy, Debug, PartialEq, Eq, Structural)]
pub struct Cooldown {
    pub seconds: u64,
}

/// An expectation chosen for a check run.
pub struct SelectedExpectation {
    pub number: usize,
    pub id: String,
    pub display_id: String,
    pub q: String,
    pub a: String,
    pub cooldown: Option<Cooldown>,
    pub thinking: Option<String>,
}

/// Clones an optional string, keeping its contents.
pub fn clone_opt_string(s: &Option<String>) -> (r: Option<String>)
    ensures
        r == *s,
{
    match s {
        Some(v) => Some(v.clone()),
        None => None,
    }
}

/// Clones a vector of strings, keeping its contents.
pub fn clone_strings(v: &Vec<String>) -> (r: Vec<String>)
    ensures
        r@ == v@,
{
    let mut r: Vec<String> = Vec::new();
    let mut i: usize = 0;
    while i < v.len()
        invariant
            i <= v.len(),
            r@ == v@.subrange(0, i as int),
        decreases v.len() - i,
    {
        r.push(v[i].clone());
        assert(v@.subrange(0, i + 1) =~= v@.subrange(0, i as int).push(v@[i as int]));
        i += 1;
    }
    assert(v@.subrange(0, v.len() as int) =~= v@);
    r
}

impl SelectedExpectation {
    pub fn duplicate(&self) -> (r: SelectedExpectation)
        ensures
            r == *self,
    {
        SelectedExpectation {
            number: self.number,
            id: self.id.clone(),
            display_id: self.display_id.clone(),
            q: self.q.clone(),
            a: self.a.clone(),
            cooldown: self.cooldown,
            thinking: clone_opt_string(&self.thinking),
        }
    }
}

/// A parsed evaluator answer.
pub struct ParsedAnswer {
    pub answer: String,
    pub evidence: String,
    pub scope: Vec<String>,
}

impl ParsedAnswer {
    pub fn duplicate(&self) -> (r: ParsedAnswer)
        ensures
            r.answer == self.answer,
            r.evidence == self.evidence,
            r.scope@ == self.scope@,
    {
        ParsedAnswer {
            answer: self.answer.clone(),
            evidence: self.evidence.clone(),
            scope: clone_strings(&self.scope),
        }
    }
}

/// One check record, as kept in history and shown in check output.
pub struct CheckRecord {
    pub timestamp: String,
    pub number: usize,
    pub result: CheckResult,
    pub prompt: Option<String>,
    pub expected: Option<String>,
    pub observed: String,
    pub evidence: String,
    pub scope: Vec<String>,
    pub scope_hash: String,
    pub id: String,
    pub display_id: String,
    pub cache_key: Option<String>,
}

/// What an interrogation decided for a record.
pub struct CheckRecordOutcome {
    pub result: CheckResult,
    pub observed: String,
    pub evidence: String,
    pub scope: Vec<String>,
    pub scope_hash: String,
}

impl CheckRecord {
    pub fn duplicate(&self) -> (r: CheckRecord)
        ensures
            r.timestamp == self.timestamp,
            r.number == self.number,
            r.result == self.result,
            r.prompt == self.prompt,
            r.expected == self.expected,
            r.observed == self.observed,
            r.evidence == self.evidence,
            r.scope@ == self.scope@,
            r.scope_hash == self.scope_hash,
            r.id == self.id,
            r.display_id == self.display_id,
            r.cache_key == self.cache_key,
    {
        CheckRecord {
            timestamp: self.timestamp.clone(),
            number: self.number,
            result: self.result,
            prompt: clone_opt_string(&self.prompt),
            expected: clone_opt_string(&self.expected),
            observed: self.observed.clone(),
            evidence: self.evidence.clone(),
            scope: clone_strings(&self.scope),
            scope_hash: self.scope_hash.clone(),
            id: self.id.clone(),
            display_id: self.display_id.clone(),
            cache_key: clone_opt_string(&self.cache_key),
        }
    }

    /// Builds the record of one interrogation of `expectation`.
    pub fn from_expectation(
        timestamp: String,
        expectation: &SelectedExpectation,
        cache_key: Option<String>,
        outcome: CheckRecordOutcome,
    ) -> (r: CheckRecord)
        ensures
            r.timestamp == timestamp,
            r.id == expectation.id,
            r.display_id == expectation.display_id,
            r.number == expectation.number,
            r.result == outcome.result,
            r.prompt == Some(expectation.q),
            r.expected == Some(expectation.a),
            r.observed == outcome.observed,
            r.evidence == outcome.evidence,
            r.scope == outcome.scope,
            r.scope_hash == outcome.scope_hash,
            r.cache_key == cache_key,
    {
        CheckRecord {
            timestamp,
            id: expectation.id.clone(),
            display_id: expectation.display_id.clone(),
            number: expectation.number,
            result: outcome.result,
            prompt: Some(expectation.q.clone()),
            expected: Some(expectation.a.clone()),
            observed: outcome.observed,
            evidence: outcome.evidence,
            scope: outcome.scope,
            scope_hash: outcome.scope_hash,
            cache_key,
        }
    }

    pub fn passed(&self) -> (r: bool)
        ensures
            r == (self.result == CheckResult::Pass),
    {
        self.result == CheckResult::Pass
    }

    /// The question text, empty when the record holds none.
    pub fn prompt_text(&self) -> (r: &str)
        ensures
            r@ == (match self.prompt {
                Some(p) => p@,
                None => ""@,
            }),
    {
        match &self.prompt {
            Some(p) => p.as_str(),
            None => "",
        }
    }

    pub fn expected_text(&self) -> (r: Option<&str>)
        ensures
            r is Some == self.expected is Some,
            r is Some ==> r->0@ == self.expected->0@,
    {
        match &self.expected {
            Some(e) => Some(e.as_str()),
            None => None,
        }
    }
}

} // verus!
