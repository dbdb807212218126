//! Checks on the evaluator's JSON response: the order of its keys and the shape of
//! its answer, and the excerpt of a response shown in diagnostics.

use vstd::prelude::*;
use crate::answer::{answer_state, is_option_token, observed_state, option_token, ObservedAnswerState, ParsedAnswer, OBSERVED_IDK, OBSERVED_MALFORMED, UNPARSEABLE_OBSERVED};
use crate::hash::full_scope;
use crate::text::{chars_of, str_eq, trim_spec, trim_str};
use crate::repo_path::{normalize_repo_path, normalize_spec};

verus! {

/// The keys of a response object, in the order the protocol fixes.
pub open spec fn expected_keys() -> Seq<Seq<char>> {
    seq!["answer"@, "evidence"@, "scope"@]
}

pub open spec fn key_views(v: Seq<String>) -> Seq<Seq<char>> {
    v.map_values(|s: String| s@)
}

/// The keys of `v` separated by `, `.
pub open spec fn keys_joined(v: Seq<Seq<char>>) -> Seq<char>
    decreases v.len(),
{
    if v.len() == 0 {
        Seq::empty()
    } else if v.len() == 1 {
        v[0]
    } else {
        keys_joined(v.drop_last()) + ", "@ + v.last()
    }
}

/// The top-level keys of the response (`keys`, in source order) must be `answer`,
/// `evidence`, `scope`.
pub fn validate_evaluator_response_key_order(keys: &Vec<String>) -> (r: Result<(), String>)
    ensures
        key_views(keys@) == expected_keys() ==> r is Ok,
        key_views(keys@) != expected_keys() ==> (r matches Err(e) && e@
            == "evaluator JSON response must contain keys in order answer, evidence, scope; got "@
            + keys_joined(key_views(keys@))),
{
    let ghost kv = key_views(keys@);
    if keys.len() == 3 && str_eq(keys[0].as_str(), "answer") && str_eq(keys[1].as_str(), "evidence")
        && str_eq(keys[2].as_str(), "scope") {
        assert(kv =~= expected_keys());
        return Ok(());
    }
    proof {
        if kv == expected_keys() {
            assert(kv.len() == 3);
            assert(keys@.len() == 3);
            assert(kv[0] == keys@[0]@);
            assert(kv[1] == keys@[1]@);
            assert(kv[2] == keys@[2]@);
            assert(false);
        }
    }
    let mut m = String::from_str(
        "evaluator JSON response must contain keys in order answer, evidence, scope; got ",
    );
    let mut i: usize = 0;
    let ghost base = m@;
    while i < keys.len()
        invariant
            i <= keys.len(),
            kv == key_views(keys@),
            m@ == base + keys_joined(kv.take(i as int)),
        decreases keys.len() - i,
    {
        assert(kv.take(i + 1).drop_last() =~= kv.take(i as int));
        assert(kv[i as int] == keys@[i as int]@);
        let ghost before = m@;
        if i > 0 {
            m.append(", ");
        }
        m.append(keys[i].as_str());
        proof {
            if i == 0 {
                assert(m@ =~= base + kv.take(1)[0]);
            } else {
                assert(m@ =~= before + ", "@ + kv[i as int]);
            }
        }
        i += 1;
    }
    assert(kv.take(keys.len() as int) =~= kv);
    Err(m)
}

/// The answers an evaluator may give: yes, no, idk, malformed, or one lowercase
/// ASCII option letter.
pub open spec fn allowed_answer(a: Seq<char>) -> bool {
    a == "yes"@ || a == "no"@ || a == "idk"@ || a == "malformed"@ || option_token(a)
}

pub fn evaluator_answer_is_allowed(answer: &str) -> (r: bool)
    ensures
        r == allowed_answer(answer@),
{
    proof {
        reveal_strlit("idk");
        reveal_strlit("malformed");
    }
    str_eq(answer, "yes") || str_eq(answer, "no") || str_eq(answer, OBSERVED_IDK) || str_eq(
        answer,
        OBSERVED_MALFORMED,
    ) || is_option_token(answer)
}

/// What is wrong with an evaluator's answer, if anything: it must be one line. The
/// answer's vocabulary is not checked here: a free-form one-line answer such as
/// `Rust` is valid where the expectation asks for one, and the expected answer
/// decides the rest (`answer_state`).
pub open spec fn answer_problem(a: Seq<char>) -> Option<Seq<char>> {
    if a.contains('\n') || a.contains('\r') {
        Some("answer must be a single-line string"@)
    } else {
        None
    }
}

pub fn check_evaluator_answer(answer: &str) -> (r: Result<(), String>)
    ensures
        match answer_problem(answer@) {
            None => r is Ok,
            Some(m) => r matches Err(e) && e@ == m,
        },
{
    let v = chars_of(answer);
    let mut i: usize = 0;
    while i < v.len()
        invariant
            i <= v.len(),
            v@ == answer@,
            forall|j: int| 0 <= j < i ==> v@[j] != '\n' && v@[j] != '\r',
        decreases v.len() - i,
    {
        if v[i] == '\n' || v[i] == '\r' {
            assert(answer@.contains(v@[i as int]));
            return Err(String::from_str("answer must be a single-line string"));
        }
        i += 1;
    }
    Ok(())
}

/// The scope of an evaluator response, each entry as given: the first entry that
/// is not a valid repository path gives its error, and the first that is not in
/// normal form is refused.
pub open spec fn response_scope_spec(scope: Seq<Seq<char>>) -> Result<Seq<Seq<char>>, Seq<char>>
    decreases scope.len(),
{
    if scope.len() == 0 {
        Ok(Seq::empty())
    } else {
        match response_scope_spec(scope.drop_last()) {
            Err(m) => Err(m),
            Ok(prev) => match normalize_spec(scope.last()) {
                Err(m) => Err(m),
                Ok(p) => if p != scope.last() {
                    Err("scope entry must be normalized: "@ + scope.last())
                } else {
                    Ok(prev.push(p))
                },
            },
        }
    }
}

pub open spec fn scope_entry_views(v: Seq<String>) -> Seq<Seq<char>> {
    Seq::new(v.len(), |i: int| v[i]@)
}

pub fn parse_scope_strings(scope: &Vec<String>) -> (r: Result<Vec<String>, String>)
    ensures
        match response_scope_spec(scope_entry_views(scope@)) {
            Ok(v) => r matches Ok(x) && scope_entry_views(x@) == v,
            Err(m) => r matches Err(e) && e@ == m,
        },
{
    let mut parsed: Vec<String> = Vec::new();
    let mut i: usize = 0;
    assert(scope_entry_views(scope@).take(0) =~= Seq::<Seq<char>>::empty());
    assert(scope_entry_views(parsed@) =~= Seq::<Seq<char>>::empty());
    while i < scope.len()
        invariant
            i <= scope@.len(),
            response_scope_spec(scope_entry_views(scope@).take(i as int)) == Ok::<Seq<Seq<char>>, Seq<char>>(
                scope_entry_views(parsed@),
            ),
        decreases scope.len() - i,
    {
        assert(scope_entry_views(scope@).take(i + 1).drop_last() =~= scope_entry_views(scope@).take(i as int));
        assert(scope_entry_views(scope@).take(i + 1).last() == scope@[i as int]@);
        let raw = &scope[i];
        let normalized = match normalize_repo_path(raw.as_str()) {
            Ok(n) => n,
            Err(e) => {
                proof {
                    lemma_response_scope_err_stays(scope_entry_views(scope@), i + 1);
                }
                return Err(e);
            },
        };
        if !str_eq(normalized.as_str(), raw.as_str()) {
            let mut m = String::from_str("scope entry must be normalized: ");
            m.append(raw.as_str());
            proof {
                lemma_response_scope_err_stays(scope_entry_views(scope@), i + 1);
            }
            return Err(m);
        }
        let ghost before = parsed@;
        parsed.push(normalized);
        assert(scope_entry_views(parsed@) =~= scope_entry_views(before).push(scope@[i as int]@));
        i += 1;
    }
    assert(scope_entry_views(scope@).take(scope@.len() as int) =~= scope_entry_views(scope@));
    Ok(parsed)
}

proof fn lemma_response_scope_err_stays(scope: Seq<Seq<char>>, k: int)
    requires
        0 <= k <= scope.len(),
        response_scope_spec(scope.take(k)) is Err,
    ensures
        response_scope_spec(scope) == response_scope_spec(scope.take(k)),
    decreases scope.len() - k,
{
    if k < scope.len() {
        assert(scope.take(k + 1).drop_last() =~= scope.take(k));
        lemma_response_scope_err_stays(scope, k + 1);
    } else {
        assert(scope.take(k) =~= scope);
    }
}

/// At most this many characters of a response are shown.
pub const RESPONSE_EXCERPT_LIMIT: usize = 600;

/// The response as shown in diagnostics: trimmed, `<empty>` when nothing is left,
/// cut after 600 characters with `...` appended.
pub open spec fn excerpt_spec(text: Seq<char>) -> Seq<char> {
    let t = trim_spec(text);
    if t.len() == 0 {
        "<empty>"@
    } else if t.len() > 600 {
        t.take(600) + "..."@
    } else {
        t
    }
}

pub fn response_excerpt(text: &str) -> (r: String)
    ensures
        r@ == excerpt_spec(text@),
{
    let t = trim_str(text);
    let v = chars_of(t.as_str());
    if v.len() == 0 {
        return String::from_str("<empty>");
    }
    if v.len() <= RESPONSE_EXCERPT_LIMIT {
        return t;
    }
    let mut out = crate::text::string_from_chars(&v, 0, RESPONSE_EXCERPT_LIMIT);
    out.append("...");
    assert(v@.subrange(0, 600) =~= v@.take(600));
    out
}

/// The answer recorded for a response that could not be parsed: the unparseable
/// marker, the reason with an excerpt of the response, and the full scope.
pub fn unparseable_response(error: &str, text: &str) -> (r: ParsedAnswer)
    ensures
        r.answer@ == "<unparseable>"@,
        r.evidence@ == "evaluator response could not be parsed: "@ + error@ + "\nresponse: "@
            + excerpt_spec(text@),
        r.scope@.len() == 1,
        r.scope@[0]@ == seq!['.'],
{
    let mut evidence = String::from_str("evaluator response could not be parsed: ");
    evidence.append(error);
    evidence.append("\nresponse: ");
    let excerpt = response_excerpt(text);
    evidence.append(excerpt.as_str());
    proof {
        reveal_strlit("<unparseable>");
    }
    ParsedAnswer {
        answer: String::from_str(UNPARSEABLE_OBSERVED),
        evidence,
        scope: full_scope(),
    }
}

/// The project's own evaluator policy as it appears in the developer
/// instructions: nothing when the configured instructions are blank, else a
/// heading line and the trimmed instructions.
pub fn custom_agent_instruction_block(instructions: &str) -> (r: String)
    ensures
        trim_spec(instructions@).len() == 0 ==> r@.len() == 0,
        trim_spec(instructions@).len() > 0 ==> r@ == "Project-specific evaluator policy loaded from check.yml:\n"@
            + trim_spec(instructions@),
{
    let t = trim_str(instructions);
    if t.as_str().is_empty() {
        return String::new();
    }
    let mut s = String::from_str("Project-specific evaluator policy loaded from check.yml:\n");
    s.append(t.as_str());
    s
}

/// Why an answer needs a human review.
#[derive(Clone, Copy, Debug, PartialEq, Eq, Structural)]
pub enum ReviewReason {
    Malformed,
    Unparseable,
    EmptyEvidence,
    FullScopeIdk,
    Unknown,
}

/// The review an answer needs, from its state (given the expected answer where
/// there is one) and whether it was asked under the full scope: a restricted `idk`
/// is retried rather than reviewed.
pub open spec fn review_reason_spec(state: ObservedAnswerState, full_scope: bool) -> Option<ReviewReason> {
    match state {
        ObservedAnswerState::Malformed => Some(ReviewReason::Malformed),
        ObservedAnswerState::Unparseable => Some(ReviewReason::Unparseable),
        ObservedAnswerState::EmptyEvidence => Some(ReviewReason::EmptyEvidence),
        ObservedAnswerState::Idk => if full_scope {
            Some(ReviewReason::FullScopeIdk)
        } else {
            None
        },
        ObservedAnswerState::Unknown => Some(ReviewReason::Unknown),
        ObservedAnswerState::Answer => None,
    }
}

pub fn review_required_reason(expected: Option<&str>, observed: &str, enforced_scope_is_full: bool) -> (r: Option<ReviewReason>)
    ensures
        r == review_reason_spec(
            match expected {
                Some(e) => answer_state(e@, observed@),
                None => observed_state(observed@),
            },
            enforced_scope_is_full,
        ),
{
    let state = match expected {
        Some(e) => ObservedAnswerState::from_expected_and_observed(e, observed),
        None => ObservedAnswerState::from_observed(observed),
    };
    match state {
        ObservedAnswerState::Malformed => Some(ReviewReason::Malformed),
        ObservedAnswerState::Unparseable => Some(ReviewReason::Unparseable),
        ObservedAnswerState::EmptyEvidence => Some(ReviewReason::EmptyEvidence),
        ObservedAnswerState::Idk => if enforced_scope_is_full {
            Some(ReviewReason::FullScopeIdk)
        } else {
            None
        },
        ObservedAnswerState::Unknown => Some(ReviewReason::Unknown),
        ObservedAnswerState::Answer => None,
    }
}

impl ReviewReason {
    /// The reason as logged; a malformed answer is logged with the caller's warning.
    pub fn text(self, malformed_warning: &str) -> (r: String)
        ensures
            r@ == match self {
                ReviewReason::Malformed => malformed_warning@,
                ReviewReason::Unparseable => "unparseable evaluator response"@,
                ReviewReason::EmptyEvidence => "empty evaluator evidence"@,
                ReviewReason::FullScopeIdk => "full-scope idk"@,
                ReviewReason::Unknown => "unknown observed answer state"@,
            },
    {
        match self {
            ReviewReason::Malformed => String::from_str(malformed_warning),
            ReviewReason::Unparseable => String::from_str("unparseable evaluator response"),
            ReviewReason::EmptyEvidence => String::from_str("empty evaluator evidence"),
            ReviewReason::FullScopeIdk => String::from_str("full-scope idk"),
            ReviewReason::Unknown => String::from_str("unknown observed answer state"),
        }
    }
}

} // verus!
