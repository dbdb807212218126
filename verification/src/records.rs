//! Records of interrogations: the history cache key, the record of a failed
//! interrogation, and the full-scope retry after a restricted `idk`.

use vstd::prelude::*;
use vstd::utf8::encode_utf8;
use crate::answer::{
    clone_strings, CheckRecord, CheckRecordOutcome, CheckResult, SelectedExpectation,
    UNPARSEABLE_OBSERVED,
};
use crate::config::AgentConfig;
use crate::hash::{full_scope, hash_120, hash_120_spec};
use crate::policy::{
    saturating_sum, should_retry_full_scope_after_restricted_idk, turn_exceeds_break_after_tokens,
    InterrogationResult,
};
use crate::sessions::effective_thinking;
use crate::text::{decimal, decimal_string};

verus! {

/// One `key`/`value` part of a cache key input: the key, NUL, the value's length in
/// bytes in decimal, NUL, the value, NUL; texts in UTF-8.
pub open spec fn key_part(key: Seq<char>, value: Seq<char>) -> Seq<u8> {
    encode_utf8(key) + seq![0u8] + encode_utf8(decimal(encode_utf8(value).len())) + seq![0u8]
        + encode_utf8(value) + seq![0u8]
}

/// One part under `key` for each of `values`, in order.
pub open spec fn key_parts(key: Seq<char>, values: Seq<String>) -> Seq<u8>
    decreases values.len(),
{
    if values.len() == 0 {
        Seq::empty()
    } else {
        key_parts(key, values.drop_last()) + key_part(key, values.last()@)
    }
}

/// What the history cache key of an expectation is computed from.
pub open spec fn history_cache_key_input(agent: AgentConfig, ignore: Seq<String>, e: SelectedExpectation) -> Seq<u8> {
    key_part("schema"@, "2"@) + key_part("instructions"@, agent.instructions@) + key_parts(
        "ignore"@,
        ignore,
    ) + key_parts("plugin"@, agent.plugins@) + match agent.model.primary {
        Some(p) => key_part("model.primary"@, p@),
        None => Seq::empty(),
    } + key_parts("model.fallback"@, agent.model.fallbacks@) + key_part(
        "thinking"@,
        match e.thinking {
            Some(t) => t@,
            None => agent.thinking@,
        },
    ) + key_part(
        "cooldown"@,
        match e.cooldown {
            Some(c) => decimal(c.seconds as nat),
            None => "none"@,
        },
    )
}

fn push_bytes(v: &mut Vec<u8>, s: &str)
    ensures
        final(v)@ == old(v)@ + encode_utf8(s@),
{
    let b = s.as_bytes();
    let mut i: usize = 0;
    while i < b.len()
        invariant
            i <= b@.len(),
            b@ == encode_utf8(s@),
            v@ == old(v)@ + b@.take(i as int),
        decreases b.len() - i,
    {
        v.push(b[i]);
        assert(b@.take(i + 1) =~= b@.take(i as int).push(b@[i as int]));
        i += 1;
    }
    assert(b@.take(b@.len() as int) =~= b@);
}

fn push_key_part(input: &mut Vec<u8>, key: &str, value: &str)
    ensures
        final(input)@ == old(input)@ + key_part(key@, value@),
{
    push_bytes(input, key);
    input.push(0u8);
    let n = value.as_bytes().len();
    let digits = decimal_string(n as u64);
    push_bytes(input, digits.as_str());
    input.push(0u8);
    push_bytes(input, value);
    input.push(0u8);
    assert(final(input)@ =~= old(input)@ + key_part(key@, value@));
}

fn push_key_parts(input: &mut Vec<u8>, key: &str, values: &Vec<String>)
    ensures
        final(input)@ == old(input)@ + key_parts(key@, values@),
{
    let mut i: usize = 0;
    while i < values.len()
        invariant
            i <= values@.len(),
            input@ == old(input)@ + key_parts(key@, values@.take(i as int)),
        decreases values.len() - i,
    {
        push_key_part(input, key, values[i].as_str());
        assert(values@.take(i + 1).drop_last() =~= values@.take(i as int));
        assert(input@ =~= old(input)@ + key_parts(key@, values@.take(i + 1)));
        i += 1;
    }
    assert(values@.take(values@.len() as int) =~= values@);
}

/// The key that a history record of `expectation` carries: a hash of the schema
/// version, the agent settings that shape an answer (with `ignore` the effective
/// ignore patterns), the expectation's thinking level and its cooldown.
pub fn history_cache_key(agent: &AgentConfig, ignore: &Vec<String>, expectation: &SelectedExpectation) -> (r: String)
    ensures
        r@ == hash_120_spec(history_cache_key_input(*agent, ignore@, *expectation)),
{
    let mut input: Vec<u8> = Vec::new();
    push_key_part(&mut input, "schema", "2");
    push_key_part(&mut input, "instructions", agent.instructions.as_str());
    push_key_parts(&mut input, "ignore", ignore);
    push_key_parts(&mut input, "plugin", &agent.plugins);
    if let Some(primary) = &agent.model.primary {
        push_key_part(&mut input, "model.primary", primary.as_str());
    }
    push_key_parts(&mut input, "model.fallback", &agent.model.fallbacks);
    let thinking = effective_thinking(agent, expectation);
    push_key_part(&mut input, "thinking", thinking);
    let cooldown = match expectation.cooldown {
        Some(c) => decimal_string(c.seconds),
        None => String::from_str("none"),
    };
    push_key_part(&mut input, "cooldown", cooldown.as_str());
    assert(input@ =~= history_cache_key_input(*agent, ignore@, *expectation));
    hash_120(input.as_slice())
}

impl CheckRecord {
    /// The record of an interrogation made now (at `timestamp`), keyed for history.
    pub fn current_from_expectation(
        agent: &AgentConfig,
        ignore: &Vec<String>,
        expectation: &SelectedExpectation,
        outcome: CheckRecordOutcome,
        timestamp: String,
    ) -> (r: CheckRecord)
        ensures
            r.timestamp == timestamp,
            r.id == expectation.id,
            r.display_id == expectation.display_id,
            r.number == expectation.number,
            r.result == outcome.result,
            r.prompt == Some(expectation.q),
            r.expected == Some(expectation.a),
            r.observed == outcome.observed,
            r.evidence == outcome.evidence,
            r.scope == outcome.scope,
            r.scope_hash == outcome.scope_hash,
            r.cache_key matches Some(k) && k@ == hash_120_spec(
                history_cache_key_input(*agent, ignore@, *expectation),
            ),
    {
        let key = history_cache_key(agent, ignore, expectation);
        CheckRecord::from_expectation(timestamp, expectation, Some(key), outcome)
    }
}

/// The record of an interrogation that failed with `error` under `scope`: a failing
/// record whose observed value is the unparseable marker and whose evidence is the
/// error.
pub fn error_record_from_interrogation_error(
    agent: &AgentConfig,
    ignore: &Vec<String>,
    expectation: &SelectedExpectation,
    scope: &Vec<String>,
    error: &str,
    scope_hash: String,
    timestamp: String,
) -> (r: CheckRecord)
    ensures
        r.timestamp == timestamp,
        r.id == expectation.id,
        r.display_id == expectation.display_id,
        r.number == expectation.number,
        r.result == CheckResult::Fail,
        r.prompt == Some(expectation.q),
        r.expected == Some(expectation.a),
        r.observed@ == "<unparseable>"@,
        r.evidence@ == error@,
        r.scope@ == scope@,
        r.scope_hash == scope_hash,
        r.cache_key matches Some(k) && k@ == hash_120_spec(
            history_cache_key_input(*agent, ignore@, *expectation),
        ),
{
    let outcome = CheckRecordOutcome {
        result: CheckResult::Fail,
        observed: String::from_str(UNPARSEABLE_OBSERVED),
        evidence: String::from_str(error),
        scope: clone_strings(scope),
        scope_hash,
    };
    proof {
        reveal_strlit("<unparseable>");
    }
    CheckRecord::current_from_expectation(agent, ignore, expectation, outcome, timestamp)
}

/// The interrogation result that stands for a failed interrogation: its error
/// record, with no usage and no request to stop.
pub fn error_interrogation_result(record: CheckRecord) -> (r: InterrogationResult)
    ensures
        r.record == record,
        r.turn_usage is None,
        !r.context_compacted,
        !r.stop_after_current_expectation,
{
    InterrogationResult {
        record,
        turn_usage: None,
        context_compacted: false,
        stop_after_current_expectation: false,
    }
}

/// Whether the turn asked to stop after the current expectation: it crossed the
/// token limit or compacted its context.
pub open spec fn turn_asks_to_stop(r: InterrogationResult, limit: Option<u64>) -> bool {
    (match (limit, r.turn_usage) {
        (Some(l), Some(u)) => saturating_sum(u.input_tokens, u.output_tokens) > l,
        _ => false,
    }) || r.context_compacted
}

/// The scope to interrogate again under, after a first interrogation under
/// `enforced_scope`: the full scope when that was restricted and the answer was
/// `idk`.
pub fn full_scope_retry_scope(first: &InterrogationResult, enforced_scope: &Vec<String>) -> (r: Option<Vec<String>>)
    ensures
        match r {
            Some(s) => s@.len() == 1 && s@[0]@ == seq!['.'],
            None => true,
        },
        (r is Some) == (!crate::scope::is_full_scope(crate::scope::scope_views(enforced_scope@))
            && crate::answer::observed_state(first.record.observed@)
            == crate::answer::ObservedAnswerState::Idk),
{
    if should_retry_full_scope_after_restricted_idk(&first.record, enforced_scope) {
        Some(full_scope())
    } else {
        None
    }
}

/// The result of the full-scope retry, which replaces the restricted `idk`; it
/// still stops after the current expectation where the first turn asked to.
pub fn interrogate_with_full_scope_retry(first: &InterrogationResult, break_after_tokens: Option<u64>, retried: InterrogationResult) -> (r: InterrogationResult)
    ensures
        r == (InterrogationResult {
            stop_after_current_expectation: retried.stop_after_current_expectation
                || turn_asks_to_stop(*first, break_after_tokens),
            ..retried
        }),
{
    let stop = turn_exceeds_break_after_tokens(first, break_after_tokens) || first.context_compacted;
    let mut r = retried;
    r.stop_after_current_expectation = r.stop_after_current_expectation || stop;
    r
}

} // verus!
