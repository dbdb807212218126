//! Per-turn ledgers of token usage and context compactions, keyed by turn ID.
//!
//! A ledger is a vector of `(turn ID, value)` entries in which each turn ID occurs
//! once; lookups go by the ID's characters.

use vstd::prelude::*;
use crate::protocol::{usage_sum, usage_sum_fits, zero_usage, TokenUsage};
use crate::text::str_eq;

verus! {

/// One `thread/tokenUsage/updated` notification of a turn.
pub struct TokenUsageUpdate {
    pub sequence: u64,
    pub thread_id: String,
    pub turn_id: String,
    pub token_usage: serde_json::Value,
    pub last_usage: TokenUsage,
}

/// One context compaction reported during a turn.
pub struct ContextCompactionEvent {
    pub sequence: u64,
    pub thread_id: String,
    pub turn_id: String,
    pub method: String,
    pub event: serde_json::Value,
}

/// No turn ID occurs twice.
pub open spec fn keys_unique<V>(e: Seq<(String, V)>) -> bool {
    forall|i: int, j: int| 0 <= i < j < e.len() ==> #[trigger] e[i].0@ != #[trigger] e[j].0@
}

pub open spec fn has_key<V>(e: Seq<(String, V)>, k: Seq<char>) -> bool {
    exists|i: int| 0 <= i < e.len() && #[trigger] e[i].0@ == k
}

/// The position of the entry for `k`.
pub open spec fn key_pos<V>(e: Seq<(String, V)>, k: Seq<char>) -> int {
    choose|i: int| 0 <= i < e.len() && #[trigger] e[i].0@ == k
}

pub proof fn lemma_key_pos_unique<V>(e: Seq<(String, V)>, i: int)
    requires
        keys_unique(e),
        0 <= i < e.len(),
    ensures
        has_key(e, e[i].0@),
        key_pos(e, e[i].0@) == i,
{
    let k = e[i].0@;
    assert(e[i].0@ == k);
    let p = key_pos(e, k);
    if p != i {
        if p < i {
            assert(e[p].0@ != e[i].0@);
        } else {
            assert(e[i].0@ != e[p].0@);
        }
    }
}

/// Replacing the value of an entry keeps the keys and their positions.
pub proof fn lemma_replace_value<V>(e: Seq<(String, V)>, i: int, x: (String, V))
    requires
        keys_unique(e),
        0 <= i < e.len(),
        x.0@ == e[i].0@,
    ensures
        keys_unique(e.update(i, x)),
        forall|k: Seq<char>| #[trigger] has_key(e.update(i, x), k) == has_key(e, k),
        forall|k: Seq<char>|
            has_key(e, k) ==> #[trigger] key_pos(e.update(i, x), k) == key_pos(e, k),
{
    let f = e.update(i, x);
    assert forall|a: int, b: int| 0 <= a < b < f.len() implies #[trigger] f[a].0@ != #[trigger] f[b].0@ by {
        assert(e[a].0@ != e[b].0@);
    }
    assert forall|k: Seq<char>| #[trigger] has_key(f, k) == has_key(e, k) by {
        if has_key(e, k) {
            let p = choose|p: int| 0 <= p < e.len() && #[trigger] e[p].0@ == k;
            assert(f[p].0@ == k);
        }
        if has_key(f, k) {
            let p = choose|p: int| 0 <= p < f.len() && #[trigger] f[p].0@ == k;
            assert(e[p].0@ == k);
        }
    }
    assert forall|k: Seq<char>| has_key(e, k) implies #[trigger] key_pos(f, k) == key_pos(e, k) by {
        let p = key_pos(e, k);
        lemma_key_pos_unique(e, p);
        assert(f[p].0@ == k);
        lemma_key_pos_unique(f, p);
    }
}

/// Appending an entry with a new key keeps the old keys and their positions.
pub proof fn lemma_push_new_key<V>(e: Seq<(String, V)>, x: (String, V))
    requires
        keys_unique(e),
        !has_key(e, x.0@),
    ensures
        keys_unique(e.push(x)),
        forall|k: Seq<char>| #[trigger] has_key(e.push(x), k) == (has_key(e, k) || k == x.0@),
        forall|k: Seq<char>| has_key(e, k) ==> #[trigger] key_pos(e.push(x), k) == key_pos(e, k),
        has_key(e.push(x), x.0@),
        key_pos(e.push(x), x.0@) == e.len(),
{
    let f = e.push(x);
    assert forall|a: int, b: int| 0 <= a < b < f.len() implies #[trigger] f[a].0@ != #[trigger] f[b].0@ by {
        if b == e.len() {
            if f[a].0@ == x.0@ {
                assert(e[a].0@ == x.0@);
            }
        } else {
            assert(e[a].0@ != e[b].0@);
        }
    }
    assert forall|k: Seq<char>| #[trigger] has_key(f, k) == (has_key(e, k) || k == x.0@) by {
        if has_key(e, k) {
            let p = choose|p: int| 0 <= p < e.len() && #[trigger] e[p].0@ == k;
            assert(f[p].0@ == k);
        }
        if k == x.0@ {
            assert(f[e.len() as int].0@ == k);
        }
        if has_key(f, k) {
            let p = choose|p: int| 0 <= p < f.len() && #[trigger] f[p].0@ == k;
            if p < e.len() {
                assert(e[p].0@ == k);
            }
        }
    }
    assert forall|k: Seq<char>| has_key(e, k) implies #[trigger] key_pos(f, k) == key_pos(e, k) by {
        let p = key_pos(e, k);
        lemma_key_pos_unique(e, p);
        assert(f[p].0@ == k);
        lemma_key_pos_unique(f, p);
    }
    lemma_key_pos_unique(f, e.len() as int);
}

/// The position of the entry for `key`, if there is one.
pub fn find_turn<V>(entries: &Vec<(String, V)>, key: &str) -> (r: Option<usize>)
    requires
        keys_unique(entries@),
    ensures
        match r {
            Some(i) => i < entries@.len() && entries@[i as int].0@ == key@ && has_key(entries@, key@)
                && key_pos(entries@, key@) == i,
            None => !has_key(entries@, key@),
        },
{
    let mut i: usize = 0;
    while i < entries.len()
        invariant
            i <= entries.len(),
            keys_unique(entries@),
            forall|j: int| 0 <= j < i ==> #[trigger] entries@[j].0@ != key@,
        decreases entries.len() - i,
    {
        if str_eq(entries[i].0.as_str(), key) {
            proof {
                lemma_key_pos_unique(entries@, i as int);
            }
            return Some(i);
        }
        i += 1;
    }
    None
}

/// The compaction events recorded for turn `k`.
pub open spec fn events_at(e: Seq<(String, Vec<ContextCompactionEvent>)>, k: Seq<char>) -> Seq<ContextCompactionEvent> {
    if has_key(e, k) {
        e[key_pos(e, k)].1@
    } else {
        Seq::empty()
    }
}

/// The updates recorded for turn `k`.
pub open spec fn updates_at(e: Seq<(String, Vec<TokenUsageUpdate>)>, k: Seq<char>) -> Seq<TokenUsageUpdate> {
    if has_key(e, k) {
        e[key_pos(e, k)].1@
    } else {
        Seq::empty()
    }
}

/// The usage summed for turn `k`, zero when none was recorded.
pub open spec fn usage_at(e: Seq<(String, TokenUsage)>, k: Seq<char>) -> TokenUsage {
    if has_key(e, k) {
        e[key_pos(e, k)].1
    } else {
        zero_usage()
    }
}

/// Every list in the ledger is short enough to number one more entry in `u64`.
pub open spec fn lists_countable<T>(e: Seq<(String, Vec<T>)>) -> bool {
    forall|i: int| 0 <= i < e.len() ==> #[trigger] e[i].1@.len() < u64::MAX
}

/// Appends `event` to its turn's events, numbering it after the ones already there.
pub fn record_context_compaction_event(
    context_compaction_events_by_turn: &mut Vec<(String, Vec<ContextCompactionEvent>)>,
    event: ContextCompactionEvent,
)
    requires
        keys_unique(old(context_compaction_events_by_turn)@),
        lists_countable(old(context_compaction_events_by_turn)@),
    ensures
        keys_unique(final(context_compaction_events_by_turn)@),
        forall|k: Seq<char>| #[trigger]
            has_key(final(context_compaction_events_by_turn)@, k) == (has_key(
                old(context_compaction_events_by_turn)@,
                k,
            ) || k == event.turn_id@),
        forall|k: Seq<char>|
            k != event.turn_id@ ==> #[trigger] events_at(final(context_compaction_events_by_turn)@, k)
                == events_at(old(context_compaction_events_by_turn)@, k),
        events_at(final(context_compaction_events_by_turn)@, event.turn_id@) == events_at(
            old(context_compaction_events_by_turn)@,
            event.turn_id@,
        ).push(
            ContextCompactionEvent {
                sequence: (events_at(old(context_compaction_events_by_turn)@, event.turn_id@).len()
                    + 1) as u64,
                ..event
            },
        ),
{
    let ghost before = context_compaction_events_by_turn@;
    let ghost turn = event.turn_id@;
    match find_turn(context_compaction_events_by_turn, event.turn_id.as_str()) {
        Some(i) => {
            let (key, mut events) = context_compaction_events_by_turn.remove(i);
            assert(before[i as int].1@.len() < u64::MAX);
            let mut event = event;
            event.sequence = events.len() as u64 + 1;
            events.push(event);
            context_compaction_events_by_turn.insert(i, (key, events));
            proof {
                let x = context_compaction_events_by_turn@[i as int];
                assert(context_compaction_events_by_turn@ =~= before.update(i as int, x));
                lemma_replace_value(before, i as int, x);
            }
        },
        None => {
            let key = event.turn_id.clone();
            let mut event = event;
            event.sequence = 1;
            let mut events: Vec<ContextCompactionEvent> = Vec::new();
            events.push(event);
            context_compaction_events_by_turn.push((key, events));
            proof {
                let x = context_compaction_events_by_turn@.last();
                assert(context_compaction_events_by_turn@ =~= before.push(x));
                lemma_push_new_key(before, x);
            }
        },
    }
}

/// Records a token-usage update: it joins its turn's updates, numbered after them,
/// and its last usage is added to the turn's total.
pub fn record_token_usage_update(
    token_usage_by_turn: &mut Vec<(String, TokenUsage)>,
    token_usage_updates_by_turn: &mut Vec<(String, Vec<TokenUsageUpdate>)>,
    update: TokenUsageUpdate,
)
    requires
        keys_unique(old(token_usage_by_turn)@),
        keys_unique(old(token_usage_updates_by_turn)@),
        lists_countable(old(token_usage_updates_by_turn)@),
        usage_sum_fits(usage_at(old(token_usage_by_turn)@, update.turn_id@), update.last_usage),
    ensures
        keys_unique(final(token_usage_by_turn)@),
        keys_unique(final(token_usage_updates_by_turn)@),
        forall|k: Seq<char>|
            k != update.turn_id@ ==> #[trigger] usage_at(final(token_usage_by_turn)@, k) == usage_at(
                old(token_usage_by_turn)@,
                k,
            ),
        usage_at(final(token_usage_by_turn)@, update.turn_id@) == usage_sum(
            usage_at(old(token_usage_by_turn)@, update.turn_id@),
            update.last_usage,
        ),
        forall|k: Seq<char>|
            k != update.turn_id@ ==> #[trigger] updates_at(final(token_usage_updates_by_turn)@, k)
                == updates_at(old(token_usage_updates_by_turn)@, k),
        updates_at(final(token_usage_updates_by_turn)@, update.turn_id@) == updates_at(
            old(token_usage_updates_by_turn)@,
            update.turn_id@,
        ).push(
            TokenUsageUpdate {
                sequence: (updates_at(old(token_usage_updates_by_turn)@, update.turn_id@).len()
                    + 1) as u64,
                ..update
            },
        ),
{
    let ghost usage_before = token_usage_by_turn@;
    let ghost updates_before = token_usage_updates_by_turn@;
    let usage = update.last_usage;
    let turn_id = update.turn_id.clone();
    match find_turn(token_usage_updates_by_turn, turn_id.as_str()) {
        Some(i) => {
            let (key, mut updates) = token_usage_updates_by_turn.remove(i);
            assert(updates_before[i as int].1@.len() < u64::MAX);
            let mut update = update;
            update.sequence = updates.len() as u64 + 1;
            updates.push(update);
            token_usage_updates_by_turn.insert(i, (key, updates));
            proof {
                let x = token_usage_updates_by_turn@[i as int];
                assert(token_usage_updates_by_turn@ =~= updates_before.update(i as int, x));
                lemma_replace_value(updates_before, i as int, x);
            }
        },
        None => {
            let key = turn_id.clone();
            let mut update = update;
            update.sequence = 1;
            let mut updates: Vec<TokenUsageUpdate> = Vec::new();
            updates.push(update);
            token_usage_updates_by_turn.push((key, updates));
            proof {
                let x = token_usage_updates_by_turn@.last();
                assert(token_usage_updates_by_turn@ =~= updates_before.push(x));
                lemma_push_new_key(updates_before, x);
            }
        },
    }
    match find_turn(token_usage_by_turn, turn_id.as_str()) {
        Some(i) => {
            let (key, current) = token_usage_by_turn.remove(i);
            token_usage_by_turn.insert(i, (key, current.add(usage)));
            proof {
                let x = token_usage_by_turn@[i as int];
                assert(token_usage_by_turn@ =~= usage_before.update(i as int, x));
                lemma_replace_value(usage_before, i as int, x);
            }
        },
        None => {
            let zero = TokenUsage::zero();
            token_usage_by_turn.push((turn_id, zero.add(usage)));
            proof {
                let x = token_usage_by_turn@.last();
                assert(token_usage_by_turn@ =~= usage_before.push(x));
                lemma_push_new_key(usage_before, x);
            }
        },
    }
}

} // verus!
