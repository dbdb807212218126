//! Reuse of answer history: the newest record whose scope still hashes the same,
//! and the scope that seeds a fresh interrogation.

use vstd::prelude::*;
use crate::answer::{answer_state, clone_strings, CheckRecord, ObservedAnswerState, SelectedExpectation};
use crate::run::same_record;
use crate::hash::full_scope;
use crate::scope::{is_full_scope, scope_is_full, scope_views};

verus! {

/// The record answers `expected` (it is neither a non-answer nor malformed).
pub open spec fn reusable_for(record: CheckRecord, expected: Seq<char>) -> bool {
    answer_state(expected, record.observed@) == ObservedAnswerState::Answer
}

pub fn is_reusable_for_expected(record: &CheckRecord, expected: &str) -> (r: bool)
    ensures
        r == reusable_for(*record, expected@),
{
    ObservedAnswerState::from_expected_and_observed(expected, record.observed.as_str()).is_reusable_history()
}

/// The record as it describes the current expectation: its id, display id, number,
/// question and expected answer are the expectation's.
pub open spec fn with_current_expectation(record: CheckRecord, e: SelectedExpectation) -> CheckRecord {
    CheckRecord {
        id: e.id,
        display_id: e.display_id,
        number: e.number,
        prompt: Some(e.q),
        expected: Some(e.a),
        ..record
    }
}

pub fn record_with_current_expectation(record: CheckRecord, expectation: &SelectedExpectation) -> (r: CheckRecord)
    ensures
        r == with_current_expectation(record, *expectation),
{
    let mut record = record;
    record.id = expectation.id.clone();
    record.display_id = expectation.display_id.clone();
    record.number = expectation.number;
    record.prompt = Some(expectation.q.clone());
    record.expected = Some(expectation.a.clone());
    record
}

/// The newest of the first `n` records whose current scope hash (`hashes`, `None`
/// where it cannot be computed) equals the hash it was recorded with.
pub open spec fn newest_matching(records: Seq<CheckRecord>, hashes: Seq<Option<String>>, n: int) -> Option<int>
    decreases n,
{
    if n <= 0 {
        None
    } else if hashes[n - 1] matches Some(h) && h@ == records[n - 1].scope_hash@ {
        Some(n - 1)
    } else {
        newest_matching(records, hashes, n - 1)
    }
}

pub proof fn lemma_newest_matching(records: Seq<CheckRecord>, hashes: Seq<Option<String>>, n: int)
    ensures
        newest_matching(records, hashes, n) matches Some(k) ==> 0 <= k < n,
    decreases n,
{
    if n > 0 {
        lemma_newest_matching(records, hashes, n - 1);
    }
}

/// The reusable answer for `expectation`: the newest record whose scope still has
/// the hash it was recorded with, provided it answers the expected answer, shown
/// as the current expectation.
pub fn latest_history_record_matching_hash(
    records: &Vec<CheckRecord>,
    current_hashes: &Vec<Option<String>>,
    expectation: &SelectedExpectation,
) -> (r: Option<CheckRecord>)
    requires
        current_hashes@.len() == records@.len(),
    ensures
        match newest_matching(records@, current_hashes@, records@.len() as int) {
            None => r is None,
            Some(k) => if reusable_for(records@[k], expectation.a@) {
                r matches Some(x) && same_record(x, with_current_expectation(records@[k], *expectation))
            } else {
                r is None
            },
        },
{
    let mut i = records.len();
    while i > 0
        invariant
            i <= records@.len(),
            current_hashes@.len() == records@.len(),
            newest_matching(records@, current_hashes@, records@.len() as int) == newest_matching(
                records@,
                current_hashes@,
                i as int,
            ),
        decreases i,
    {
        let k = i - 1;
        let matched = match &current_hashes[k] {
            Some(h) => crate::text::str_eq(h.as_str(), records[k].scope_hash.as_str()),
            None => false,
        };
        if matched {
            if !is_reusable_for_expected(&records[k], expectation.a.as_str()) {
                return None;
            }
            let r = record_with_current_expectation(records[k].duplicate(), expectation);
            return Some(r);
        }
        i = k;
    }
    None
}

/// The newest of the first `n` records that answers `expected`.
pub open spec fn newest_reusable(records: Seq<CheckRecord>, expected: Seq<char>, n: int) -> Option<int>
    decreases n,
{
    if n <= 0 {
        None
    } else if reusable_for(records[n - 1], expected) {
        Some(n - 1)
    } else {
        newest_reusable(records, expected, n - 1)
    }
}

/// The scope that seeds a fresh interrogation: that of the newest record answering
/// the expected answer, whether or not it still matches the staged tree.
pub fn latest_history_scope(records: &Vec<CheckRecord>, expected: &str) -> (r: Option<Vec<String>>)
    ensures
        match newest_reusable(records@, expected@, records@.len() as int) {
            None => r is None,
            Some(k) => r matches Some(s) && s@ == records@[k].scope@,
        },
{
    let mut i = records.len();
    while i > 0
        invariant
            i <= records@.len(),
            newest_reusable(records@, expected@, records@.len() as int) == newest_reusable(
                records@,
                expected@,
                i as int,
            ),
        decreases i,
    {
        let k = i - 1;
        if is_reusable_for_expected(&records[k], expected) {
            return Some(clone_strings(&records[k].scope));
        }
        i = k;
    }
    None
}

/// The valid lines among the first `n`, in order.
pub open spec fn valid_lines(lines: Seq<String>, valid: Seq<bool>, n: int) -> Seq<Seq<char>>
    decreases n,
{
    if n <= 0 {
        Seq::empty()
    } else if valid[n - 1] {
        valid_lines(lines, valid, n - 1).push(lines[n - 1]@)
    } else {
        valid_lines(lines, valid, n - 1)
    }
}

/// Compacting a history keeps its last `keep` valid lines; a history with no more
/// valid lines than that and no invalid one is left as it is (`None`).
pub open spec fn compacted_spec(lines: Seq<String>, valid: Seq<bool>, keep: nat) -> Option<Seq<Seq<char>>> {
    let v = valid_lines(lines, valid, lines.len() as int);
    if v.len() <= keep && (forall|k: int| 0 <= k < valid.len() ==> valid[k]) {
        None
    } else if v.len() > keep {
        Some(v.subrange(v.len() - keep, v.len() as int))
    } else {
        Some(v)
    }
}

/// The lines of a compacted history (`valid` tells which lines parse as records).
pub fn compacted_history_lines(lines: &Vec<String>, valid: &Vec<bool>, keep: usize) -> (r: Option<Vec<String>>)
    requires
        valid@.len() == lines@.len(),
    ensures
        match compacted_spec(lines@, valid@, keep as nat) {
            None => r is None,
            Some(v) => r matches Some(x) && x@.map_values(|s: String| s@) == v,
        },
{
    let mut kept: Vec<String> = Vec::new();
    let mut all_valid = true;
    let mut i: usize = 0;
    while i < lines.len()
        invariant
            i <= lines@.len(),
            valid@.len() == lines@.len(),
            kept@.map_values(|s: String| s@) == valid_lines(lines@, valid@, i as int),
            all_valid == (forall|k: int| 0 <= k < i ==> valid@[k]),
        decreases lines.len() - i,
    {
        if valid[i] {
            let ghost before = kept@.map_values(|s: String| s@);
            kept.push(lines[i].clone());
            assert(kept@.map_values(|s: String| s@) =~= before.push(lines@[i as int]@));
        } else {
            all_valid = false;
        }
        i += 1;
    }
    let ghost v = valid_lines(lines@, valid@, lines@.len() as int);
    if kept.len() <= keep && all_valid {
        return None;
    }
    if kept.len() <= keep {
        return Some(kept);
    }
    let start = kept.len() - keep;
    let mut out: Vec<String> = Vec::new();
    let mut j = start;
    while j < kept.len()
        invariant
            start <= j <= kept@.len(),
            start == kept@.len() - keep,
            kept@.map_values(|s: String| s@) == v,
            out@.map_values(|s: String| s@) == v.subrange(start as int, j as int),
        decreases kept.len() - j,
    {
        let ghost before = out@.map_values(|s: String| s@);
        out.push(kept[j].clone());
        assert(out@.map_values(|s: String| s@) =~= before.push(v[j as int]));
        assert(v.subrange(start as int, j + 1) =~= v.subrange(start as int, j as int).push(v[j as int]));
        j += 1;
    }
    Some(out)
}

/// `b` is `a` with only its scope changed.
pub open spec fn same_but_scope(a: CheckRecord, b: CheckRecord) -> bool {
    &&& b.timestamp == a.timestamp
    &&& b.number == a.number
    &&& b.result == a.result
    &&& b.prompt == a.prompt
    &&& b.expected == a.expected
    &&& b.observed == a.observed
    &&& b.evidence == a.evidence
    &&& b.scope_hash == a.scope_hash
    &&& b.id == a.id
    &&& b.display_id == a.display_id
    &&& b.cache_key == a.cache_key
}

/// Resetting a history to a whole-repository seed: the newest record answering
/// `expected` gets the scope `["."]`, its recorded scope hash kept, so that a later
/// exact-cache lookup cannot mistake the narrowed answer for a whole-repository one.
/// Nothing changes (`false`) when no record answers `expected` or the newest one
/// already has that scope.
pub fn reset_records_to_full_scope_seed(records: &mut Vec<CheckRecord>, expected: &str) -> (changed: bool)
    ensures
        match newest_reusable(old(records)@, expected@, old(records)@.len() as int) {
            None => !changed && final(records)@ == old(records)@,
            Some(k) => if is_full_scope(scope_views(old(records)@[k].scope@)) {
                !changed && final(records)@ == old(records)@
            } else {
                &&& changed
                &&& final(records)@.len() == old(records)@.len()
                &&& is_full_scope(scope_views(final(records)@[k].scope@))
                &&& same_but_scope(old(records)@[k], final(records)@[k])
                &&& forall|j: int| 0 <= j < old(records)@.len() && j != k ==> final(records)@[j] == old(records)@[j]
            },
        },
{
    let mut i = records.len();
    while i > 0
        invariant
            records@ == old(records)@,
            i <= records@.len(),
            newest_reusable(records@, expected@, records@.len() as int) == newest_reusable(
                records@,
                expected@,
                i as int,
            ),
        decreases i,
    {
        let k = i - 1;
        if is_reusable_for_expected(&records[k], expected) {
            assert(newest_reusable(records@, expected@, records@.len() as int) == Some(k as int));
            if scope_is_full(&records[k].scope) {
                return false;
            }
            let mut rec = records[k].duplicate();
            rec.scope = full_scope();
            assert(scope_views(rec.scope@) =~= seq![seq!['.']]);
            records.set(k, rec);
            return true;
        }
        i = k;
    }
    false
}

/// The number of binary digits of `n` (0 for 0).
pub open spec fn bit_length(n: nat) -> nat
    decreases n,
{
    if n == 0 {
        0
    } else {
        1 + bit_length(n / 2)
    }
}

pub open spec fn pow2(k: nat) -> nat
    decreases k,
{
    if k == 0 {
        1
    } else {
        2 * pow2((k - 1) as nat)
    }
}

proof fn lemma_bit_length_bound(n: nat, k: nat)
    requires
        n < pow2(k),
    ensures
        bit_length(n) <= k,
    decreases k,
{
    if n > 0 && k > 0 {
        lemma_bit_length_bound(n / 2, (k - 1) as nat);
    }
}

/// The size bucket of a file: 0 below `min_size` (or when it is 0), else the number
/// of binary digits of `size / min_size`, so that each doubling is a new bucket.
pub open spec fn size_bucket_spec(size: u64, min_size: u64) -> nat {
    if min_size == 0 || size < min_size {
        0
    } else {
        bit_length((size / min_size) as nat)
    }
}

pub fn size_compaction_bucket(size: u64, min_size: u64) -> (r: u32)
    ensures
        r == size_bucket_spec(size, min_size),
{
    if min_size == 0 || size < min_size {
        return 0;
    }
    let mut units = size / min_size;
    proof {
        assert(pow2(64) == 0x1_0000_0000_0000_0000nat) by {
            reveal_with_fuel(pow2, 65);
        }
        lemma_bit_length_bound(units as nat, 64);
    }
    let ghost total = bit_length(units as nat);
    let mut count: u32 = 0;
    while units > 0
        invariant
            total <= 64,
            count + bit_length(units as nat) == total,
        decreases units,
    {
        units = units / 2;
        count = count + 1;
    }
    count
}

/// A file crossed into a larger size bucket since its previous size.
pub fn crossed_size_compaction_bucket(previous_size: u64, current_size: u64, min_size: u64) -> (r: bool)
    ensures
        r == (size_bucket_spec(current_size, min_size) > size_bucket_spec(previous_size, min_size)),
{
    size_compaction_bucket(current_size, min_size) > size_compaction_bucket(previous_size, min_size)
}

/// A history is compacted on one append in `denominator`, by the seed's draw.
pub fn should_compact_history_for_seed(seed: u64, denominator: u64) -> (r: bool)
    requires
        denominator > 0,
    ensures
        r == (seed % denominator == 0),
{
    seed % denominator == 0
}

} // verus!
