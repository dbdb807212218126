//! Lazy full-scope resets: after a run, some non-selected expectations whose next
//! interrogation would start from a narrowed scope are sent back to the whole
//! repository, as many as the run's token use calls for, chosen by a seeded
//! generator.

use vstd::prelude::*;
use crate::answer::SelectedExpectation;
use crate::scope::{is_full_scope, scope_is_full, scope_views};
use crate::text::is_ws;
use crate::catfile::utf8_text;
use vstd::utf8::{decode_utf8, valid_utf8};

verus! {

/// The increment of the generator's state.
pub const RESET_GOLDEN: u64 = 0x9e37_79b9_7f4a_7c15;

/// The output function of the generator (SplitMix64).
#[verifier::opaque]
pub open spec fn mix(z: u64) -> u64 {
    let a = (z ^ (z >> 30u64)).wrapping_mul(0xbf58_476d_1ce4_e5b9u64);
    let b = (a ^ (a >> 27u64)).wrapping_mul(0x94d0_49bb_1331_11ebu64);
    b ^ (b >> 31u64)
}

/// The state after one 128-bit draw (two 64-bit steps).
pub open spec fn step2(s: u64) -> u64 {
    s.wrapping_add(RESET_GOLDEN).wrapping_add(RESET_GOLDEN)
}

/// The 128-bit value drawn from state `s`: two outputs, the first in the high half.
#[verifier::opaque]
pub open spec fn draw(s: u64) -> u128 {
    ((mix(s.wrapping_add(RESET_GOLDEN)) as u128) << 64u128) | (mix(step2(s)) as u128)
}

/// The state after `k` 128-bit draws.
pub open spec fn after(s: u64, k: nat) -> u64
    decreases k,
{
    if k == 0 {
        s
    } else {
        step2(after(s, (k - 1) as nat))
    }
}

/// The number of 128-bit draws after which the generator's state repeats: each
/// draw adds twice an odd constant to a 64-bit state.
pub open spec fn draw_period() -> nat {
    0x8000_0000_0000_0000
}

/// The first draw at or after `k` that is at least `threshold`.
pub open spec fn accept_from(s: u64, threshold: u128, k: nat) -> Option<nat>
    decreases draw_period() - k,
{
    if k >= draw_period() {
        None
    } else if draw(after(s, k)) >= threshold {
        Some(k)
    } else {
        accept_from(s, threshold, k + 1)
    }
}

/// A value below `upper` drawn without bias by rejection, and the state after it.
/// Draws below `2^128 mod upper` are rejected. The states repeat after
/// `draw_period()` draws, so if none of those is accepted none ever is; the value
/// is then 0.
pub open spec fn bounded_spec(s: u64, upper: u128) -> (u128, u64) {
    if upper <= 1 {
        (0, s)
    } else {
        let threshold = ((0x1_0000_0000_0000_0000_0000_0000_0000_0000 - upper) % (upper as int)) as u128;
        match accept_from(s, threshold, 0) {
            Some(k) => (draw(after(s, k)) % upper, after(s, k + 1)),
            None => (0, after(s, draw_period())),
        }
    }
}

/// The seeded generator of lazy resets.
pub struct ResetRng {
    pub state: u64,
}

impl ResetRng {
    pub fn new(seed: u64) -> (r: ResetRng)
        ensures
            r.state == seed,
    {
        ResetRng { state: seed }
    }

    pub fn next_u64(&mut self) -> (r: u64)
        ensures
            final(self).state == old(self).state.wrapping_add(RESET_GOLDEN),
            r == mix(final(self).state),
    {
        proof {
            reveal(mix);
        }
        self.state = self.state.wrapping_add(RESET_GOLDEN);
        let mut value = self.state;
        value = (value ^ (value >> 30u64)).wrapping_mul(0xbf58_476d_1ce4_e5b9u64);
        value = (value ^ (value >> 27u64)).wrapping_mul(0x94d0_49bb_1331_11ebu64);
        value ^ (value >> 31u64)
    }

    pub fn next_u128(&mut self) -> (r: u128)
        ensures
            final(self).state == step2(old(self).state),
            r == draw(old(self).state),
    {
        proof {
            reveal(draw);
        }
        let high = self.next_u64();
        let low = self.next_u64();
        ((high as u128) << 64u128) | (low as u128)
    }

    /// A value below `upper` (0 when `upper` is at most 1), drawn without bias.
    pub fn next_bounded_u128(&mut self, upper: u128) -> (r: u128)
        ensures
            (r, final(self).state) == bounded_spec(old(self).state, upper),
            upper > 1 ==> r < upper,
    {
        if upper <= 1 {
            return 0;
        }
        let threshold = (u128::MAX - upper + 1) % upper;
        let ghost s0 = self.state;
        let mut i: u64 = 0;
        assert(after(s0, 0) == s0);
        while i < 0x8000_0000_0000_0000u64
            invariant
                upper > 1,
                s0 == old(self).state,
                threshold == ((0x1_0000_0000_0000_0000_0000_0000_0000_0000 - upper) % (upper as int)) as u128,
                i <= draw_period(),
                self.state == after(s0, i as nat),
                accept_from(s0, threshold, 0) == accept_from(s0, threshold, i as nat),
            decreases 0x8000_0000_0000_0000u64 - i,
        {
            let value = self.next_u128();
            assert(self.state == after(s0, (i + 1) as nat));
            assert(value == draw(after(s0, i as nat)));
            if value >= threshold {
                assert(accept_from(s0, threshold, i as nat) == Some(i as nat));
                return value % upper;
            }
            i += 1;
        }
        0
    }

    pub fn next_bounded(&mut self, upper: u64) -> (r: u64)
        ensures
            (r as u128, final(self).state) == bounded_spec(old(self).state, upper as u128),
            upper > 1 ==> r < upper,
    {
        let v = self.next_bounded_u128(upper as u128);
        if upper <= 1 {
            return 0;
        }
        v as u64
    }
}

/// The UTF-8 length of a character (`char::len_utf8`).
pub open spec fn char_utf8_len(c: char) -> nat {
    let u = c as u32;
    if u < 0x80 {
        1
    } else if u < 0x800 {
        2
    } else if u < 0x10000 {
        3
    } else {
        4
    }
}

/// Whether a character is alphanumeric (`char::is_alphanumeric`).
pub uninterp spec fn alphanumeric(c: char) -> bool;

/// Calls `char::is_alphanumeric`, true for Unicode letters and numbers; the contract
/// names the result without stating the Unicode tables. Among ASCII characters the
/// letters and digits are exactly the alphabetic and numeric ones, so there the
/// result is stated.
#[verifier::external_body]
fn char_is_alphanumeric(c: char) -> (r: bool)
    ensures
        r == alphanumeric(c),
        (c as u32) < 128 ==> (r <==> crate::generator::is_ascii_alnum(c)),
{
    c.is_alphanumeric()
}

pub open spec fn sat_add(a: u64, b: u64) -> u64 {
    if a + b > u64::MAX {
        u64::MAX
    } else {
        (a + b) as u64
    }
}

/// The tokens of a word of `bytes` UTF-8 bytes: a quarter, rounded up.
pub open spec fn word_tokens_spec(bytes: u64) -> u64 {
    if bytes == 0 {
        0
    } else {
        (bytes / 4 + if bytes % 4 == 0 {
            0u64
        } else {
            1u64
        }) as u64
    }
}

pub fn estimate_word_tokens(bytes: u64) -> (r: u64)
    ensures
        r == word_tokens_spec(bytes),
{
    if bytes == 0 {
        0
    } else {
        bytes / 4 + if bytes % 4 == 0 {
            0
        } else {
            1
        }
    }
}

/// One character of the token estimate: letters, digits and `_` extend the current
/// word by their UTF-8 length; any other character ends the word, counting its
/// tokens, and counts one token itself unless it is whitespace.
pub open spec fn token_step(st: (u64, u64), c: char) -> (u64, u64) {
    if alphanumeric(c) || c == '_' {
        (st.0, sat_add(st.1, char_utf8_len(c) as u64))
    } else {
        let t = sat_add(st.0, word_tokens_spec(st.1));
        (if is_ws(c) {
            t
        } else {
            sat_add(t, 1)
        }, 0)
    }
}

pub open spec fn token_fold(s: Seq<char>) -> (u64, u64)
    decreases s.len(),
{
    if s.len() == 0 {
        (0, 0)
    } else {
        token_step(token_fold(s.drop_last()), s.last())
    }
}

/// A stable estimate of the tokens of a text, saturating at `u64::MAX`.
pub open spec fn text_tokens_spec(s: Seq<char>) -> u64 {
    sat_add(token_fold(s).0, word_tokens_spec(token_fold(s).1))
}

pub fn estimate_text_tokens(text: &str) -> (r: u64)
    ensures
        r == text_tokens_spec(text@),
        forall|k: int|
            0 <= k < text@.len() && (text@[k] as u32) < 128 ==> (alphanumeric(#[trigger] text@[k])
                <==> crate::generator::is_ascii_alnum(text@[k])),
{
    let v = crate::text::chars_of(text);
    let mut tokens: u64 = 0;
    let mut word_bytes: u64 = 0;
    let mut i: usize = 0;
    while i < v.len()
        invariant
            i <= v.len(),
            v@ == text@,
            (tokens, word_bytes) == token_fold(v@.take(i as int)),
            forall|k: int|
                0 <= k < i && (v@[k] as u32) < 128 ==> (alphanumeric(#[trigger] v@[k])
                    <==> crate::generator::is_ascii_alnum(v@[k])),
        decreases v.len() - i,
    {
        let ch = v[i];
        assert(v@.take(i + 1).drop_last() =~= v@.take(i as int));
        let alnum = char_is_alphanumeric(ch);
        if alnum || ch == '_' {
            let u = ch as u32;
            let len: u64 = if u < 0x80 {
                1
            } else if u < 0x800 {
                2
            } else if u < 0x10000 {
                3
            } else {
                4
            };
            word_bytes = word_bytes.saturating_add(len);
        } else {
            tokens = tokens.saturating_add(estimate_word_tokens(word_bytes));
            word_bytes = 0;
            if !crate::text::is_ws_char(ch) {
                tokens = tokens.saturating_add(1);
            }
        }
        i += 1;
    }
    assert(v@.take(v.len() as int) =~= v@);
    tokens.saturating_add(estimate_word_tokens(word_bytes))
}

/// How many expectations to reset: the run's total tokens over twenty times the
/// project size, its fractional part turned into one more with that probability
/// (a bounded draw below the denominator that falls under the remainder), and no
/// more than there are candidates. None when any of the three is zero.
pub open spec fn reset_count_spec(total: u64, project: u64, seed: u64, candidates: usize) -> usize {
    if total == 0 || project == 0 || candidates == 0 {
        0
    } else {
        let den = (20 * project) as u128;
        let num = total as u128;
        let base = (num / den) as usize;
        let extra = num % den != 0 && bounded_spec(seed, den).0 < num % den;
        if base >= candidates {
            candidates
        } else if extra && base + 1 <= candidates {
            (base + 1) as usize
        } else {
            base
        }
    }
}

/// The token estimate of a project from its staged blobs: the estimates of the
/// texts summed, saturating; a blob that is not UTF-8 text adds nothing.
pub open spec fn contents_tokens_spec(contents: Seq<Seq<u8>>) -> u64
    decreases contents.len(),
{
    if contents.len() == 0 {
        0
    } else {
        let prev = contents_tokens_spec(contents.drop_last());
        if valid_utf8(contents.last()) {
            sat_add(prev, text_tokens_spec(decode_utf8(contents.last())))
        } else {
            prev
        }
    }
}

pub open spec fn blob_views(v: Seq<Vec<u8>>) -> Seq<Seq<u8>> {
    Seq::new(v.len(), |i: int| v[i]@)
}

pub fn estimate_staged_project_size_tokens(contents: &Vec<Vec<u8>>) -> (r: u64)
    ensures
        r == contents_tokens_spec(blob_views(contents@)),
{
    let mut tokens: u64 = 0;
    let mut i: usize = 0;
    while i < contents.len()
        invariant
            i <= contents.len(),
            tokens == contents_tokens_spec(blob_views(contents@).take(i as int)),
        decreases contents.len() - i,
    {
        assert(blob_views(contents@).take(i + 1).drop_last() =~= blob_views(contents@).take(i as int));
        assert(blob_views(contents@).take(i + 1).last() == contents@[i as int]@);
        match utf8_text(&contents[i]) {
            Some(text) => {
                let t = estimate_text_tokens(text.as_str());
                tokens = tokens.saturating_add(t);
            },
            None => {},
        }
        i += 1;
    }
    assert(blob_views(contents@).take(contents.len() as int) =~= blob_views(contents@));
    tokens
}

pub fn lazy_full_scope_reset_count(
    total_tokens: u64,
    project_size_tokens: u64,
    seed: u64,
    candidate_count: usize,
) -> (r: usize)
    ensures
        r == reset_count_spec(total_tokens, project_size_tokens, seed, candidate_count),
        r <= candidate_count,
{
    if total_tokens == 0 || project_size_tokens == 0 || candidate_count == 0 {
        return 0;
    }
    let denominator: u128 = 20u128 * (project_size_tokens as u128);
    let numerator: u128 = total_tokens as u128;
    let count = (numerator / denominator) as usize;
    if count >= candidate_count {
        return candidate_count;
    }
    let remainder = numerator % denominator;
    if remainder != 0 {
        let mut rng = ResetRng::new(seed);
        if rng.next_bounded_u128(denominator) < remainder {
            return count + 1;
        }
    }
    count
}

/// `s` with the items at `i` and `j` exchanged.
pub open spec fn swapped<T>(s: Seq<T>, i: int, j: int) -> Seq<T> {
    s.update(i, s[j]).update(j, s[i])
}

/// The Fisher-Yates shuffle of `s[index..]` driven by the generator at `state`: each
/// position takes the item at a bounded draw among the positions not yet fixed.
pub open spec fn shuffle_from<T>(s: Seq<T>, state: u64, index: int) -> Seq<T>
    decreases s.len() - index,
{
    if index < 0 || index >= s.len() {
        s
    } else {
        let (v, next) = bounded_spec(state, (s.len() - index) as u128);
        shuffle_from(swapped(s, index, index + v as int), next, index + 1)
    }
}

/// The expectations to reset: the first `count` of the candidates after a seeded
/// shuffle (none when `count` is zero).
pub open spec fn sample_spec(s: Seq<SelectedExpectation>, count: usize, seed: u64) -> Seq<SelectedExpectation> {
    if count == 0 {
        Seq::empty()
    } else {
        let shuffled = shuffle_from(s, seed ^ RESET_GOLDEN, 0);
        if count < shuffled.len() {
            shuffled.take(count as int)
        } else {
            shuffled
        }
    }
}

proof fn lemma_swap_multiset<T>(s: Seq<T>, i: int, j: int)
    requires
        0 <= i < s.len(),
        0 <= j < s.len(),
    ensures
        swapped(s, i, j).to_multiset() =~= s.to_multiset(),
        swapped(s, i, j).len() == s.len(),
{
    broadcast use vstd::seq_lib::group_to_multiset_ensures;
    broadcast use vstd::multiset::group_multiset_axioms;
    let s1 = s.update(i, s[j]);
    vstd::seq_lib::to_multiset_update(s, i, s[j]);
    vstd::seq_lib::to_multiset_update(s1, j, s[i]);
    assert(s1[j] == s[j]);
    assert(s.to_multiset().contains(s[i]));
    assert(swapped(s, i, j).to_multiset() =~= s.to_multiset());
}

proof fn lemma_shuffle_multiset<T>(s: Seq<T>, state: u64, index: int)
    ensures
        shuffle_from(s, state, index).to_multiset() =~= s.to_multiset(),
        shuffle_from(s, state, index).len() == s.len(),
    decreases s.len() - index,
{
    if 0 <= index < s.len() {
        let (v, next) = bounded_spec(state, (s.len() - index) as u128);
        lemma_bounded_below(state, (s.len() - index) as u128);
        lemma_swap_multiset(s, index, index + v as int);
        lemma_shuffle_multiset(swapped(s, index, index + v as int), next, index + 1);
    }
}

proof fn lemma_bounded_below(s: u64, upper: u128)
    ensures
        upper > 1 ==> bounded_spec(s, upper).0 < upper,
        upper <= 1 ==> bounded_spec(s, upper).0 == 0,
{
}

/// A copy of each candidate, in order.
fn copy_candidates(v: &Vec<SelectedExpectation>) -> (r: Vec<SelectedExpectation>)
    ensures
        r@ == v@,
{
    crate::run::copy_selected(v)
}

pub fn sample_reset_expectations(non_selected: &Vec<SelectedExpectation>, count: usize, seed: u64) -> (r: Vec<SelectedExpectation>)
    ensures
        r@ == sample_spec(non_selected@, count, seed),
{
    if count == 0 {
        return Vec::new();
    }
    let mut sampled = copy_candidates(non_selected);
    let mut rng = ResetRng::new(seed ^ RESET_GOLDEN);
    let n = sampled.len();
    let mut index: usize = 0;
    while index < n
        invariant
            index <= n == sampled@.len(),
            n == non_selected@.len(),
            shuffle_from(sampled@, rng.state, index as int) == shuffle_from(non_selected@, seed ^ RESET_GOLDEN, 0),
        decreases n - index,
    {
        let remaining = n - index;
        let ghost before = sampled@;
        let ghost st = rng.state;
        let v = rng.next_bounded(remaining as u64);
        proof {
            lemma_bounded_below(st, remaining as u128);
        }
        let j = index + v as usize;
        let a = sampled[index].duplicate();
        let b = sampled[j].duplicate();
        sampled.set(index, b);
        sampled.set(j, a);
        assert(sampled@ =~= swapped(before, index as int, j as int));
        index += 1;
    }
    sampled.truncate(count);
    sampled
}

/// Each output of the sample is a distinct candidate: the sample is a sub-multiset of
/// the candidates, of the requested size when there are enough of them.
pub proof fn law_sample_is_sub_multiset(s: Seq<SelectedExpectation>, count: usize, seed: u64)
    ensures
        sample_spec(s, count, seed).len() == if count < s.len() {
            count as nat
        } else {
            s.len()
        },
        forall|x: SelectedExpectation|
            sample_spec(s, count, seed).to_multiset().count(x) <= #[trigger] s.to_multiset().count(x),
{
    broadcast use vstd::seq_lib::group_to_multiset_ensures;
    broadcast use vstd::multiset::group_multiset_axioms;
    if count > 0 {
        let shuffled = shuffle_from(s, seed ^ RESET_GOLDEN, 0);
        lemma_shuffle_multiset(s, seed ^ RESET_GOLDEN, 0);
        if count < shuffled.len() {
            let head = shuffled.take(count as int);
            let tail = shuffled.skip(count as int);
            assert(head + tail =~= shuffled);
            vstd::seq_lib::lemma_multiset_commutative(head, tail);
        }
    } else {
        assert(Seq::<SelectedExpectation>::empty().to_multiset() =~= vstd::multiset::Multiset::empty());
    }
}

/// A non-selected expectation with the scope its next interrogation would start
/// from.
pub struct ScopedNonSelectedExpectation {
    pub expectation: SelectedExpectation,
    pub scope: Vec<String>,
}

/// The expectations whose next scope is narrower than the whole repository, in order.
pub open spec fn candidates_spec(v: Seq<ScopedNonSelectedExpectation>) -> Seq<SelectedExpectation>
    decreases v.len(),
{
    if v.len() == 0 {
        Seq::empty()
    } else if is_full_scope(scope_views(v.last().scope@)) {
        candidates_spec(v.drop_last())
    } else {
        candidates_spec(v.drop_last()).push(v.last().expectation)
    }
}

pub fn lazy_full_scope_reset_candidates(non_selected: &Vec<ScopedNonSelectedExpectation>) -> (r: Vec<SelectedExpectation>)
    ensures
        r@ == candidates_spec(non_selected@),
{
    let mut r: Vec<SelectedExpectation> = Vec::new();
    let mut i: usize = 0;
    while i < non_selected.len()
        invariant
            i <= non_selected.len(),
            r@ == candidates_spec(non_selected@.take(i as int)),
        decreases non_selected.len() - i,
    {
        assert(non_selected@.take(i + 1).drop_last() =~= non_selected@.take(i as int));
        if !scope_is_full(&non_selected[i].scope) {
            r.push(non_selected[i].expectation.duplicate());
        }
        i += 1;
    }
    assert(non_selected@.take(non_selected.len() as int) =~= non_selected@);
    r
}

/// A lazy reset: the project size it was planned for and the expectations chosen.
pub struct LazyFullScopeResetPlan {
    pub project_size_tokens: u64,
    pub expectations: Vec<SelectedExpectation>,
}

/// Plans a reset from the run's token use, the project's size and the non-selected
/// expectations with their next scopes.
pub fn plan_lazy_full_scope_reset(
    total_tokens: u64,
    project_size_tokens: u64,
    scoped_non_selected: &Vec<ScopedNonSelectedExpectation>,
    seed: u64,
) -> (r: LazyFullScopeResetPlan)
    ensures
        r.project_size_tokens == project_size_tokens,
        r.expectations@ == sample_spec(
            candidates_spec(scoped_non_selected@),
            reset_count_spec(
                total_tokens,
                project_size_tokens,
                seed,
                candidates_spec(scoped_non_selected@).len() as usize,
            ),
            seed,
        ),
{
    let candidates = lazy_full_scope_reset_candidates(scoped_non_selected);
    let reset_count = lazy_full_scope_reset_count(total_tokens, project_size_tokens, seed, candidates.len());
    LazyFullScopeResetPlan {
        project_size_tokens,
        expectations: sample_reset_expectations(&candidates, reset_count, seed),
    }
}

} // verus!
