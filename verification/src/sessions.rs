//! Evaluator models and the per-run interrogation state: reusable threads by scope,
//! their instructions, and the models found unavailable.

use vstd::prelude::*;
use crate::answer::SelectedExpectation;
use crate::config::AgentConfig;
use crate::protocol::{session_failure_invalidates_thread, EvaluatorError};
use crate::scope::scope_views;
use crate::text::{all_digits, decimal, digits_value, is_ascii_digit, push_decimal, str_eq};
use crate::output::utf8_len;
use crate::turns::keys_unique;

verus! {

/// The key under which a model is tracked: its name, or `<default>`.
pub open spec fn model_key_spec(model: Option<Seq<char>>) -> Seq<char> {
    match model {
        Some(m) => m,
        None => "<default>"@,
    }
}

pub open spec fn opt_str_view(model: Option<&str>) -> Option<Seq<char>> {
    match model {
        Some(m) => Some(m@),
        None => None,
    }
}

pub open spec fn opt_string_view(model: Option<String>) -> Option<Seq<char>> {
    match model {
        Some(m) => Some(m@),
        None => None,
    }
}

pub fn app_server_model_key(model: Option<&str>) -> (r: String)
    ensures
        r@ == model_key_spec(opt_str_view(model)),
{
    match model {
        Some(m) => String::from_str(m),
        None => String::from_str("<default>"),
    }
}

/// A model's name for logs, `<default>` for none.
pub fn model_label(model: Option<&str>) -> (r: &str)
    ensures
        r@ == model_key_spec(opt_str_view(model)),
{
    match model {
        Some(m) => m,
        None => "<default>",
    }
}

/// The models to try, in order: the primary (or the default model), then each
/// fallback.
pub open spec fn models_spec(agent: AgentConfig) -> Seq<Option<Seq<char>>> {
    seq![opt_string_view(agent.model.primary)] + Seq::new(
        agent.model.fallbacks@.len(),
        |i: int| Some(agent.model.fallbacks@[i]@),
    )
}

pub open spec fn models_view(v: Seq<Option<String>>) -> Seq<Option<Seq<char>>> {
    Seq::new(v.len(), |i: int| opt_string_view(v[i]))
}

pub fn evaluator_models(agent: &AgentConfig) -> (r: Vec<Option<String>>)
    ensures
        models_view(r@) == models_spec(*agent),
{
    let mut models: Vec<Option<String>> = Vec::new();
    models.push(agent.model.primary.clone());
    let mut i: usize = 0;
    while i < agent.model.fallbacks.len()
        invariant
            i <= agent.model.fallbacks.len(),
            models@.len() == i + 1,
            models_view(models@) == models_spec(*agent).take(i + 1),
        decreases agent.model.fallbacks.len() - i,
    {
        models.push(Some(agent.model.fallbacks[i].clone()));
        i += 1;
        assert(models_view(models@) =~= models_spec(*agent).take(i + 1));
    }
    assert(models_spec(*agent).take(i + 1) =~= models_spec(*agent));
    models
}

/// The thinking level of an expectation: its own, else the agent's.
pub fn effective_thinking<'a>(agent: &'a AgentConfig, expectation: &'a SelectedExpectation) -> (r: &'a str)
    ensures
        r@ == match expectation.thinking {
            Some(t) => t@,
            None => agent.thinking@,
        },
{
    match &expectation.thinking {
        Some(t) => t.as_str(),
        None => agent.thinking.as_str(),
    }
}

/// The decimal byte length of each path, a NUL, the path and a NUL, for every path
/// of the scope.
pub open spec fn session_key_spec(scope: Seq<Seq<char>>) -> Seq<char>
    decreases scope.len(),
{
    if scope.len() == 0 {
        Seq::empty()
    } else {
        session_key_spec(scope.drop_last()) + decimal(crate::output::utf8_len(scope.last()))
            + seq!['\0'] + scope.last() + seq!['\0']
    }
}

/// The part of a session key that one path contributes.
pub open spec fn session_entry(p: Seq<char>) -> Seq<char> {
    decimal(utf8_len(p)) + seq!['\0'] + p + seq!['\0']
}

pub(crate) proof fn lemma_decimal_digits(n: nat)
    ensures
        all_digits(decimal(n)),
        digits_value(decimal(n)) == n,
        decimal(n).len() >= 1,
    decreases n,
{
    let r = n % 10;
    assert((crate::text::digit_char(r) as u32) == r + 48);
    if n >= 10 {
        lemma_decimal_digits(n / 10);
        let d = decimal(n / 10);
        let e = d.push(crate::text::digit_char(n % 10));
        assert(e.drop_last() =~= d);
        assert(e.last() == crate::text::digit_char(r));
        assert(decimal(n) == e);
        assert(digits_value(e) == digits_value(d) * 10 + r);
        assert((n / 10) * 10 + r == n);
        assert forall|i: int| 0 <= i < e.len() implies #[trigger] is_ascii_digit(e[i]) by {
            if i < d.len() {
                assert(e[i] == d[i]);
            }
        }
    } else {
        assert(decimal(n).drop_last() =~= Seq::<char>::empty());
        assert(decimal(n).last() == crate::text::digit_char(r));
        assert(digits_value(decimal(n).drop_last()) == 0);
        assert(r == n);
    }
}

proof fn lemma_utf8_len_concat(a: Seq<char>, b: Seq<char>)
    ensures
        utf8_len(a + b) == utf8_len(a) + utf8_len(b),
    decreases a.len(),
{
    if a.len() == 0 {
        assert(a + b =~= b);
    } else {
        lemma_utf8_len_concat(a.drop_first(), b);
        assert((a + b).drop_first() =~= a.drop_first() + b);
        assert((a + b)[0] == a[0]);
    }
}

proof fn lemma_utf8_len_at_least_len(a: Seq<char>)
    ensures
        utf8_len(a) >= a.len(),
    decreases a.len(),
{
    if a.len() > 0 {
        lemma_utf8_len_at_least_len(a.drop_first());
    }
}

/// Two entries followed by anything are equal only for the same path and the same rest.
proof fn lemma_entry_prefix_unique(p: Seq<char>, q: Seq<char>, x: Seq<char>, y: Seq<char>)
    requires
        session_entry(p) + x == session_entry(q) + y,
    ensures
        p == q,
        x == y,
{
    let s = session_entry(p) + x;
    let dp = decimal(utf8_len(p));
    let dq = decimal(utf8_len(q));
    lemma_decimal_digits(utf8_len(p));
    lemma_decimal_digits(utf8_len(q));
    assert forall|i: int| 0 <= i < dp.len() implies s[i] == dp[i] && #[trigger] is_ascii_digit(s[i]) by {}
    assert(s[dp.len() as int] == '\0');
    let s2 = session_entry(q) + y;
    assert forall|i: int| 0 <= i < dq.len() implies s2[i] == dq[i] && #[trigger] is_ascii_digit(s2[i]) by {}
    assert(s2[dq.len() as int] == '\0');
    if dp.len() < dq.len() {
        assert(is_ascii_digit(s2[dp.len() as int]));
        assert(false);
    }
    if dq.len() < dp.len() {
        assert(is_ascii_digit(s[dq.len() as int]));
        assert(false);
    }
    assert(dp =~= s.take(dp.len() as int));
    assert(dq =~= s2.take(dq.len() as int));
    assert(utf8_len(p) == utf8_len(q));
    let k: int = dp.len() as int + 1;
    let t = s.skip(k);
    assert(t =~= p + seq!['\0'] + x);
    assert(t =~= q + seq!['\0'] + y);
    if p.len() < q.len() {
        let r = q.skip(p.len() as int);
        assert(q.take(p.len() as int) =~= p) by {
            assert forall|i: int| 0 <= i < p.len() implies q[i] == p[i] by {
                assert(t[i] == p[i]);
                assert(t[i] == q[i]);
            }
        }
        assert(q =~= p + r);
        lemma_utf8_len_concat(p, r);
        lemma_utf8_len_at_least_len(r);
        assert(false);
    }
    if q.len() < p.len() {
        let r = p.skip(q.len() as int);
        assert(p.take(q.len() as int) =~= q) by {
            assert forall|i: int| 0 <= i < q.len() implies q[i] == p[i] by {
                assert(t[i] == p[i]);
                assert(t[i] == q[i]);
            }
        }
        assert(p =~= q + r);
        lemma_utf8_len_concat(q, r);
        lemma_utf8_len_at_least_len(r);
        assert(false);
    }
    assert(p =~= q) by {
        assert forall|i: int| 0 <= i < p.len() implies q[i] == p[i] by {
            assert(t[i] == p[i]);
            assert(t[i] == q[i]);
        }
    }
    let n = session_entry(p).len();
    assert(x =~= s.skip(n as int));
    assert(y =~= s2.skip(n as int));
}

/// The key of a concatenation of scopes is the concatenation of their keys.
pub proof fn law_session_key_concatenates(a: Seq<Seq<char>>, b: Seq<Seq<char>>)
    ensures
        session_key_spec(a + b) == session_key_spec(a) + session_key_spec(b),
    decreases b.len(),
{
    if b.len() == 0 {
        assert(a + b =~= a);
        assert(session_key_spec(a) + session_key_spec(b) =~= session_key_spec(a));
    } else {
        law_session_key_concatenates(a, b.drop_last());
        assert((a + b).drop_last() =~= a + b.drop_last());
        assert((a + b).last() == b.last());
        let l = b.last();
        assert(session_key_spec(a + b) =~= session_key_spec(a) + session_key_spec(b.drop_last())
            + decimal(utf8_len(l)) + seq!['\0'] + l + seq!['\0']);
        assert(session_key_spec(b) =~= session_key_spec(b.drop_last()) + decimal(utf8_len(l)) + seq!['\0'] + l
            + seq!['\0']);
    }
}

proof fn lemma_session_key_front(a: Seq<Seq<char>>)
    requires
        a.len() > 0,
    ensures
        session_key_spec(a) == session_entry(a[0]) + session_key_spec(a.drop_first()),
{
    let one = seq![a[0]];
    assert(one + a.drop_first() =~= a);
    law_session_key_concatenates(one, a.drop_first());
    assert(one.drop_last() =~= Seq::<Seq<char>>::empty());
    assert(session_key_spec(one.drop_last()) =~= Seq::<char>::empty());
    assert(one.last() == a[0]);
    assert(session_key_spec(one) =~= session_entry(a[0]));
}

/// Different scopes have different session keys, so a thread is reused only for the
/// very scope it was started with.
pub proof fn law_session_key_injective(a: Seq<Seq<char>>, b: Seq<Seq<char>>)
    requires
        session_key_spec(a) == session_key_spec(b),
    ensures
        a == b,
    decreases a.len() + b.len(),
{
    if a.len() == 0 && b.len() == 0 {
        assert(a =~= b);
    } else if a.len() == 0 {
        lemma_session_key_front(b);
        lemma_decimal_digits(utf8_len(b[0]));
        assert(session_key_spec(b).len() > 0);
    } else if b.len() == 0 {
        lemma_session_key_front(a);
        lemma_decimal_digits(utf8_len(a[0]));
        assert(session_key_spec(a).len() > 0);
    } else {
        lemma_session_key_front(a);
        lemma_session_key_front(b);
        lemma_entry_prefix_unique(a[0], b[0], session_key_spec(a.drop_first()), session_key_spec(b.drop_first()));
        law_session_key_injective(a.drop_first(), b.drop_first());
        assert(a =~= seq![a[0]] + a.drop_first());
        assert(b =~= seq![b[0]] + b.drop_first());
    }
}

pub fn evaluator_session_key(scope: &Vec<String>) -> (r: String)
    requires
        forall|i: int| 0 <= i < scope@.len() ==> crate::output::utf8_len(#[trigger] scope@[i]@) <= usize::MAX,
    ensures
        r@ == session_key_spec(scope_views(scope@)),
{
    let mut key = String::new();
    let mut i: usize = 0;
    while i < scope.len()
        invariant
            i <= scope.len(),
            key@ == session_key_spec(scope_views(scope@).take(i as int)),
            forall|j: int| 0 <= j < scope@.len() ==> crate::output::utf8_len(#[trigger] scope@[j]@) <= usize::MAX,
        decreases scope.len() - i,
    {
        let path = scope[i].as_str();
        assert(scope_views(scope@).take(i + 1).drop_last() =~= scope_views(scope@).take(i as int));
        assert(scope_views(scope@).take(i + 1).last() == path@);
        let n = path.len();
        assert(crate::output::utf8_len(scope@[i as int]@) <= usize::MAX);
        assert(n as nat == crate::output::utf8_len(path@));
        push_decimal(&mut key, n as u64);
        crate::text::push_char(&mut key, '\0');
        key.append(path);
        crate::text::push_char(&mut key, '\0');
        i += 1;
        assert(key@ =~= session_key_spec(scope_views(scope@).take(i as int)));
    }
    assert(scope_views(scope@).take(scope.len() as int) =~= scope_views(scope@));
    key
}

/// Threads by session key, their developer instructions, and unavailable models.
pub struct InterrogationState {
    pub sessions_by_scope: Vec<(String, String)>,
    pub session_instructions: Vec<(String, String)>,
    pub unavailable_models: Vec<String>,
}

impl InterrogationState {
    /// Each session key and each session occurs once.
    pub open spec fn wf(&self) -> bool {
        keys_unique(self.sessions_by_scope@) && keys_unique(self.session_instructions@)
    }

    /// The keys of the models found unavailable.
    pub open spec fn unavailable(&self) -> Set<Seq<char>> {
        Set::new(|k: Seq<char>| listed(self.unavailable_models@, k))
    }

    pub fn new() -> (r: InterrogationState)
        ensures
            r.wf(),
            r.sessions_by_scope@.len() == 0,
            r.session_instructions@.len() == 0,
            r.unavailable_models@.len() == 0,
            r.unavailable() == Set::<Seq<char>>::empty(),
    {
        let r = InterrogationState {
            sessions_by_scope: Vec::new(),
            session_instructions: Vec::new(),
            unavailable_models: Vec::new(),
        };
        assert(r.unavailable() =~= Set::<Seq<char>>::empty());
        r
    }

    pub fn model_is_unavailable(&self, model: Option<&str>) -> (r: bool)
        ensures
            r == self.unavailable().contains(model_key_spec(opt_str_view(model))),
    {
        let key = app_server_model_key(model);
        let mut i: usize = 0;
        while i < self.unavailable_models.len()
            invariant
                i <= self.unavailable_models.len(),
                key@ == model_key_spec(opt_str_view(model)),
                forall|j: int| 0 <= j < i ==> #[trigger] self.unavailable_models@[j]@ != key@,
            decreases self.unavailable_models.len() - i,
        {
            if str_eq(self.unavailable_models[i].as_str(), key.as_str()) {
                assert(self.unavailable_models@[i as int]@ == key@);
                assert(self.unavailable().contains(key@));
                return true;
            }
            i += 1;
        }
        false
    }

    /// Records that `model` is unavailable for the rest of the run.
    pub fn mark_model_unavailable(&mut self, model: Option<&str>)
        ensures
            final(self).unavailable() == old(self).unavailable().insert(
                model_key_spec(opt_str_view(model)),
            ),
            final(self).sessions_by_scope == old(self).sessions_by_scope,
            final(self).session_instructions == old(self).session_instructions,
    {
        if !self.model_is_unavailable(model) {
            let ghost before = self.unavailable_models@;
            let key = app_server_model_key(model);
            self.unavailable_models.push(key);
            proof {
                let k = model_key_spec(opt_str_view(model));
                assert forall|x: Seq<char>| #[trigger] self.unavailable().contains(x) == old(self).unavailable().insert(k).contains(x) by {
                    if old(self).unavailable().contains(x) {
                        let j = choose|j: int| 0 <= j < before.len() && #[trigger] before[j]@ == x;
                        assert(self.unavailable_models@[j]@ == x);
                    }
                    if x == k {
                        assert(self.unavailable_models@[before.len() as int]@ == x);
                    }
                    if self.unavailable().contains(x) {
                        let j = choose|j: int| 0 <= j < self.unavailable_models@.len() && #[trigger] self.unavailable_models@[j]@ == x;
                        if j < before.len() {
                            assert(before[j]@ == x);
                        }
                    }
                }
                assert(self.unavailable() =~= old(self).unavailable().insert(k));
            }
        } else {
            assert(old(self).unavailable().insert(model_key_spec(opt_str_view(model))) =~= old(self).unavailable());
        }
    }

    /// Forgets every reusable thread.
    pub fn clear_thread_sessions(&mut self)
        ensures
            final(self).wf(),
            final(self).sessions_by_scope@.len() == 0,
            final(self).session_instructions@.len() == 0,
            final(self).unavailable_models == old(self).unavailable_models,
    {
        self.sessions_by_scope = Vec::new();
        self.session_instructions = Vec::new();
    }

    /// The models of the agent that are still available, in their order.
    pub fn available_models(&self, agent: &AgentConfig) -> (r: Vec<Option<String>>)
        ensures
            models_view(r@) == keep_available(models_spec(*agent), self.unavailable()),
    {
        let models = evaluator_models(agent);
        let ghost all = models_view(models@);
        let mut r: Vec<Option<String>> = Vec::new();
        let mut i: usize = 0;
        while i < models.len()
            invariant
                i <= models.len(),
                all == models_view(models@),
                models_view(r@) == keep_available(all.take(i as int), self.unavailable()),
            decreases models.len() - i,
        {
            assert(all.take(i + 1).drop_last() =~= all.take(i as int));
            let model = &models[i];
            let unavailable = match model {
                Some(m) => self.model_is_unavailable(Some(m.as_str())),
                None => self.model_is_unavailable(None),
            };
            if !unavailable {
                r.push(match model {
                    Some(m) => Some(m.clone()),
                    None => None,
                });
            }
            assert(models_view(r@) =~= keep_available(all.take(i + 1), self.unavailable()));
            i += 1;
        }
        assert(all.take(models.len() as int) =~= all);
        r
    }
}

/// `k` is one of the strings of `v`.
pub open spec fn listed(v: Seq<String>, k: Seq<char>) -> bool {
    exists|i: int| 0 <= i < v.len() && #[trigger] v[i]@ == k
}

/// The models of `models` whose key is not in `unavailable`, in order.
pub open spec fn keep_available(models: Seq<Option<Seq<char>>>, unavailable: Set<Seq<char>>) -> Seq<Option<Seq<char>>>
    decreases models.len(),
{
    if models.len() == 0 {
        Seq::empty()
    } else {
        let prev = keep_available(models.drop_last(), unavailable);
        if unavailable.contains(model_key_spec(models.last())) {
            prev
        } else {
            prev.push(models.last())
        }
    }
}

/// Once a model is marked unavailable it stays so, and marking it changes no other
/// model's availability.
pub proof fn law_marked_model_is_unavailable(
    before: Set<Seq<char>>,
    after: Set<Seq<char>>,
    marked: Option<Seq<char>>,
    other: Option<Seq<char>>,
)
    requires
        after == before.insert(model_key_spec(marked)),
    ensures
        after.contains(model_key_spec(marked)),
        model_key_spec(other) != model_key_spec(marked) ==> (after.contains(model_key_spec(other))
            == before.contains(model_key_spec(other))),
{
}

/// No model that is marked unavailable is offered again, and every offered model is
/// one of the agent's.
pub proof fn law_available_models_exclude_unavailable(
    models: Seq<Option<Seq<char>>>,
    unavailable: Set<Seq<char>>,
)
    ensures
        forall|i: int|
            0 <= i < keep_available(models, unavailable).len() ==> !unavailable.contains(
                model_key_spec(#[trigger] keep_available(models, unavailable)[i]),
            ) && models.contains(keep_available(models, unavailable)[i]),
    decreases models.len(),
{
    if models.len() > 0 {
        law_available_models_exclude_unavailable(models.drop_last(), unavailable);
        let prev = keep_available(models.drop_last(), unavailable);
        let cur = keep_available(models, unavailable);
        assert forall|i: int| 0 <= i < cur.len() implies !unavailable.contains(
            model_key_spec(#[trigger] cur[i]),
        ) && models.contains(cur[i]) by {
            if i < prev.len() {
                assert(cur[i] == prev[i]);
                assert(models.drop_last().contains(prev[i]));
                let j = choose|j: int| 0 <= j < models.drop_last().len() && models.drop_last()[j] == prev[i];
                assert(models[j] == prev[i]);
            } else {
                assert(cur[i] == models.last());
                assert(models[models.len() - 1] == models.last());
            }
        }
    }
}

/// The reusable threads are forgotten after a technical failure.
pub fn clear_thread_sessions_after_failure(state: &mut InterrogationState)
    ensures
        final(state).wf(),
        final(state).sessions_by_scope@.len() == 0,
        final(state).session_instructions@.len() == 0,
        final(state).unavailable_models == old(state).unavailable_models,
{
    state.clear_thread_sessions();
}

/// Passes a session error on, forgetting the reusable threads when the error
/// invalidates them.
pub fn fail_after_session_error<T>(state: &mut InterrogationState, err: EvaluatorError) -> (r: Result<T, EvaluatorError>)
    requires
        old(state).wf(),
    ensures
        r matches Err(e) && e == err,
        final(state).wf(),
        err.kind is Some ==> final(state).sessions_by_scope@.len() == 0
            && final(state).session_instructions@.len() == 0,
        err.kind is None ==> *final(state) == *old(state),
        final(state).unavailable_models == old(state).unavailable_models,
{
    if session_failure_invalidates_thread(&err) {
        clear_thread_sessions_after_failure(state);
    }
    Err(err)
}

/// Whether `s` is one of `retired`.
pub open spec fn is_retired(retired: Seq<String>, s: Seq<char>) -> bool {
    exists|i: int| 0 <= i < retired.len() && #[trigger] retired[i]@ == s
}

/// The entries whose value (`by_value`) or key is not retired, in order.
pub open spec fn drop_retired(e: Seq<(String, String)>, retired: Seq<String>, by_value: bool) -> Seq<(String, String)>
    decreases e.len(),
{
    if e.len() == 0 {
        Seq::empty()
    } else {
        let prev = drop_retired(e.drop_last(), retired, by_value);
        let probe = if by_value {
            e.last().1@
        } else {
            e.last().0@
        };
        if is_retired(retired, probe) {
            prev
        } else {
            prev.push(e.last())
        }
    }
}

proof fn lemma_drop_retired_subseq(e: Seq<(String, String)>, retired: Seq<String>, by_value: bool)
    ensures
        forall|i: int| 0 <= i < drop_retired(e, retired, by_value).len() ==> exists|j: int|
            0 <= j < e.len() && e[j] == #[trigger] drop_retired(e, retired, by_value)[i],
    decreases e.len(),
{
    if e.len() > 0 {
        lemma_drop_retired_subseq(e.drop_last(), retired, by_value);
        let prev = drop_retired(e.drop_last(), retired, by_value);
        let cur = drop_retired(e, retired, by_value);
        assert forall|i: int| 0 <= i < cur.len() implies exists|j: int|
            0 <= j < e.len() && e[j] == #[trigger] cur[i] by {
            if i < prev.len() {
                let j = choose|j: int| 0 <= j < e.drop_last().len() && e.drop_last()[j] == prev[i];
                assert(e[j] == cur[i]);
            } else {
                assert(e[e.len() - 1] == cur[i]);
            }
        }
    }
}

/// Keeping some entries in order keeps the keys unique.
proof fn lemma_drop_retired_unique(e: Seq<(String, String)>, retired: Seq<String>, by_value: bool)
    requires
        keys_unique(e),
    ensures
        keys_unique(drop_retired(e, retired, by_value)),
    decreases e.len(),
{
    if e.len() > 0 {
        assert(keys_unique(e.drop_last()));
        lemma_drop_retired_unique(e.drop_last(), retired, by_value);
        lemma_drop_retired_subseq(e.drop_last(), retired, by_value);
        let prev = drop_retired(e.drop_last(), retired, by_value);
        let cur = drop_retired(e, retired, by_value);
        if cur.len() > prev.len() {
            assert forall|a: int, b: int| 0 <= a < b < cur.len() implies #[trigger] cur[a].0@ != #[trigger] cur[b].0@ by {
                if b == prev.len() {
                    let j = choose|j: int| 0 <= j < e.drop_last().len() && e.drop_last()[j] == prev[a];
                    assert(e[j].0@ != e[e.len() - 1].0@);
                } else {
                    assert(prev[a].0@ != prev[b].0@);
                }
            }
        }
    }
}

fn drop_retired_entries(entries: &Vec<(String, String)>, retired: &Vec<String>, by_value: bool) -> (r: Vec<(String, String)>)
    ensures
        r@ == drop_retired(entries@, retired@, by_value),
{
    let mut r: Vec<(String, String)> = Vec::new();
    let mut i: usize = 0;
    while i < entries.len()
        invariant
            i <= entries.len(),
            r@ == drop_retired(entries@.take(i as int), retired@, by_value),
        decreases entries.len() - i,
    {
        assert(entries@.take(i + 1).drop_last() =~= entries@.take(i as int));
        let probe = if by_value {
            entries[i].1.as_str()
        } else {
            entries[i].0.as_str()
        };
        let mut hit = false;
        let mut k: usize = 0;
        while k < retired.len()
            invariant
                k <= retired.len(),
                hit == exists|t: int| 0 <= t < k && #[trigger] retired@[t]@ == probe@,
            decreases retired.len() - k,
        {
            if str_eq(retired[k].as_str(), probe) {
                hit = true;
            }
            k += 1;
        }
        if !hit {
            r.push((entries[i].0.clone(), entries[i].1.clone()));
        }
        i += 1;
    }
    assert(entries@.take(entries.len() as int) =~= entries@);
    r
}

/// After a turn, drops the threads that the runner retired and their instructions;
/// tells whether the active thread was among them. Nothing changes when none was.
pub fn retire_thread_sessions_after_turn(
    state: &mut InterrogationState,
    retired_sessions: Vec<String>,
    active_session_id: &str,
) -> (r: bool)
    requires
        old(state).wf(),
    ensures
        final(state).wf(),
        r == is_retired(retired_sessions@, active_session_id@),
        final(state).sessions_by_scope@ == drop_retired(
            old(state).sessions_by_scope@,
            retired_sessions@,
            true,
        ),
        final(state).session_instructions@ == drop_retired(
            old(state).session_instructions@,
            retired_sessions@,
            false,
        ),
        final(state).unavailable_models == old(state).unavailable_models,
{
    if retired_sessions.len() == 0 {
        proof {
            lemma_drop_none(old(state).sessions_by_scope@, retired_sessions@, true);
            lemma_drop_none(old(state).session_instructions@, retired_sessions@, false);
        }
        return false;
    }
    let sessions = drop_retired_entries(&state.sessions_by_scope, &retired_sessions, true);
    let instructions = drop_retired_entries(&state.session_instructions, &retired_sessions, false);
    proof {
        lemma_drop_retired_unique(state.sessions_by_scope@, retired_sessions@, true);
        lemma_drop_retired_unique(state.session_instructions@, retired_sessions@, false);
    }
    state.sessions_by_scope = sessions;
    state.session_instructions = instructions;
    let mut found = false;
    let mut k: usize = 0;
    while k < retired_sessions.len()
        invariant
            k <= retired_sessions.len(),
            found == exists|t: int| 0 <= t < k && #[trigger] retired_sessions@[t]@ == active_session_id@,
        decreases retired_sessions.len() - k,
    {
        if str_eq(retired_sessions[k].as_str(), active_session_id) {
            found = true;
        }
        k += 1;
    }
    found
}

proof fn lemma_drop_none(e: Seq<(String, String)>, retired: Seq<String>, by_value: bool)
    requires
        retired.len() == 0,
    ensures
        drop_retired(e, retired, by_value) == e,
    decreases e.len(),
{
    if e.len() > 0 {
        lemma_drop_none(e.drop_last(), retired, by_value);
        assert(e.drop_last().push(e.last()) =~= e);
    }
}

} // verus!
