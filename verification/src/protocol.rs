//! The evaluator app-server protocol: failure kinds, token usage accounting and the
//! per-turn records kept while a turn runs.

use vstd::prelude::*;
use crate::text::{chars_of, decimal, decimal_string, is_blank, push_char, str_blank, str_eq};
use crate::generator::ascii_lower;
use crate::prompt::chars_match_at;

verus! {

/// A JSON value carried through unchanged (`serde_json::Value`).
#[verifier::external_type_specification]
#[verifier::external_body]
pub struct ExJsonValue(serde_json::Value);

/// How long an app-server turn may stay silent before it is abandoned.
pub const APP_SERVER_TURN_TIMEOUT_SECS: u64 = 600;

/// Whether a turn has been idle for the whole timeout: the time from the last
/// activity to now (zero if now is earlier) is at least the timeout.
pub fn turn_idle_timed_out(last_activity_millis: u64, now_millis: u64) -> (r: bool)
    ensures
        r == (now_millis >= last_activity_millis && now_millis - last_activity_millis
            >= APP_SERVER_TURN_TIMEOUT_SECS * 1000),
{
    let elapsed = now_millis.saturating_sub(last_activity_millis);
    elapsed >= APP_SERVER_TURN_TIMEOUT_SECS * 1000
}

/// Why an evaluator request failed.
#[derive(Clone, Copy, Debug, PartialEq, Eq, Structural)]
pub enum EvaluatorFailureKind {
    UsageLimit,
    RateLimit,
    ModelUnavailable,
    TurnTimeout,
    ContextWindow,
    UnknownAppServer,
}

impl EvaluatorFailureKind {
    /// Every known failure kind is a technical failure of the model.
    pub fn is_model_technical(self) -> (r: bool)
        ensures
            r,
    {
        match self {
            EvaluatorFailureKind::UsageLimit => true,
            EvaluatorFailureKind::RateLimit => true,
            EvaluatorFailureKind::ModelUnavailable => true,
            EvaluatorFailureKind::TurnTimeout => true,
            EvaluatorFailureKind::ContextWindow => true,
            EvaluatorFailureKind::UnknownAppServer => true,
        }
    }

    pub fn invalidates_thread(self) -> (r: bool)
        ensures
            r,
    {
        self.is_model_technical()
    }
}

/// An evaluator error: a message, and the failure kind when one is known.
pub struct EvaluatorError {
    pub kind: Option<EvaluatorFailureKind>,
    pub message: String,
}

impl EvaluatorError {
    pub fn message(message: String) -> (r: EvaluatorError)
        ensures
            r.kind is None,
            r.message == message,
    {
        EvaluatorError { kind: None, message }
    }

    pub fn failure(kind: EvaluatorFailureKind, message: String) -> (r: EvaluatorError)
        ensures
            r.kind == Some(kind),
            r.message == message,
    {
        EvaluatorError { kind: Some(kind), message }
    }

    pub fn kind(&self) -> (r: Option<EvaluatorFailureKind>)
        ensures
            r == self.kind,
    {
        self.kind
    }

    pub fn message_str(&self) -> (r: &str)
        ensures
            r@ == self.message@,
    {
        self.message.as_str()
    }
}

/// Whether the error is a technical failure of the model (any known kind).
pub fn is_model_technical_failure(err: &EvaluatorError) -> (r: bool)
    ensures
        r == err.kind is Some,
{
    match err.kind() {
        Some(kind) => kind.is_model_technical(),
        None => false,
    }
}

pub fn is_context_window_failure(err: &EvaluatorError) -> (r: bool)
    ensures
        r == (err.kind == Some(EvaluatorFailureKind::ContextWindow)),
{
    match err.kind() {
        Some(EvaluatorFailureKind::ContextWindow) => true,
        _ => false,
    }
}

pub fn session_failure_invalidates_thread(err: &EvaluatorError) -> (r: bool)
    ensures
        r == err.kind is Some,
{
    match err.kind() {
        Some(kind) => kind.invalidates_thread(),
        None => false,
    }
}

/// The failure kind named by an app-server error code, in camel or snake case.
pub open spec fn failure_kind_spec(code: Seq<char>) -> EvaluatorFailureKind {
    if code == "usageLimitExceeded"@ || code == "usage_limit_exceeded"@ {
        EvaluatorFailureKind::UsageLimit
    } else if code == "rateLimitExceeded"@ || code == "rate_limit_exceeded"@ {
        EvaluatorFailureKind::RateLimit
    } else if code == "modelUnavailable"@ || code == "model_unavailable"@ {
        EvaluatorFailureKind::ModelUnavailable
    } else if code == "contextWindowExceeded"@ || code == "context_window_exceeded"@ || code
        == "context_length_exceeded"@ {
        EvaluatorFailureKind::ContextWindow
    } else {
        EvaluatorFailureKind::UnknownAppServer
    }
}

pub fn app_server_failure_kind_from_code(code: &str) -> (r: EvaluatorFailureKind)
    ensures
        r == failure_kind_spec(code@),
{
    if str_eq(code, "usageLimitExceeded") || str_eq(code, "usage_limit_exceeded") {
        EvaluatorFailureKind::UsageLimit
    } else if str_eq(code, "rateLimitExceeded") || str_eq(code, "rate_limit_exceeded") {
        EvaluatorFailureKind::RateLimit
    } else if str_eq(code, "modelUnavailable") || str_eq(code, "model_unavailable") {
        EvaluatorFailureKind::ModelUnavailable
    } else if str_eq(code, "contextWindowExceeded") || str_eq(code, "context_window_exceeded")
        || str_eq(code, "context_length_exceeded") {
        EvaluatorFailureKind::ContextWindow
    } else {
        EvaluatorFailureKind::UnknownAppServer
    }
}

/// The fields of an app-server error object that may name its code.
pub struct AppServerErrorFields {
    pub code: Option<String>,
    pub kind: Option<String>,
    pub codex_error_info: Option<String>,
}

impl AppServerErrorFields {
    /// The first of `code`, `type` and `codexErrorInfo` that is present.
    pub fn code(self) -> (r: Option<String>)
        ensures
            r == (if self.code is Some {
                self.code
            } else if self.kind is Some {
                self.kind
            } else {
                self.codex_error_info
            }),
    {
        match self.code {
            Some(c) => Some(c),
            None => match self.kind {
                Some(k) => Some(k),
                None => self.codex_error_info,
            },
        }
    }
}

/// The failure kind of an app-server error object, given its fields when they could
/// be read: unknown when none names a code.
pub fn app_server_failure_kind(fields: Option<AppServerErrorFields>) -> (r: EvaluatorFailureKind)
    ensures
        r == match fields {
            None => EvaluatorFailureKind::UnknownAppServer,
            Some(f) => {
                let code = if f.code is Some {
                    f.code
                } else if f.kind is Some {
                    f.kind
                } else {
                    f.codex_error_info
                };
                match code {
                    Some(c) => failure_kind_spec(c@),
                    None => EvaluatorFailureKind::UnknownAppServer,
                }
            },
        },
{
    match fields {
        None => EvaluatorFailureKind::UnknownAppServer,
        Some(f) => match f.code() {
            Some(c) => app_server_failure_kind_from_code(c.as_str()),
            None => EvaluatorFailureKind::UnknownAppServer,
        },
    }
}

/// `app-server <method> failed: <message>`, as an error without a kind.
pub fn app_server_failure_from_message(method: &str, message: &str) -> (r: EvaluatorError)
    ensures
        r.kind is None,
        r.message@ == "app-server "@ + method@ + " failed: "@ + message@,
{
    let mut text = String::from_str("app-server ");
    text.append(method);
    text.append(" failed: ");
    text.append(message);
    EvaluatorError::message(text)
}

/// A protocol error is an unknown app-server failure.
pub fn app_server_protocol_error(error: String) -> (r: EvaluatorError)
    ensures
        r.kind == Some(EvaluatorFailureKind::UnknownAppServer),
        r.message == error,
{
    EvaluatorError::failure(EvaluatorFailureKind::UnknownAppServer, error)
}

/// Whether an item type marks a context compaction.
pub fn is_compaction_item_type(kind: &str) -> (r: bool)
    ensures
        r == (kind@ == "contextCompaction"@ || kind@ == "compacted"@),
{
    str_eq(kind, "contextCompaction") || str_eq(kind, "compacted")
}

/// Whether `p` occurs in `s`.
pub open spec fn occurs_in(s: Seq<char>, p: Seq<char>) -> bool {
    exists|i: int| 0 <= i && i + p.len() <= s.len() && #[trigger] s.subrange(i, i + p.len()) == p
}

/// `s` with its ASCII letters lowercased (`str::to_ascii_lowercase`).
pub open spec fn ascii_lowercase(s: Seq<char>) -> Seq<char> {
    s.map_values(|c: char| ascii_lower(c))
}

/// A message marks a context compaction when its item is a compaction item or its
/// method, ASCII-lowercased, mentions `compact`.
pub open spec fn marks_compaction_spec(method: Seq<char>, item_type: Option<Seq<char>>) -> bool {
    ||| (item_type matches Some(t) && (t == "contextCompaction"@ || t == "compacted"@))
    ||| occurs_in(ascii_lowercase(method), "compact"@)
}

pub fn message_marks_context_compaction(method: &str, item_type: Option<&str>) -> (r: bool)
    ensures
        r == marks_compaction_spec(
            method@,
            match item_type {
                Some(t) => Some(t@),
                None => None,
            },
        ),
{
    if let Some(t) = item_type {
        if is_compaction_item_type(t) {
            return true;
        }
    }
    let chars = chars_of(method);
    let mut lower: Vec<char> = Vec::new();
    let mut k: usize = 0;
    while k < chars.len()
        invariant
            k <= chars@.len(),
            lower@ == chars@.take(k as int).map_values(|c: char| ascii_lower(c)),
        decreases chars.len() - k,
    {
        let ch = chars[k];
        let u = ch as u32;
        let l = if 65 <= u && u <= 90 {
            ((u + 32) as u8) as char
        } else {
            ch
        };
        assert(l == ascii_lower(ch));
        lower.push(l);
        assert(chars@.take(k + 1).map_values(|c: char| ascii_lower(c)) =~= chars@.take(k as int).map_values(
            |c: char| ascii_lower(c),
        ).push(ascii_lower(ch)));
        k += 1;
    }
    assert(chars@.take(chars@.len() as int) =~= chars@);
    let ghost lv = ascii_lowercase(method@);
    assert(lower@ =~= lv);
    let pattern = chars_of("compact");
    chars_contain(&lower, &pattern)
}

/// Whether `p` occurs in `v`.
pub fn chars_contain(v: &Vec<char>, p: &Vec<char>) -> (r: bool)
    ensures
        r == occurs_in(v@, p@),
{
    let n = v.len();
    let m = p.len();
    if m > n {
        return false;
    }
    if m == 0 {
        assert(v@.subrange(0int, 0int + p@.len()) =~= p@);
        return true;
    }
    let bound = n - m + 1;
    let mut i: usize = 0;
    while i < bound
        invariant
            n == v@.len(),
            m == p@.len(),
            1 <= m <= n,
            bound == n - m + 1,
            i <= bound,
            forall|j: int| 0 <= j < i ==> #[trigger] v@.subrange(j, j + p@.len()) != p@,
        decreases bound - i,
    {
        if chars_match_at(v, i, p) {
            assert(v@.subrange(i as int, i + p@.len()) =~= v@.skip(i as int).take(p@.len() as int));
            return true;
        }
        assert(v@.subrange(i as int, i + p@.len()) =~= v@.skip(i as int).take(p@.len() as int));
        i += 1;
    }
    false
}

/// Whether `p` occurs in `s` (`str::contains`).
pub fn str_contains(s: &str, p: &str) -> (r: bool)
    ensures
        r == occurs_in(s@, p@),
{
    let v = chars_of(s);
    let q = chars_of(p);
    chars_contain(&v, &q)
}

/// An item holds the assistant's message when its role is `assistant` or its type
/// mentions both `agent` and `message`.
pub open spec fn assistant_item_spec(role: Option<Seq<char>>, kind: Option<Seq<char>>) -> bool {
    ||| role == Some("assistant"@)
    ||| (kind matches Some(k) && occurs_in(k, "agent"@) && occurs_in(k, "message"@))
}

pub fn is_assistant_message_item(role: Option<&str>, kind: Option<&str>) -> (r: bool)
    ensures
        r == assistant_item_spec(
            match role {
                Some(x) => Some(x@),
                None => None,
            },
            match kind {
                Some(x) => Some(x@),
                None => None,
            },
        ),
{
    if let Some(x) = role {
        if str_eq(x, "assistant") {
            return true;
        }
    }
    match kind {
        Some(k) => str_contains(k, "agent") && str_contains(k, "message"),
        None => false,
    }
}

/// A content part contributes its text when its type is `output_text` or `text`.
pub open spec fn part_text(part: (Option<Seq<char>>, Option<Seq<char>>)) -> Seq<char> {
    match part {
        (Some(kind), Some(text)) => if kind == "output_text"@ || kind == "text"@ {
            text
        } else {
            Seq::empty()
        },
        _ => Seq::empty(),
    }
}

pub open spec fn parts_text(parts: Seq<(Option<Seq<char>>, Option<Seq<char>>)>) -> Seq<char>
    decreases parts.len(),
{
    if parts.len() == 0 {
        Seq::empty()
    } else {
        parts_text(parts.drop_last()) + part_text(parts.last())
    }
}

pub open spec fn opt_str_view(o: Option<String>) -> Option<Seq<char>> {
    match o {
        Some(s) => Some(s@),
        None => None,
    }
}

pub open spec fn part_views(v: Seq<(Option<String>, Option<String>)>) -> Seq<(Option<Seq<char>>, Option<Seq<char>>)> {
    Seq::new(v.len(), |i: int| (opt_str_view(v[i].0), opt_str_view(v[i].1)))
}

/// The text of a message payload: its `text`, then the texts of its content parts
/// (`(type, text)`) whose type is `output_text` or `text`, in order.
pub fn message_payload_text(text: Option<&str>, parts: &Vec<(Option<String>, Option<String>)>) -> (r: String)
    ensures
        r@ == match text {
            Some(t) => t@,
            None => Seq::empty(),
        } + parts_text(part_views(parts@)),
{
    let mut out = String::new();
    if let Some(t) = text {
        out.append(t);
    }
    let ghost head = out@;
    let mut i: usize = 0;
    while i < parts.len()
        invariant
            i <= parts@.len(),
            out@ == head + parts_text(part_views(parts@).take(i as int)),
        decreases parts.len() - i,
    {
        assert(part_views(parts@).take(i + 1).drop_last() =~= part_views(parts@).take(i as int));
        let ghost before = out@;
        match (&parts[i].0, &parts[i].1) {
            (Some(kind), Some(t)) => {
                if str_eq(kind.as_str(), "output_text") || str_eq(kind.as_str(), "text") {
                    out.append(t.as_str());
                }
            },
            _ => {},
        }
        assert(out@ =~= before + part_text(part_views(parts@)[i as int]));
        i += 1;
    }
    assert(part_views(parts@).take(parts.len() as int) =~= part_views(parts@));
    out
}

/// Where a notification's error comes from.
#[derive(Clone, Copy, Debug, PartialEq, Eq, Structural)]
pub enum ErrorSource {
    /// The notification carries no error.
    NoError,
    /// A `turn/completed` whose turn failed: the turn's error.
    FailedTurn,
    /// An `error`, `turn/failed` or `turn/error` notification: its error, or its
    /// message, or its method.
    ErrorNotification,
}

pub open spec fn error_source_spec(method: Seq<char>, turn_status: Option<Seq<char>>) -> ErrorSource {
    if method == "error"@ || method == "turn/failed"@ || method == "turn/error"@ {
        ErrorSource::ErrorNotification
    } else if method == "turn/completed"@ && turn_status == Some("failed"@) {
        ErrorSource::FailedTurn
    } else {
        ErrorSource::NoError
    }
}

pub fn message_error_source(method: &str, turn_status: Option<&str>) -> (r: ErrorSource)
    ensures
        r == error_source_spec(
            method@,
            match turn_status {
                Some(x) => Some(x@),
                None => None,
            },
        ),
{
    if str_eq(method, "error") || str_eq(method, "turn/failed") || str_eq(method, "turn/error") {
        return ErrorSource::ErrorNotification;
    }
    if str_eq(method, "turn/completed") {
        if let Some(status) = turn_status {
            if str_eq(status, "failed") {
                return ErrorSource::FailedTurn;
            }
        }
    }
    ErrorSource::NoError
}

/// What stands for the error of a notification.
pub enum ErrorPick {
    /// The failed turn's own `error`.
    TurnError,
    /// The notification's `params.error`.
    ParamsError,
    /// The notification's top-level `error`.
    TopError,
    /// An error object made of this message.
    Message(String),
}

pub open spec fn opt_view_str(o: Option<&str>) -> Option<Seq<char>> {
    match o {
        Some(x) => Some(x@),
        None => None,
    }
}

/// The message an error object is made of when the notification carries no error
/// object: the failed turn's default text, else `params.message`, `message` or the
/// method, the first that is there.
pub open spec fn fallback_message(
    source: ErrorSource,
    params_message: Option<Seq<char>>,
    message: Option<Seq<char>>,
    method: Seq<char>,
) -> Seq<char> {
    if source is FailedTurn {
        "turn failed"@
    } else {
        match params_message {
            Some(m) => m,
            None => match message {
                Some(m) => m,
                None => method,
            },
        }
    }
}

/// Picks a notification's error: none where it carries none; for a failed turn,
/// the turn's `error` if present; for an error notification, `params.error`, then
/// the top-level `error`; otherwise an object made of the fallback message.
pub fn pick_notification_error(
    source: ErrorSource,
    turn_error: bool,
    params_error: bool,
    top_error: bool,
    params_message: Option<&str>,
    message: Option<&str>,
    method: &str,
) -> (r: Option<ErrorPick>)
    ensures
        source is NoError ==> r is None,
        source is FailedTurn && turn_error ==> r matches Some(ErrorPick::TurnError),
        source is ErrorNotification && params_error ==> r matches Some(ErrorPick::ParamsError),
        source is ErrorNotification && !params_error && top_error ==> r matches Some(ErrorPick::TopError),
        (source is FailedTurn && !turn_error) || (source is ErrorNotification && !params_error && !top_error)
            ==> (r matches Some(ErrorPick::Message(m)) && m@ == fallback_message(
            source,
            opt_view_str(params_message),
            opt_view_str(message),
            method@,
        )),
{
    match source {
        ErrorSource::NoError => None,
        ErrorSource::FailedTurn => if turn_error {
            Some(ErrorPick::TurnError)
        } else {
            Some(ErrorPick::Message(String::from_str("turn failed")))
        },
        ErrorSource::ErrorNotification => if params_error {
            Some(ErrorPick::ParamsError)
        } else if top_error {
            Some(ErrorPick::TopError)
        } else {
            let m = match params_message {
                Some(m) => m,
                None => match message {
                    Some(m) => m,
                    None => method,
                },
            };
            Some(ErrorPick::Message(String::from_str(m)))
        },
    }
}

/// A token usage from the fields a usage object holds: total, input and output are
/// required; cached input and reasoning output count as zero when absent.
pub fn token_usage_from_fields(
    total: Option<u64>,
    input: Option<u64>,
    cached_input: Option<u64>,
    output: Option<u64>,
    reasoning_output: Option<u64>,
) -> (r: Option<TokenUsage>)
    ensures
        match (total, input, output) {
            (Some(t), Some(i), Some(o)) => r == Some(TokenUsage {
                total_tokens: t,
                input_tokens: i,
                cached_input_tokens: match cached_input {
                    Some(c) => c,
                    None => 0,
                },
                output_tokens: o,
                reasoning_output_tokens: match reasoning_output {
                    Some(x) => x,
                    None => 0,
                },
            }),
            _ => r is None,
        },
{
    match (total, input, output) {
        (Some(t), Some(i), Some(o)) => Some(TokenUsage {
            total_tokens: t,
            input_tokens: i,
            cached_input_tokens: match cached_input {
                Some(c) => c,
                None => 0,
            },
            output_tokens: o,
            reasoning_output_tokens: match reasoning_output {
                Some(x) => x,
                None => 0,
            },
        }),
        _ => None,
    }
}

/// The text of a turn: the streamed deltas, unless they are blank, else the text of
/// the completed message.
pub fn turn_text(delta_text: String, completed_text: String) -> (r: String)
    ensures
        r == if is_blank(delta_text@) {
            completed_text
        } else {
            delta_text
        },
{
    if str_blank(delta_text.as_str()) {
        completed_text
    } else {
        delta_text
    }
}

/// Token counts of one or more evaluator turns.
#[derive(Clone, Copy, Debug, PartialEq, Eq, Structural)]
pub struct TokenUsage {
    pub total_tokens: u64,
    pub input_tokens: u64,
    pub cached_input_tokens: u64,
    pub output_tokens: u64,
    pub reasoning_output_tokens: u64,
}

/// The five counts of `a` and `b` fit in `u64` when added.
pub open spec fn usage_sum_fits(a: TokenUsage, b: TokenUsage) -> bool {
    &&& a.total_tokens + b.total_tokens <= u64::MAX
    &&& a.input_tokens + b.input_tokens <= u64::MAX
    &&& a.cached_input_tokens + b.cached_input_tokens <= u64::MAX
    &&& a.output_tokens + b.output_tokens <= u64::MAX
    &&& a.reasoning_output_tokens + b.reasoning_output_tokens <= u64::MAX
}

pub open spec fn usage_sum(a: TokenUsage, b: TokenUsage) -> TokenUsage {
    TokenUsage {
        total_tokens: (a.total_tokens + b.total_tokens) as u64,
        input_tokens: (a.input_tokens + b.input_tokens) as u64,
        cached_input_tokens: (a.cached_input_tokens + b.cached_input_tokens) as u64,
        output_tokens: (a.output_tokens + b.output_tokens) as u64,
        reasoning_output_tokens: (a.reasoning_output_tokens + b.reasoning_output_tokens) as u64,
    }
}

pub open spec fn zero_usage() -> TokenUsage {
    TokenUsage {
        total_tokens: 0,
        input_tokens: 0,
        cached_input_tokens: 0,
        output_tokens: 0,
        reasoning_output_tokens: 0,
    }
}

impl TokenUsage {
    pub fn zero() -> (r: TokenUsage)
        ensures
            r == zero_usage(),
    {
        TokenUsage {
            total_tokens: 0,
            input_tokens: 0,
            cached_input_tokens: 0,
            output_tokens: 0,
            reasoning_output_tokens: 0,
        }
    }

    /// The field-wise sum of two usages.
    pub fn add(self, other: TokenUsage) -> (r: TokenUsage)
        requires
            usage_sum_fits(self, other),
        ensures
            r == usage_sum(self, other),
    {
        TokenUsage {
            total_tokens: self.total_tokens + other.total_tokens,
            input_tokens: self.input_tokens + other.input_tokens,
            cached_input_tokens: self.cached_input_tokens + other.cached_input_tokens,
            output_tokens: self.output_tokens + other.output_tokens,
            reasoning_output_tokens: self.reasoning_output_tokens + other.reasoning_output_tokens,
        }
    }
}

/// Adding usages is commutative and has the empty usage as its unit.
pub proof fn law_usage_sum_commutes(a: TokenUsage, b: TokenUsage)
    requires
        usage_sum_fits(a, b),
    ensures
        usage_sum_fits(b, a),
        usage_sum(a, b) == usage_sum(b, a),
        usage_sum(a, zero_usage()) == a,
{
}

/// Adding usages is associative, whenever the sums fit.
pub proof fn law_usage_sum_associates(a: TokenUsage, b: TokenUsage, c: TokenUsage)
    requires
        usage_sum_fits(a, b),
        usage_sum_fits(usage_sum(a, b), c),
    ensures
        usage_sum_fits(b, c),
        usage_sum_fits(a, usage_sum(b, c)),
        usage_sum(usage_sum(a, b), c) == usage_sum(a, usage_sum(b, c)),
{
}

/// The tokens a reused thread carries into its next turn: input plus output.
pub fn carryover_tokens(usage: TokenUsage) -> (r: u64)
    requires
        usage.input_tokens + usage.output_tokens <= u64::MAX,
    ensures
        r == usage.input_tokens + usage.output_tokens,
{
    usage.input_tokens + usage.output_tokens
}

/// The carryover band in which a reused thread is kept.
#[derive(Clone, Copy, Debug, PartialEq, Eq, Structural)]
pub struct CarryoverTokenTarget {
    pub min: u64,
    pub max: u64,
}

/// A reused thread is rolled back once the previous carryover reached the band's
/// minimum, or the current one went past its maximum.
pub fn thread_reuse_policy_should_rollback(
    previous_carryover_tokens: u64,
    current_carryover_tokens: u64,
    target: CarryoverTokenTarget,
) -> (r: bool)
    ensures
        r == (previous_carryover_tokens >= target.min || current_carryover_tokens > target.max),
{
    previous_carryover_tokens >= target.min || current_carryover_tokens > target.max
}

/// What becomes of a reused thread after a turn.
#[derive(Clone, Copy, Debug, PartialEq, Eq, Structural)]
pub enum ThreadReuseStep {
    /// The turn is rolled back; the thread's recorded carryovers stay as they were.
    Rollback,
    /// The turn stays; its carryover is recorded after the thread's others.
    Keep(u64),
}

/// The reuse policy after a turn of a thread whose last recorded carryover is
/// `previous` (none for its first turn): roll back when the policy says so,
/// else keep the turn with its carryover.
pub fn thread_reuse_step(previous: Option<u64>, usage: TokenUsage, target: CarryoverTokenTarget) -> (r: ThreadReuseStep)
    requires
        usage.input_tokens + usage.output_tokens <= u64::MAX,
    ensures
        r == match previous {
            Some(p) => if p >= target.min || usage.input_tokens + usage.output_tokens > target.max {
                ThreadReuseStep::Rollback
            } else {
                ThreadReuseStep::Keep((usage.input_tokens + usage.output_tokens) as u64)
            },
            None => ThreadReuseStep::Keep((usage.input_tokens + usage.output_tokens) as u64),
        },
{
    let current = carryover_tokens(usage);
    match previous {
        Some(p) => if thread_reuse_policy_should_rollback(p, current, target) {
            ThreadReuseStep::Rollback
        } else {
            ThreadReuseStep::Keep(current)
        },
        None => ThreadReuseStep::Keep(current),
    }
}

/// The decimal digits of `s` (a prefix of a `total`-digit number) with a comma before
/// each digit that starts a group of three counted from the right.
pub open spec fn grouped(s: Seq<char>, total: nat) -> Seq<char>
    decreases s.len(),
{
    if s.len() == 0 {
        Seq::empty()
    } else {
        let i = s.len() - 1;
        grouped(s.drop_last(), total) + if i > 0 && (total - i) % 3 == 0 {
            seq![',', s.last()]
        } else {
            seq![s.last()]
        }
    }
}

/// `value` in decimal with commas between groups of three digits.
pub open spec fn format_number_spec(value: nat) -> Seq<char> {
    grouped(decimal(value), decimal(value).len())
}

pub fn format_number(value: u64) -> (r: String)
    ensures
        r@ == format_number_spec(value as nat),
{
    let digits = decimal_string(value);
    let d = chars_of(digits.as_str());
    let n = d.len();
    let mut output = String::new();
    let mut i: usize = 0;
    while i < n
        invariant
            i <= n == d@.len(),
            d@ == decimal(value as nat),
            output@ == grouped(d@.take(i as int), n as nat),
        decreases n - i,
    {
        assert(d@.take(i + 1).drop_last() =~= d@.take(i as int));
        if i > 0 && (n - i) % 3 == 0 {
            push_char(&mut output, ',');
        }
        push_char(&mut output, d[i]);
        i += 1;
        assert(output@ =~= grouped(d@.take(i as int), n as nat));
    }
    assert(d@.take(n as int) =~= d@);
    output
}

/// `Token usage: total=… input=… (+ … cached) output=… (reasoning …)`, each count
/// grouped by thousands.
pub open spec fn token_usage_summary_spec(u: TokenUsage) -> Seq<char> {
    "Token usage: total="@ + format_number_spec(u.total_tokens as nat) + " input="@
        + format_number_spec(u.input_tokens as nat) + " (+ "@ + format_number_spec(
        u.cached_input_tokens as nat,
    ) + " cached) output="@ + format_number_spec(u.output_tokens as nat) + " (reasoning "@
        + format_number_spec(u.reasoning_output_tokens as nat) + ")"@
}

pub fn render_token_usage_summary(usage: TokenUsage) -> (r: String)
    ensures
        r@ == token_usage_summary_spec(usage),
{
    let mut out = String::from_str("Token usage: total=");
    out.append(format_number(usage.total_tokens).as_str());
    out.append(" input=");
    out.append(format_number(usage.input_tokens).as_str());
    out.append(" (+ ");
    out.append(format_number(usage.cached_input_tokens).as_str());
    out.append(" cached) output=");
    out.append(format_number(usage.output_tokens).as_str());
    out.append(" (reasoning ");
    out.append(format_number(usage.reasoning_output_tokens).as_str());
    out.append(")");
    out
}

/// The messages of `errors` separated by `; `.
pub open spec fn join_semicolon(v: Seq<String>) -> Seq<char>
    decreases v.len(),
{
    if v.len() == 0 {
        Seq::empty()
    } else if v.len() == 1 {
        v[0]@
    } else {
        join_semicolon(v.drop_last()) + "; "@ + v.last()@
    }
}

/// The strings of `v` separated by `; `.
pub fn join_semicolon_text(v: &Vec<String>) -> (r: String)
    ensures
        r@ == join_semicolon(v@),
{
    let mut out = String::new();
    let mut i: usize = 0;
    while i < v.len()
        invariant
            i <= v.len(),
            out@ == join_semicolon(v@.take(i as int)),
        decreases v.len() - i,
    {
        assert(v@.take(i + 1).drop_last() =~= v@.take(i as int));
        if i > 0 {
            out.append("; ");
        }
        out.append(v[i].as_str());
        proof {
            if i == 0 {
                assert(out@ =~= v@.take(1)[0]@);
            }
        }
        i += 1;
    }
    assert(v@.take(v.len() as int) =~= v@);
    out
}

/// Cleanup succeeds when no step failed; otherwise its error lists every failure.
pub fn finish_app_server_cleanup(errors: Vec<String>) -> (r: Result<(), String>)
    ensures
        errors@.len() == 0 ==> r is Ok,
        errors@.len() > 0 ==> (r matches Err(e) && e@ == join_semicolon(errors@)),
{
    if errors.len() == 0 {
        return Ok(());
    }
    Err(join_semicolon_text(&errors))
}

} // verus!
