//! Reliability policies: timeouts, retries and fallbacks around an executor.
//!
//! `Attempts` decides what to try next. The caller looks executors up, runs them
//! and sleeps, and reports back what happened.
use crate::audit;
use crate::audit::{AuditEvent, AuditEventView};
use crate::error::{ErrorClass, ExecutorError, ExecutorErrorView};
use crate::json;
use crate::json::{Json, Number, Value};
use crate::text;
use vstd::prelude::*;

verus! {

/// How the delay between attempts grows.
#[derive(Debug, Clone, Copy, PartialEq, Eq, Structural)]
pub enum Backoff {
    Immediate,
    Fixed,
    Exponential,
}

/// How often, after which delay and on which failures to try again.
#[derive(Debug)]
pub struct RetryPolicy {
    pub max_attempts: u32,
    pub backoff: Backoff,
    pub initial_delay_ms: u64,
    pub max_delay_ms: Option<u64>,
    pub retry_on: Vec<String>,
}

/// Which executors to try after the first one.
#[derive(Debug)]
pub struct FallbackPolicy {
    pub strategy: String,
    pub executors: Vec<Value>,
}

/// The reliability policy of a transition or an action.
#[derive(Debug)]
pub struct ReliabilityPolicy {
    pub timeout_ms: Option<u64>,
    pub retry: Option<RetryPolicy>,
    pub fallback: Option<FallbackPolicy>,
}

/// A retry policy as mathematical values.
pub struct RetryView {
    pub max_attempts: u32,
    pub backoff: Backoff,
    pub initial_delay_ms: u64,
    pub max_delay_ms: Option<u64>,
    pub retry_on: Seq<Seq<char>>,
}

/// A fallback policy as mathematical values.
pub struct FallbackView {
    pub strategy: Seq<char>,
    pub executors: Seq<Json>,
}

/// A reliability policy as mathematical values.
pub struct PolicyView {
    pub timeout_ms: Option<u64>,
    pub retry: Option<RetryView>,
    pub fallback: Option<FallbackView>,
}

impl View for RetryPolicy {
    type V = RetryView;

    open spec fn view(&self) -> RetryView {
        RetryView {
            max_attempts: self.max_attempts,
            backoff: self.backoff,
            initial_delay_ms: self.initial_delay_ms,
            max_delay_ms: self.max_delay_ms,
            retry_on: text::texts(self.retry_on@),
        }
    }
}

impl View for FallbackPolicy {
    type V = FallbackView;

    open spec fn view(&self) -> FallbackView {
        FallbackView { strategy: self.strategy@, executors: json::views(self.executors@) }
    }
}

impl View for ReliabilityPolicy {
    type V = PolicyView;

    open spec fn view(&self) -> PolicyView {
        PolicyView {
            timeout_ms: self.timeout_ms,
            retry: match self.retry {
                Some(r) => Some(r@),
                None => None,
            },
            fallback: match self.fallback {
                Some(f) => Some(f@),
                None => None,
            },
        }
    }
}

/// The number of attempts of a policy that does not say.
pub fn one() -> (r: u32)
    ensures
        r == 1,
{
    1
}

/// The failures that are worth another attempt, unless a policy says otherwise.
pub open spec fn default_retries() -> Seq<Seq<char>> {
    seq!["timeout"@, "transient_error"@, "rate_limited"@]
}

/// The failures that are worth another attempt, unless a policy says otherwise.
pub fn default_retry_on() -> (r: Vec<String>)
    ensures
        text::texts(r@) == default_retries(),
{
    let mut v: Vec<String> = Vec::new();
    v.push("timeout".to_owned());
    v.push("transient_error".to_owned());
    v.push("rate_limited".to_owned());
    assert(text::texts(v@) =~= default_retries());
    v
}

/// The strategy of a fallback policy that does not say.
pub fn first_success() -> (r: String)
    ensures
        r@ == "first_success"@,
{
    "first_success".to_owned()
}

/// One attempt, without delay.
pub open spec fn default_retry() -> RetryView {
    RetryView {
        max_attempts: 1,
        backoff: Backoff::Immediate,
        initial_delay_ms: 0,
        max_delay_ms: None,
        retry_on: default_retries(),
    }
}

impl Default for RetryPolicy {
    /// One attempt, without delay.
    fn default() -> (r: RetryPolicy)
        ensures
            r@ == default_retry(),
    {
        RetryPolicy {
            max_attempts: 1,
            backoff: Backoff::Immediate,
            initial_delay_ms: 0,
            max_delay_ms: None,
            retry_on: default_retry_on(),
        }
    }
}

impl RetryPolicy {
    /// A copy of the policy.
    pub fn dup(&self) -> (r: RetryPolicy)
        ensures
            r@ == self@,
    {
        RetryPolicy {
            max_attempts: self.max_attempts,
            backoff: self.backoff,
            initial_delay_ms: self.initial_delay_ms,
            max_delay_ms: self.max_delay_ms,
            retry_on: text::copy_texts(&self.retry_on),
        }
    }
}

/// No timeout, no retry, no fallback.
pub open spec fn default_policy() -> PolicyView {
    PolicyView { timeout_ms: None, retry: None, fallback: None }
}

impl Default for ReliabilityPolicy {
    /// No timeout, no retry, no fallback.
    fn default() -> (r: ReliabilityPolicy)
        ensures
            r@ == default_policy(),
    {
        ReliabilityPolicy { timeout_ms: None, retry: None, fallback: None }
    }
}

// ---------------------------------------------------------------------------
// The wire format
// ---------------------------------------------------------------------------

/// A part of a policy. An object holds it under its name, and a list at its place.
pub open spec fn part(v: Json, key: Seq<char>, i: int) -> Option<Json> {
    match v {
        Json::Array(s) => if i < s.len() {
            Some(s[i])
        } else {
            None
        },
        _ => v.get(key),
    }
}

fn part_of<'a>(v: &'a Value, key: &str, i: usize) -> (r: Option<&'a Value>)
    ensures
        json::opt_view(r) == part(v@, key@, i as int),
{
    match v {
        Value::Array(s) => {
            if i < s.len() {
                assert(json::views(s@)[i as int] == s@[i as int]@);
                Some(&s[i])
            } else {
                None
            }
        },
        _ => v.get(key),
    }
}

/// The value has parts: it is an object, or a list of no more than `n` of them.
pub open spec fn has_parts(v: Json, n: nat) -> bool {
    match v {
        Json::Object(_) => true,
        Json::Array(s) => s.len() <= n,
        _ => false,
    }
}

fn can_have_parts(v: &Value, n: usize) -> (r: bool)
    ensures
        r == has_parts(v@, n as nat),
{
    match v {
        Value::Object(_) => true,
        Value::Array(s) => s.len() <= n,
        _ => false,
    }
}

/// An optional number of a policy: `Some(None)` when absent or null, `None` when
/// it is no non-negative integer.
pub open spec fn optional_number(o: Option<Json>) -> Option<Option<u64>> {
    match o {
        None => Some(None),
        Some(Json::Null) => Some(None),
        Some(Json::Number(Number::PosInt(n))) => Some(Some(n)),
        Some(_) => None,
    }
}

fn optional_number_of(o: Option<&Value>) -> (r: Option<Option<u64>>)
    ensures
        r == optional_number(json::opt_view(o)),
{
    match o {
        None => Some(None),
        Some(Value::Null) => Some(None),
        Some(Value::Number(Number::PosInt(n))) => Some(Some(*n)),
        Some(_) => None,
    }
}

/// A number of a policy with a default; `None` when it is no non-negative
/// integer.
pub open spec fn number_else(o: Option<Json>, default: u64) -> Option<u64> {
    match o {
        None => Some(default),
        Some(Json::Number(Number::PosInt(n))) => Some(n),
        Some(_) => None,
    }
}

fn number_or(o: Option<&Value>, default: u64) -> (r: Option<u64>)
    ensures
        r == number_else(json::opt_view(o), default),
{
    match o {
        None => Some(default),
        Some(Value::Number(Number::PosInt(n))) => Some(*n),
        Some(_) => None,
    }
}

/// The backoff of a name.
pub open spec fn backoff_named(s: Seq<char>) -> Option<Backoff> {
    if s == "none"@ {
        Some(Backoff::Immediate)
    } else if s == "fixed"@ {
        Some(Backoff::Fixed)
    } else if s == "exponential"@ {
        Some(Backoff::Exponential)
    } else {
        None
    }
}

fn backoff_of_name(s: &str) -> (r: Option<Backoff>)
    ensures
        r == backoff_named(s@),
{
    if text::str_eq(s, "none") {
        Some(Backoff::Immediate)
    } else if text::str_eq(s, "fixed") {
        Some(Backoff::Fixed)
    } else if text::str_eq(s, "exponential") {
        Some(Backoff::Exponential)
    } else {
        None
    }
}

/// The backoff that a policy declares: by its name, or by its name as the one key of
/// an object, bound to null.
pub open spec fn declared_backoff(o: Option<Json>) -> Option<Backoff> {
    match o {
        None => Some(Backoff::Immediate),
        Some(Json::String(s)) => backoff_named(s),
        Some(Json::Object(e)) => if e.len() == 1 && e[0].1 is Null {
            backoff_named(e[0].0)
        } else {
            None
        },
        Some(_) => None,
    }
}

fn declared_backoff_of(o: Option<&Value>) -> (r: Option<Backoff>)
    ensures
        r == declared_backoff(json::opt_view(o)),
{
    match o {
        None => Some(Backoff::Immediate),
        Some(Value::String(s)) => backoff_of_name(s.as_str()),
        Some(Value::Object(e)) => {
            let ghost es = json::entries(e@);
            assert(es.len() == e@.len());
            if e.len() != 1 {
                return None;
            }
            assert(es[0] == (e@[0].0@, e@[0].1@));
            match &e[0].1 {
                Value::Null => backoff_of_name(e[0].0.as_str()),
                _ => None,
            }
        },
        Some(_) => None,
    }
}

/// The texts of the first `n` items, when each of them is a string.
pub open spec fn all_strings(items: Seq<Json>, n: int) -> Option<Seq<Seq<char>>>
    decreases n,
{
    if n <= 0 {
        Some(Seq::empty())
    } else {
        match (all_strings(items, n - 1), items[n - 1].as_str()) {
            (Some(before), Some(s)) => Some(before.push(s)),
            _ => None,
        }
    }
}

/// An item that is no string leaves none for the whole.
proof fn lemma_all_strings_none(items: Seq<Json>, i: int, n: int)
    requires
        0 <= i <= n,
        all_strings(items, i) is None,
    ensures
        all_strings(items, n) is None,
    decreases n - i,
{
    if i < n {
        lemma_all_strings_none(items, i + 1, n);
    }
}

/// The texts of a list of values, when each of them is a string.
pub fn strings_of(items: &Vec<Value>) -> (r: Option<Vec<String>>)
    ensures
        match r {
            Some(v) => all_strings(json::views(items@), items@.len() as int) == Some(
                text::texts(v@),
            ),
            None => all_strings(json::views(items@), items@.len() as int) is None,
        },
{
    let ghost js = json::views(items@);
    let mut out: Vec<String> = Vec::new();
    let mut i: usize = 0;
    assert(text::texts(out@) =~= Seq::empty());
    while i < items.len()
        invariant
            i <= items.len(),
            js == json::views(items@),
            all_strings(js, i as int) == Some(text::texts(out@)),
        decreases items.len() - i,
    {
        assert(js[i as int] == items@[i as int]@);
        match items[i].as_str() {
            Some(s) => {
                let t = s.to_owned();
                proof {
                    text::lemma_texts_push(out@, t);
                }
                out.push(t);
            },
            None => {
                proof {
                    lemma_all_strings_none(js, i + 1, js.len() as int);
                }
                return None;
            },
        }
        i = i + 1;
    }
    Some(out)
}

/// The failures that a policy retries on.
pub open spec fn declared_retry_on(o: Option<Json>) -> Option<Seq<Seq<char>>> {
    match o {
        None => Some(default_retries()),
        Some(Json::Array(items)) => all_strings(items, items.len() as int),
        Some(_) => None,
    }
}

fn declared_retry_on_of(o: Option<&Value>) -> (r: Option<Vec<String>>)
    ensures
        match r {
            Some(s) => declared_retry_on(json::opt_view(o)) == Some(text::texts(s@)),
            None => declared_retry_on(json::opt_view(o)) is None,
        },
{
    match o {
        None => Some(default_retry_on()),
        Some(Value::Array(items)) => strings_of(items),
        Some(_) => None,
    }
}

/// The retry policy that a value declares.
pub open spec fn declared_retry(v: Json) -> Option<RetryView> {
    match (
        number_else(part(v, "maxAttempts"@, 0), 1),
        declared_backoff(part(v, "backoff"@, 1)),
        number_else(part(v, "initialDelayMs"@, 2), 0),
        optional_number(part(v, "maxDelayMs"@, 3)),
        declared_retry_on(part(v, "retryOn"@, 4)),
    ) {
        (Some(n), Some(backoff), Some(initial), Some(max), Some(retry_on)) => if has_parts(v, 5)
            && n <= u32::MAX {
            Some(
                RetryView {
                    max_attempts: n as u32,
                    backoff,
                    initial_delay_ms: initial,
                    max_delay_ms: max,
                    retry_on,
                },
            )
        } else {
            None
        },
        _ => None,
    }
}

fn declared_retry_of(v: &Value) -> (r: Option<RetryPolicy>)
    ensures
        match r {
            Some(p) => declared_retry(v@) == Some(p@),
            None => declared_retry(v@) is None,
        },
{
    match (
        number_or(part_of(v, "maxAttempts", 0), 1),
        declared_backoff_of(part_of(v, "backoff", 1)),
        number_or(part_of(v, "initialDelayMs", 2), 0),
        optional_number_of(part_of(v, "maxDelayMs", 3)),
        declared_retry_on_of(part_of(v, "retryOn", 4)),
    ) {
        (Some(n), Some(backoff), Some(initial), Some(max), Some(retry_on)) => {
            if can_have_parts(v, 5) && n <= u32::MAX as u64 {
                Some(
                    RetryPolicy {
                        max_attempts: n as u32,
                        backoff,
                        initial_delay_ms: initial,
                        max_delay_ms: max,
                        retry_on,
                    },
                )
            } else {
                None
            }
        },
        _ => None,
    }
}

/// The fallback policy that a value declares.
pub open spec fn declared_fallback(v: Json) -> Option<FallbackView> {
    match (
        match part(v, "strategy"@, 0) {
            None => Some("first_success"@),
            Some(s) => s.as_str(),
        },
        part(v, "executors"@, 1),
    ) {
        (Some(strategy), Some(Json::Array(executors))) => if has_parts(v, 2) {
            Some(FallbackView { strategy, executors })
        } else {
            None
        },
        _ => None,
    }
}

fn declared_fallback_of(v: &Value) -> (r: Option<FallbackPolicy>)
    ensures
        match r {
            Some(p) => declared_fallback(v@) == Some(p@),
            None => declared_fallback(v@) is None,
        },
{
    let strategy: Option<String> = match part_of(v, "strategy", 0) {
        None => Some(first_success()),
        Some(s) => text::opt_owned(s.as_str()),
    };
    match (strategy, part_of(v, "executors", 1)) {
        (Some(strategy), Some(Value::Array(executors))) => {
            if can_have_parts(v, 2) {
                Some(FallbackPolicy { strategy, executors: copy_values(executors) })
            } else {
                None
            }
        },
        _ => None,
    }
}

/// A copy of a list of values.
pub fn copy_values(v: &Vec<Value>) -> (r: Vec<Value>)
    ensures
        json::views(r@) == json::views(v@),
{
    let mut out: Vec<Value> = Vec::new();
    append_values(&mut out, v);
    assert(json::views(out@) =~= json::views(v@));
    out
}

/// Appends copies of the values of `from` to `to`.
pub fn append_values(to: &mut Vec<Value>, from: &Vec<Value>)
    ensures
        json::views(final(to)@) == json::views(old(to)@) + json::views(from@),
{
    let ghost before = json::views(to@);
    let mut i: usize = 0;
    while i < from.len()
        invariant
            i <= from.len(),
            json::views(to@) == before + json::views(from@).take(i as int),
        decreases from.len() - i,
    {
        let x = from[i].dup();
        proof {
            json::lemma_views_push(to@, x);
        }
        to.push(x);
        i = i + 1;
    }
    assert(json::views(from@).take(i as int) =~= json::views(from@));
}

/// An optional part of a policy: `Some(None)` when absent or null, `None` when
/// malformed.
pub open spec fn retry_part(v: Json) -> Option<Option<RetryView>> {
    match part(v, "retry"@, 1) {
        None => Some(None),
        Some(Json::Null) => Some(None),
        Some(r) => match declared_retry(r) {
            Some(p) => Some(Some(p)),
            None => None,
        },
    }
}

/// An optional part of a policy.
pub open spec fn fallback_part(v: Json) -> Option<Option<FallbackView>> {
    match part(v, "fallback"@, 2) {
        None => Some(None),
        Some(Json::Null) => Some(None),
        Some(f) => match declared_fallback(f) {
            Some(p) => Some(Some(p)),
            None => None,
        },
    }
}

/// The policy that a value declares. A value that is malformed in any part
/// declares the default policy.
pub open spec fn declared_policy(v: Json) -> PolicyView {
    match (optional_number(part(v, "timeoutMs"@, 0)), retry_part(v), fallback_part(v)) {
        (Some(timeout_ms), Some(retry), Some(fallback)) => if has_parts(v, 3) {
            PolicyView { timeout_ms, retry, fallback }
        } else {
            default_policy()
        },
        _ => default_policy(),
    }
}

impl ReliabilityPolicy {
    /// The policy that a value declares; the default policy without one.
    pub fn from_value(value: Option<&Value>) -> (r: ReliabilityPolicy)
        ensures
            r@ == match json::opt_view(value) {
                Some(v) => declared_policy(v),
                None => default_policy(),
            },
    {
        let v = match value {
            Some(v) => v,
            None => {
                return ReliabilityPolicy::default();
            },
        };
        let retry: Option<Option<RetryPolicy>> = match part_of(v, "retry", 1) {
            None => Some(None),
            Some(Value::Null) => Some(None),
            Some(r) => match declared_retry_of(r) {
                Some(p) => Some(Some(p)),
                None => None,
            },
        };
        let fallback: Option<Option<FallbackPolicy>> = match part_of(v, "fallback", 2) {
            None => Some(None),
            Some(Value::Null) => Some(None),
            Some(f) => match declared_fallback_of(f) {
                Some(p) => Some(Some(p)),
                None => None,
            },
        };
        match (optional_number_of(part_of(v, "timeoutMs", 0)), retry, fallback) {
            (Some(timeout_ms), Some(retry), Some(fallback)) => {
                if can_have_parts(v, 3) {
                    ReliabilityPolicy { timeout_ms, retry, fallback }
                } else {
                    ReliabilityPolicy::default()
                }
            },
            _ => ReliabilityPolicy::default(),
        }
    }

    /// The retry policy; the default one without one.
    pub fn retry(&self) -> (r: RetryPolicy)
        ensures
            r@ == match self@.retry {
                Some(p) => p,
                None => default_retry(),
            },
    {
        match &self.retry {
            Some(p) => p.dup(),
            None => RetryPolicy::default(),
        }
    }

    /// The time after which an attempt is given up, in milliseconds.
    pub fn timeout(&self) -> (r: Option<u64>)
        ensures
            r == self@.timeout_ms,
    {
        self.timeout_ms
    }
}

// ---------------------------------------------------------------------------
// Decisions
// ---------------------------------------------------------------------------

/// The key that marks every attempt of one call: `true` asks for the automatic
/// key, a string is a template.
pub open spec fn idempotency_key(
    primary: Json,
    workflow_id: Seq<char>,
    transition: Option<Seq<char>>,
    correlation_id: Seq<char>,
) -> Option<Seq<char>> {
    let name = match transition {
        Some(t) => t,
        None => "on_enter"@,
    };
    match primary.get("idempotencyKey"@) {
        Some(Json::Bool(true)) => Some(workflow_id + "."@ + name + "."@ + correlation_id),
        Some(Json::String(template)) => Some(
            text::replaced(
                text::replaced(
                    text::replaced(template, "{workflowId}"@, workflow_id),
                    "{transition}"@,
                    name,
                ),
                "{correlationId}"@,
                correlation_id,
            ),
        ),
        _ => None,
    }
}

/// The key that marks every attempt of one call.
pub fn compute_idempotency_key(
    primary_executor: &Value,
    workflow_id: &str,
    transition: Option<&str>,
    correlation_id: &str,
) -> (r: Option<String>)
    ensures
        text::opt_text(r) == idempotency_key(
            primary_executor@,
            workflow_id@,
            text::opt_str(transition),
            correlation_id@,
        ),
{
    let name = match transition {
        Some(t) => t,
        None => "on_enter",
    };
    match primary_executor.get("idempotencyKey") {
        Some(Value::Bool(true)) => Some(text::join5(workflow_id, ".", name, ".", correlation_id)),
        Some(Value::String(template)) => {
            proof {
                reveal_strlit("{workflowId}");
                reveal_strlit("{transition}");
                reveal_strlit("{correlationId}");
            }
            let a = text::replace_text(template.as_str(), "{workflowId}", workflow_id);
            let b = text::replace_text(a.as_str(), "{transition}", name);
            let c = text::replace_text(b.as_str(), "{correlationId}", correlation_id);
            Some(c)
        },
        _ => None,
    }
}

/// Whether a failure of the given class is worth another attempt.
pub open spec fn retries_on(retry: RetryView, class: ErrorClass) -> bool {
    retry.retry_on.contains(class.token_text())
}

/// Whether a failure of the given class is worth another attempt.
pub fn retryable(retry: &RetryPolicy, class: ErrorClass) -> (r: bool)
    ensures
        r == retries_on(retry@, class),
{
    text::has_text(&retry.retry_on, class.token())
}

/// Two to the power of `n`.
pub open spec fn power_of_two(n: nat) -> nat
    decreases n,
{
    if n == 0 {
        1
    } else {
        2 * power_of_two((n - 1) as nat)
    }
}

/// The smaller of two numbers.
pub open spec fn smaller(a: int, b: int) -> int {
    if a <= b {
        a
    } else {
        b
    }
}

/// The delay before the attempt after the given one, in milliseconds: none, the
/// initial delay, or the initial delay doubled with each attempt (at most twenty
/// times); never more than the policy's maximum, nor than fits.
pub open spec fn delay_after(retry: RetryView, attempt: u32) -> int {
    let doublings = smaller(if attempt == 0 { 0 } else { attempt - 1 }, 20);
    let raw = match retry.backoff {
        Backoff::Immediate => 0,
        Backoff::Fixed => retry.initial_delay_ms as int,
        Backoff::Exponential => smaller(
            retry.initial_delay_ms * power_of_two(doublings as nat),
            u64::MAX as int,
        ),
    };
    match retry.max_delay_ms {
        Some(max) => smaller(raw, max as int),
        None => raw,
    }
}

/// The delay before the attempt after the given one, in milliseconds.
pub fn backoff_delay(retry: &RetryPolicy, attempt: u32) -> (r: u64)
    ensures
        r == delay_after(retry@, attempt),
{
    let base: u64 = retry.initial_delay_ms;
    let raw: u64 = match retry.backoff {
        Backoff::Immediate => 0,
        Backoff::Fixed => base,
        Backoff::Exponential => {
            let before: u32 = if attempt == 0 {
                0
            } else {
                attempt - 1
            };
            let doublings: u32 = if before <= 20 {
                before
            } else {
                20
            };
            let mut p: u64 = 1;
            let mut i: u32 = 0;
            assert(power_of_two(20) == 0x10_0000) by {
                reveal_with_fuel(power_of_two, 21);
            }
            while i < doublings
                invariant
                    i <= doublings <= 20,
                    p == power_of_two(i as nat),
                    p <= 0x10_0000 && i <= 20,
                    p * power_of_two((20 - i) as nat) <= 0x10_0000,
                    power_of_two((20 - i) as nat) >= 1,
                decreases doublings - i,
            {
                proof {
                    lemma_power_positive((20 - i - 1) as nat);
                    assert(p * (2 * power_of_two((20 - i - 1) as nat)) == (2 * p) * power_of_two(
                        (20 - i - 1) as nat,
                    )) by (nonlinear_arith);
                    assert(2 * p <= 0x10_0000) by (nonlinear_arith)
                        requires
                            (2 * p) * power_of_two((20 - i - 1) as nat) <= 0x10_0000,
                            power_of_two((20 - i - 1) as nat) >= 1,
                    ;
                }
                p = 2 * p;
                i = i + 1;
            }
            let wide: u128 = base as u128;
            assert(wide * p <= 0x10_0000 * 0xffff_ffff_ffff_ffff) by (nonlinear_arith)
                requires
                    wide <= 0xffff_ffff_ffff_ffff,
                    p <= 0x10_0000,
            ;
            let product: u128 = wide * (p as u128);
            if product <= u64::MAX as u128 {
                product as u64
            } else {
                u64::MAX
            }
        },
    };
    match retry.max_delay_ms {
        Some(max) => if raw <= max {
            raw
        } else {
            max
        },
        None => raw,
    }
}

/// A power of two is at least one.
proof fn lemma_power_positive(n: nat)
    ensures
        power_of_two(n) >= 1,
    decreases n,
{
    if n > 0 {
        lemma_power_positive((n - 1) as nat);
    }
}

/// A failure, where there was one.
pub open spec fn last_failure(e: Option<ExecutorError>) -> Option<ExecutorErrorView> {
    match e {
        Some(x) => Some(x@),
        None => None,
    }
}

/// Where the attempts stand.
#[derive(Debug, Clone, Copy, PartialEq, Eq, Structural)]
pub enum AttemptPhase {
    /// The executor of the current candidate is being looked up.
    Finding,
    /// The current candidate is being run.
    Running,
    /// The delay before the next attempt is running.
    Waiting,
    /// There is nothing more to do.
    Finished,
}

/// What is tried, and how far that has come.
#[derive(Debug)]
pub struct Attempts {
    pub workflow_id: String,
    pub transition: Option<String>,
    pub correlation_id: String,
    pub idempotency_key: Option<String>,
    pub retry: RetryPolicy,
    pub candidates: Vec<Value>,
    pub candidate: usize,
    pub attempt: u32,
    pub last: Option<ExecutorError>,
    pub phase: AttemptPhase,
}

/// The attempts as mathematical values.
pub struct AttemptsView {
    pub workflow_id: Seq<char>,
    pub transition: Option<Seq<char>>,
    pub correlation_id: Seq<char>,
    pub idempotency_key: Option<Seq<char>>,
    pub retry: RetryView,
    pub candidates: Seq<Json>,
    pub candidate: int,
    pub attempt: u32,
    pub last: Option<ExecutorErrorView>,
    pub phase: AttemptPhase,
}

impl View for Attempts {
    type V = AttemptsView;

    open spec fn view(&self) -> AttemptsView {
        AttemptsView {
            workflow_id: self.workflow_id@,
            transition: text::opt_text(self.transition),
            correlation_id: self.correlation_id@,
            idempotency_key: text::opt_text(self.idempotency_key),
            retry: self.retry@,
            candidates: json::views(self.candidates@),
            candidate: self.candidate as int,
            attempt: self.attempt,
            last: last_failure(self.last),
            phase: self.phase,
        }
    }
}

/// What happened since the last decision.
#[derive(Debug)]
pub enum AttemptEvent {
    /// The executor kind is registered, or it is not.
    Found(bool),
    /// The executor succeeded.
    Succeeded,
    /// The executor failed or ran out of time.
    Failed(ExecutorError),
    /// The delay is over.
    Slept,
}

/// What to do next.
#[derive(Debug)]
pub enum AttemptAction {
    /// Look up the executor kind of the current candidate.
    Find(String),
    /// Run the current candidate.
    Run,
    /// Wait for the given number of milliseconds.
    Sleep(u64),
    /// Hand back the result.
    Succeed,
    /// Hand back the failure.
    Fail(ExecutorError),
    /// The event does not fit where the attempts stand: there is nothing to do.
    Ignore,
}

/// An action as mathematical values.
pub enum AttemptActionView {
    Find(Seq<char>),
    Run,
    Sleep(u64),
    Succeed,
    Fail(ExecutorErrorView),
    Ignore,
}

impl View for AttemptAction {
    type V = AttemptActionView;

    open spec fn view(&self) -> AttemptActionView {
        match self {
            AttemptAction::Find(k) => AttemptActionView::Find(k@),
            AttemptAction::Run => AttemptActionView::Run,
            AttemptAction::Sleep(ms) => AttemptActionView::Sleep(*ms),
            AttemptAction::Succeed => AttemptActionView::Succeed,
            AttemptAction::Fail(e) => AttemptActionView::Fail(e@),
            AttemptAction::Ignore => AttemptActionView::Ignore,
        }
    }
}

/// An optional text as a value.
pub open spec fn text_or_null(o: Option<Seq<char>>) -> Json {
    match o {
        Some(s) => Json::String(s),
        None => Json::Null,
    }
}

/// An optional text as a value.
pub fn text_or_null_of(o: Option<&str>) -> (r: Value)
    ensures
        r@ == text_or_null(text::opt_str(o)),
{
    match o {
        Some(s) => Value::text(s),
        None => Value::Null,
    }
}

impl AttemptsView {
    /// The executor kind of the current candidate.
    pub open spec fn kind(self) -> Seq<char> {
        match self.candidates[self.candidate].str_at("kind"@) {
            Some(k) => k,
            None => Seq::empty(),
        }
    }

    /// The attempts have a candidate, and count attempts from one up to the
    /// policy's number.
    pub open spec fn wf(self) -> bool {
        &&& 0 <= self.candidate
        &&& self.phase != AttemptPhase::Finished ==> self.candidate < self.candidates.len()
        &&& self.phase == AttemptPhase::Running ==> 1 <= self.attempt && (self.attempt == 1
            || self.attempt <= self.retry.max_attempts)
        &&& self.phase == AttemptPhase::Waiting ==> 1 <= self.attempt
            < self.retry.max_attempts
    }

    /// An audit event about these attempts.
    pub open spec fn event(self, event_type: Seq<char>, payload: Json) -> AuditEventView {
        AuditEventView {
            workflow_id: Some(self.workflow_id),
            payload,
            ..AuditEventView::bare(event_type, self.correlation_id)
        }
    }

    /// What every event about the current candidate says.
    pub open spec fn about_candidate(self) -> Json {
        Json::empty().with("transition"@, text_or_null(self.transition)).with(
            "candidate"@,
            Json::Number(Number::PosInt(self.candidate as u64)),
        ).with("kind"@, Json::String(self.kind()))
    }

    /// What every event about the current attempt says.
    pub open spec fn about_attempt(self) -> Json {
        self.about_candidate().with("attempt"@, Json::Number(Number::PosInt(self.attempt as u64)))
    }

    /// What an event about a failed attempt says.
    pub open spec fn about_failure(self, e: ExecutorErrorView) -> Json {
        self.about_attempt().with("errorClass"@, Json::String(e.class_of().token_text())).with(
            "error"@,
            Json::String(e.message_text()),
        )
    }

    /// The event that an attempt begins.
    pub open spec fn started(self) -> AuditEventView {
        self.event(
            "executor.started"@,
            self.about_attempt().with("idempotencyKey"@, text_or_null(self.idempotency_key)),
        )
    }

    /// Turns to a candidate: looks its executor up, or gives up when there is no
    /// such candidate.
    pub open spec fn turned_to(self, candidate: int) -> (
        AttemptsView,
        Seq<AuditEventView>,
        AttemptActionView,
    ) {
        if candidate >= self.candidates.len() {
            (
                AttemptsView { candidate, phase: AttemptPhase::Finished, ..self },
                Seq::empty(),
                AttemptActionView::Fail(
                    match self.last {
                        Some(e) => e,
                        None => ExecutorErrorView::Permanent("no executor candidates"@),
                    },
                ),
            )
        } else {
            let s = AttemptsView { candidate, phase: AttemptPhase::Finding, ..self };
            let events = if candidate > 0 {
                seq![
                    s.event(
                        "fallback.selected"@,
                        s.about_candidate().with(
                            "previousError"@,
                            text_or_null(
                                match self.last {
                                    Some(e) => Some(e.message_text()),
                                    None => None,
                                },
                            ),
                        ),
                    ),
                ]
            } else {
                Seq::empty()
            };
            (s, events, AttemptActionView::Find(s.kind()))
        }
    }

    /// Begins an attempt on the current candidate.
    pub open spec fn attempting(self, attempt: u32) -> AttemptsView {
        AttemptsView { attempt, phase: AttemptPhase::Running, ..self }
    }

    /// The failure of a candidate whose kind nobody registered.
    pub open spec fn not_registered(self) -> ExecutorErrorView {
        ExecutorErrorView::Permanent(
            "executor kind '"@ + self.kind() + "' is not registered"@,
        )
    }

    /// Whether the failure of the current attempt leads to another one. An output
    /// that violates its schema is never tried again, whatever the policy says.
    pub open spec fn tries_again(self, e: ExecutorErrorView) -> bool {
        self.attempt < self.retry.max_attempts && !(e is SchemaViolation) && retries_on(
            self.retry,
            e.class_of(),
        )
    }

    /// Looking up the current candidate has ended.
    pub open spec fn after_found(self, found: bool) -> (
        AttemptsView,
        Seq<AuditEventView>,
        AttemptActionView,
    ) {
        if found {
            let s = self.attempting(1);
            (s, seq![s.started()], AttemptActionView::Run)
        } else {
            AttemptsView { last: Some(self.not_registered()), ..self }.turned_to(
                self.candidate + 1,
            )
        }
    }

    /// The current attempt has failed.
    pub open spec fn after_failed(self, e: ExecutorErrorView) -> (
        AttemptsView,
        Seq<AuditEventView>,
        AttemptActionView,
    ) {
        let failed = AttemptsView { last: Some(e), ..self };
        if self.tries_again(e) {
            let retrying = self.event("executor.retrying"@, self.about_failure(e));
            let delay = delay_after(self.retry, self.attempt);
            if delay > 0 {
                (
                    AttemptsView { phase: AttemptPhase::Waiting, ..failed },
                    seq![retrying],
                    AttemptActionView::Sleep(delay as u64),
                )
            } else {
                let s = failed.attempting((self.attempt + 1) as u32);
                (s, seq![retrying, s.started()], AttemptActionView::Run)
            }
        } else {
            let given_up = self.event("executor.failed"@, self.about_failure(e));
            let (s, events, action) = failed.turned_to(self.candidate + 1);
            (s, seq![given_up] + events, action)
        }
    }

    /// The current attempt has succeeded.
    pub open spec fn after_succeeded(self) -> (
        AttemptsView,
        Seq<AuditEventView>,
        AttemptActionView,
    ) {
        (
            AttemptsView { phase: AttemptPhase::Finished, ..self },
            seq![self.event("executor.succeeded"@, self.about_attempt())],
            AttemptActionView::Succeed,
        )
    }

    /// The delay before the next attempt is over.
    pub open spec fn after_slept(self) -> (AttemptsView, Seq<AuditEventView>, AttemptActionView) {
        let s = self.attempting((self.attempt + 1) as u32);
        (s, seq![s.started()], AttemptActionView::Run)
    }

    /// What follows an event: the attempts after it, the audit events to record,
    /// and what to do next.
    pub open spec fn next(self, event: AttemptEvent) -> (
        AttemptsView,
        Seq<AuditEventView>,
        AttemptActionView,
    ) {
        match (self.phase, event) {
            (AttemptPhase::Finding, AttemptEvent::Found(found)) => self.after_found(found),
            (AttemptPhase::Running, AttemptEvent::Succeeded) => self.after_succeeded(),
            (AttemptPhase::Running, AttemptEvent::Failed(e)) => self.after_failed(e@),
            (AttemptPhase::Waiting, AttemptEvent::Slept) => self.after_slept(),
            _ => (self, Seq::empty(), AttemptActionView::Ignore),
        }
    }
}

/// The attempts at the beginning: the executor itself first, then the fallbacks
/// in the order in which they are declared.
pub open spec fn initial_attempts(
    primary: Json,
    policy: PolicyView,
    workflow_id: Seq<char>,
    transition: Option<Seq<char>>,
    correlation_id: Seq<char>,
) -> AttemptsView {
    AttemptsView {
        workflow_id,
        transition,
        correlation_id,
        idempotency_key: idempotency_key(primary, workflow_id, transition, correlation_id),
        retry: match policy.retry {
            Some(r) => r,
            None => default_retry(),
        },
        candidates: seq![primary] + match policy.fallback {
            Some(f) => f.executors,
            None => Seq::empty(),
        },
        candidate: 0,
        attempt: 0,
        last: None,
        phase: AttemptPhase::Finding,
    }
}

fn push_event(events: &mut Vec<AuditEvent>, e: AuditEvent)
    ensures
        audit::event_views(final(events)@) == audit::event_views(old(events)@).push(
            e@,
        ),
        audit::all_named(old(events)@) && audit::is_event_id(e.id@) ==> audit::all_named(
            final(events)@,
        ),
{
    let ghost before = events@;
    events.push(e);
    assert(audit::event_views(events@) =~= audit::event_views(before).push(e@));
}

impl Attempts {
    /// Begins: the attempts, and the executor kind to look up first.
    pub fn begin(
        primary: &Value,
        policy: &ReliabilityPolicy,
        workflow_id: &str,
        transition: Option<&str>,
        correlation_id: &str,
    ) -> (r: (Attempts, AttemptAction))
        ensures
            r.0@ == initial_attempts(
                primary@,
                policy@,
                workflow_id@,
                text::opt_str(transition),
                correlation_id@,
            ),
            r.0@.wf(),
            r.1@ == AttemptActionView::Find(r.0@.kind()),
    {
        let key = compute_idempotency_key(primary, workflow_id, transition, correlation_id);
        let mut candidates: Vec<Value> = Vec::new();
        candidates.push(primary.dup());
        assert(json::views(candidates@) =~= seq![primary@]);
        if let Some(f) = &policy.fallback {
            append_values(&mut candidates, &f.executors);
        } else {
            assert(seq![primary@] + Seq::<Json>::empty() =~= seq![primary@]);
        }
        assert(json::views(candidates@).len() >= 1);
        let s = Attempts {
            workflow_id: workflow_id.to_owned(),
            transition: text::opt_owned(transition),
            correlation_id: correlation_id.to_owned(),
            idempotency_key: key,
            retry: policy.retry(),
            candidates,
            candidate: 0,
            attempt: 0,
            last: None,
            phase: AttemptPhase::Finding,
        };
        let kind = s.kind();
        (s, AttemptAction::Find(kind))
    }

    /// The executor kind of the current candidate.
    pub fn kind(&self) -> (r: String)
        requires
            self.candidate < self.candidates.len(),
        ensures
            r@ == self@.kind(),
    {
        match self.candidates[self.candidate].str_at("kind") {
            Some(k) => k.to_owned(),
            None => String::new(),
        }
    }

    fn event(&self, event_type: &str, payload: Value) -> (r: AuditEvent)
        ensures
            r@ == self@.event(event_type@, payload@),
            audit::is_event_id(r.id@),
    {
        AuditEvent::new(event_type).with_workflow(self.workflow_id.as_str()).with_correlation(
            self.correlation_id.as_str(),
        ).with_payload(payload)
    }

    fn about_candidate(&self) -> (r: Value)
        requires
            self.candidate < self.candidates.len(),
        ensures
            r@ == self@.about_candidate(),
    {
        let t = match &self.transition {
            Some(t) => Value::text(t.as_str()),
            None => Value::Null,
        };
        let kind = self.kind();
        Value::object().and("transition", t).and("candidate", Value::uint(self.candidate as u64)).and(
            "kind",
            Value::String(kind),
        )
    }

    fn about_attempt(&self) -> (r: Value)
        requires
            self.candidate < self.candidates.len(),
        ensures
            r@ == self@.about_attempt(),
    {
        self.about_candidate().and("attempt", Value::uint(self.attempt as u64))
    }

    fn about_failure(&self, e: &ExecutorError) -> (r: Value)
        requires
            self.candidate < self.candidates.len(),
        ensures
            r@ == self@.about_failure(e@),
    {
        let m = e.message();
        self.about_attempt().and("errorClass", Value::text(e.class().token())).and(
            "error",
            Value::String(m),
        )
    }

    fn started(&self) -> (r: AuditEvent)
        requires
            self.candidate < self.candidates.len(),
        ensures
            r@ == self@.started(),
            audit::is_event_id(r.id@),
    {
        let key = match &self.idempotency_key {
            Some(k) => Value::text(k.as_str()),
            None => Value::Null,
        };
        let payload = self.about_attempt().and("idempotencyKey", key);
        self.event("executor.started", payload)
    }

    /// Turns to the candidate after the current one.
    fn turn_to_next(&mut self, events: &mut Vec<AuditEvent>) -> (action: AttemptAction)
        requires
            old(self).candidate < old(self).candidates.len(),
        ensures
            ({
                let (s, more, a) = old(self)@.turned_to(old(self)@.candidate + 1);
                &&& final(self)@ == s
                &&& action@ == a
                &&& audit::event_views(final(events)@) == audit::event_views(
                    old(events)@,
                ) + more
            }),
            audit::all_named(old(events)@) ==> audit::all_named(final(events)@),
    {
        let ghost before = audit::event_views(events@);
        self.candidate = self.candidate + 1;
        if self.candidate >= self.candidates.len() {
            self.phase = AttemptPhase::Finished;
            assert(before + Seq::<AuditEventView>::empty() =~= before);
            return match &self.last {
                Some(e) => AttemptAction::Fail(e.dup()),
                None => AttemptAction::Fail(
                    ExecutorError::Permanent("no executor candidates".to_owned()),
                ),
            };
        }
        self.phase = AttemptPhase::Finding;
        let previous = match &self.last {
            Some(e) => {
                let m = e.message();
                Value::String(m)
            },
            None => Value::Null,
        };
        let payload = self.about_candidate().and("previousError", previous);
        let e = self.event("fallback.selected", payload);
        push_event(events, e);
        assert(before.push(e@) =~= before + seq![e@]);
        AttemptAction::Find(self.kind())
    }

    /// Decides what follows an event: the audit events to record, and what to do
    /// next.
    pub fn execute_with_reliability(&mut self, event: AttemptEvent) -> (r: (
        Vec<AuditEvent>,
        AttemptAction,
    ))
        requires
            old(self)@.wf(),
        ensures
            ({
                let (s, events, action) = old(self)@.next(event);
                &&& final(self)@ == s
                &&& audit::event_views(r.0@) == events
                &&& r.1@ == action
            }),
            final(self)@.wf(),
            audit::all_named(r.0@),
    {
        let mut events: Vec<AuditEvent> = Vec::new();
        assert(audit::event_views(events@) =~= Seq::empty());
        let ghost before = self@;
        match (self.phase, event) {
            (AttemptPhase::Finding, AttemptEvent::Found(found)) => {
                if found {
                    self.attempt = 1;
                    self.phase = AttemptPhase::Running;
                    let e = self.started();
                    push_event(&mut events, e);
                    assert(Seq::empty().push(e@) =~= seq![e@]);
                    (events, AttemptAction::Run)
                } else {
                    let kind = self.kind();
                    let m = text::join3("executor kind '", kind.as_str(), "' is not registered");
                    let e = ExecutorError::Permanent(m);
                    self.last = Some(e);
                    let action = self.turn_to_next(&mut events);
                    assert(Seq::<AuditEventView>::empty() + before.after_found(false).1
                        =~= before.after_found(false).1);
                    (events, action)
                }
            },
            (AttemptPhase::Running, AttemptEvent::Succeeded) => {
                let payload = self.about_attempt();
                let e = self.event("executor.succeeded", payload);
                push_event(&mut events, e);
                assert(Seq::empty().push(e@) =~= seq![e@]);
                self.phase = AttemptPhase::Finished;
                (events, AttemptAction::Succeed)
            },
            (AttemptPhase::Running, AttemptEvent::Failed(err)) => {
                let payload = self.about_failure(&err);
                let violation = match &err {
                    ExecutorError::SchemaViolation(_) => true,
                    _ => false,
                };
                if self.attempt < self.retry.max_attempts && !violation && retryable(
                    &self.retry,
                    err.class(),
                ) {
                    let e = self.event("executor.retrying", payload);
                    push_event(&mut events, e);
                    let delay = backoff_delay(&self.retry, self.attempt);
                    self.last = Some(err);
                    if delay > 0 {
                        assert(Seq::empty().push(e@) =~= seq![e@]);
                        self.phase = AttemptPhase::Waiting;
                        (events, AttemptAction::Sleep(delay))
                    } else {
                        self.attempt = self.attempt + 1;
                        self.phase = AttemptPhase::Running;
                        let e2 = self.started();
                        push_event(&mut events, e2);
                        assert(Seq::empty().push(e@).push(e2@) =~= seq![e@, e2@]);
                        (events, AttemptAction::Run)
                    }
                } else {
                    let e = self.event("executor.failed", payload);
                    push_event(&mut events, e);
                    self.last = Some(err);
                    assert(Seq::empty().push(e@) =~= seq![e@]);
                    let action = self.turn_to_next(&mut events);
                    (events, action)
                }
            },
            (AttemptPhase::Waiting, AttemptEvent::Slept) => {
                self.attempt = self.attempt + 1;
                self.phase = AttemptPhase::Running;
                let e = self.started();
                push_event(&mut events, e);
                assert(Seq::empty().push(e@) =~= seq![e@]);
                (events, AttemptAction::Run)
            },
            _ => (events, AttemptAction::Ignore),
        }
    }
}

// ---------------------------------------------------------------------------
// Laws
// ---------------------------------------------------------------------------

/// Every attempt of one call, on the executor itself and on every fallback,
/// carries the same idempotency key, and no step changes the list of candidates
/// or the policy.
pub proof fn law_same_key(s: AttemptsView, event: AttemptEvent)
    ensures
        s.next(event).0.idempotency_key == s.idempotency_key,
        s.next(event).0.candidates == s.candidates,
        s.next(event).0.retry == s.retry,
{
}

/// A candidate is run at most as often as the policy allows, and at least once:
/// whenever an attempt is due, its number is one or lies within the policy's
/// number of attempts.
pub proof fn law_attempts_bounded(s: AttemptsView, event: AttemptEvent)
    requires
        s.wf(),
    ensures
        s.next(event).0.wf(),
        s.next(event).2 is Run ==> s.next(event).0.attempt == 1 || s.next(event).0.attempt
            <= s.retry.max_attempts,
{
}

/// Candidates are tried in order: a step keeps the candidate or turns to the
/// next one, and turns only after a candidate was not registered or has failed
/// for good.
pub proof fn law_candidates_in_order(s: AttemptsView, event: AttemptEvent)
    ensures
        s.next(event).0.candidate == s.candidate || s.next(event).0.candidate == s.candidate + 1,
        s.next(event).0.candidate != s.candidate ==> (event matches AttemptEvent::Found(false)) || (
        event matches AttemptEvent::Failed(e) && !s.tries_again(e@)),
{
}

/// The attempts come to an end: every step that is not ignored turns to a later
/// candidate, begins a later attempt or a wait for one, or finishes.
pub open spec fn remaining(s: AttemptsView) -> (int, int, int) {
    (
        if s.phase == AttemptPhase::Finished {
            0
        } else {
            s.candidates.len() - s.candidate + 1
        },
        if s.phase == AttemptPhase::Finding {
            s.retry.max_attempts + 2
        } else {
            s.retry.max_attempts + 1 - s.attempt
        },
        if s.phase == AttemptPhase::Running {
            1
        } else {
            0
        },
    )
}

/// The attempts come to an end: each step that is not ignored makes what remains
/// smaller, in lexicographic order, and it never becomes negative.
pub proof fn law_attempts_end(s: AttemptsView, event: AttemptEvent)
    requires
        s.wf(),
        !(s.next(event).2 is Ignore),
    ensures
        ({
            let (a, b, c) = remaining(s);
            let (x, y, z) = remaining(s.next(event).0);
            &&& 0 <= x
            &&& x < a || (x == a && (y < b || (y == b && z < c)))
            &&& z >= 0
            &&& x > 0 ==> y >= 0
        }),
{
}

/// A success is handed back only when the executor succeeded, and what is handed
/// back in the end is the last failure.
pub proof fn law_outcome(s: AttemptsView, event: AttemptEvent)
    requires
        s.wf(),
    ensures
        s.next(event).2 is Succeed <==> (s.phase == AttemptPhase::Running && event is Succeeded),
        s.next(event).2 matches AttemptActionView::Fail(e) ==> s.next(event).0.last == Some(e),
{
}

/// An output that violates its schema ends its candidate: whatever the policy
/// retries on, that candidate is not run again.
pub proof fn law_schema_violations_are_not_retried(s: AttemptsView, e: ExecutorError)
    requires
        s.wf(),
        s.phase == AttemptPhase::Running,
        e@ is SchemaViolation,
    ensures
        s.next(AttemptEvent::Failed(e)).0.candidate == s.candidate + 1,
        s.next(AttemptEvent::Failed(e)).0.last == Some(e@),
        s.candidate + 1 == s.candidates.len() ==> s.next(AttemptEvent::Failed(e)).2
            == AttemptActionView::Fail(e@),
{
}

} // verus!
