//! What retries, delays and fallbacks are for: laws about the attempts of one call, read
//! from the policy and from the failures that come back.
use crate::error::{ExecutorError, ExecutorErrorView};
use crate::json;
use crate::json::{Json, Number};
use crate::reliability;
use crate::reliability::{
    AttemptActionView, AttemptEvent, AttemptPhase, AttemptsView, Backoff, PolicyView, RetryView,
};
use vstd::prelude::*;

verus! {

/// The word by which a policy names a failure.
pub open spec fn failure_word(e: ExecutorErrorView) -> Seq<char> {
    match e {
        ExecutorErrorView::Timeout(_) => "timeout"@,
        ExecutorErrorView::RateLimited(_) => "rate_limited"@,
        ExecutorErrorView::Connection(_) => "connection_error"@,
        ExecutorErrorView::Transient(_) => "transient_error"@,
        ExecutorErrorView::Permanent(_) => "permanent_error"@,
        ExecutorErrorView::SchemaViolation(_) => "permanent_error"@,
        ExecutorErrorView::Other(_) => "permanent_error"@,
    }
}

/// A candidate is not given up while it may be tried again: where an attempt fails with a
/// failure that the policy names, which is no violation of a schema, and the policy allows
/// more attempts, the candidate stays and the next attempt that is run on it has the next
/// number, at once or after the delay.
pub proof fn law_retried_while_allowed(s: AttemptsView, e: ExecutorError)
    requires
        s.wf(),
        s.phase == AttemptPhase::Running,
        s.attempt < s.retry.max_attempts,
        !(e@ is SchemaViolation),
        s.retry.retry_on.contains(failure_word(e@)),
    ensures
        ({
            let (t, _, action) = s.next(AttemptEvent::Failed(e));
            let (u, _, then) = t.next(AttemptEvent::Slept);
            &&& t.candidate == s.candidate
            &&& t.last == Some(e@)
            &&& action is Run || action is Sleep
            &&& action is Run ==> t.phase == AttemptPhase::Running && t.attempt == s.attempt + 1
            &&& action is Sleep ==> t.phase == AttemptPhase::Waiting && then is Run && u.phase
                == AttemptPhase::Running && u.candidate == s.candidate && u.attempt == s.attempt + 1
        }),
{
}

/// A candidate is given up when it must be: on a violation of a schema, on a failure that
/// the policy does not name, and after the last attempt that the policy allows. The next
/// candidate is looked up then, and after the last one the call fails with that failure.
pub proof fn law_given_up_when_exhausted(s: AttemptsView, e: ExecutorError)
    requires
        s.wf(),
        s.phase == AttemptPhase::Running,
        s.attempt >= s.retry.max_attempts || e@ is SchemaViolation || !s.retry.retry_on.contains(
            failure_word(e@),
        ),
    ensures
        ({
            let (t, _, action) = s.next(AttemptEvent::Failed(e));
            &&& t.candidate == s.candidate + 1
            &&& t.last == Some(e@)
            &&& s.candidate + 1 < s.candidates.len() ==> t.phase == AttemptPhase::Finding
                && action is Find
            &&& s.candidate + 1 >= s.candidates.len() ==> t.phase == AttemptPhase::Finished
                && action == AttemptActionView::Fail(e@)
        }),
{
}

/// A candidate that was found is run for the first time, and one that nobody registered is
/// passed over without a run.
pub proof fn law_found_is_run(s: AttemptsView)
    requires
        s.wf(),
        s.phase == AttemptPhase::Finding,
    ensures
        ({
            let (t, _, action) = s.next(AttemptEvent::Found(true));
            &&& action is Run
            &&& t.phase == AttemptPhase::Running
            &&& t.candidate == s.candidate
            &&& t.attempt == 1
        }),
        ({
            let (t, _, action) = s.next(AttemptEvent::Found(false));
            &&& !(action is Run)
            &&& t.candidate == s.candidate + 1
            &&& t.last matches Some(ExecutorErrorView::Permanent(_))
            &&& s.candidate + 1 < s.candidates.len() ==> t.phase == AttemptPhase::Finding
        }),
{
}

/// The executor that is looked up is the one that the candidate names by its kind, and a
/// success on it is the success of the call.
pub proof fn law_the_named_executor_is_run(s: AttemptsView, event: AttemptEvent, kind: Seq<char>)
    requires
        s.wf(),
        s.next(event).2 == AttemptActionView::Find(kind),
        s.phase != AttemptPhase::Finished,
    ensures
        ({
            let t = s.next(event).0;
            &&& t.candidate < t.candidates.len()
            &&& t.candidates[t.candidate].str_at("kind"@) matches Some(k) ==> kind == k
            &&& t.candidates[t.candidate].str_at("kind"@) is None ==> kind.len() == 0
        }),
{
}

/// The candidates of a call are the executor itself and then the fallbacks of the policy, in
/// their order, each once; the call begins with the executor itself, and without a retry
/// policy each is run once.
pub proof fn law_candidates_are_those_of_the_policy(
    primary: Json,
    policy: PolicyView,
    workflow_id: Seq<char>,
    transition: Option<Seq<char>>,
    correlation_id: Seq<char>,
    k: int,
)
    ensures
        ({
            let s = reliability::initial_attempts(
                primary,
                policy,
                workflow_id,
                transition,
                correlation_id,
            );
            &&& s.candidate == 0
            &&& s.candidates[0] == primary
            &&& s.last is None
            &&& s.phase == AttemptPhase::Finding
            &&& policy.fallback is None ==> s.candidates.len() == 1
            &&& policy.fallback matches Some(f) ==> s.candidates.len() == f.executors.len() + 1 && (
            0 <= k < f.executors.len() ==> s.candidates[k + 1] == f.executors[k])
            &&& policy.retry matches Some(r) ==> s.retry == r
            &&& policy.retry is None ==> s.retry.max_attempts == 1
            &&& s.workflow_id == workflow_id
            &&& s.transition == transition
            &&& s.correlation_id == correlation_id
        }),
{
}

/// Every attempt is announced before it is run: the last event of a step that runs an
/// executor says that the attempt has started, and on which candidate.
pub proof fn law_attempts_are_announced(s: AttemptsView, event: AttemptEvent)
    requires
        s.wf(),
        s.next(event).2 is Run,
    ensures
        ({
            let (t, events, _) = s.next(event);
            &&& events.len() > 0
            &&& events.last().event_type == "executor.started"@
            &&& events.last().workflow_id == Some(s.workflow_id)
            &&& events.last().correlation_id == s.correlation_id
            &&& events.last().payload.get("attempt"@) == Some(
                Json::Number(Number::PosInt(t.attempt as u64)),
            )
            &&& events.last().payload.get("candidate"@) == Some(
                Json::Number(Number::PosInt(t.candidate as u64)),
            )
            &&& events.last().payload.get("idempotencyKey"@) == Some(
                match s.idempotency_key {
                    Some(k) => Json::String(k),
                    None => Json::Null,
                },
            )
        }),
{
    let t = s.next(event).0;
    lemma_event_words();
    json::lemma_reads();
    assert(s.next(event).1.last() == t.started());
}

/// The words under which an event speaks of an attempt differ from one another.
proof fn lemma_event_words()
    ensures
        "candidate"@ != "kind"@,
        "candidate"@ != "attempt"@,
        "candidate"@ != "idempotencyKey"@,
        "candidate"@ != "transition"@,
        "attempt"@ != "idempotencyKey"@,
{
    reveal_strlit("transition");
    reveal_strlit("candidate");
    reveal_strlit("kind");
    reveal_strlit("attempt");
    reveal_strlit("idempotencyKey");
    assert("transition"@.len() == 10 && "candidate"@.len() == 9 && "kind"@.len() == 4
        && "attempt"@.len() == 7 && "idempotencyKey"@.len() == 14);
}

/// No delay is longer than the policy's maximum, there is none without a backoff, and a
/// fixed one is the initial delay every time.
pub proof fn law_delays_are_bounded(retry: RetryView, n: u32)
    ensures
        reliability::delay_after(retry, n) >= 0,
        retry.max_delay_ms matches Some(max) ==> reliability::delay_after(retry, n) <= max,
        retry.backoff == Backoff::Immediate ==> reliability::delay_after(retry, n) == 0,
        retry.backoff == Backoff::Fixed && retry.max_delay_ms is None ==> reliability::delay_after(
            retry,
            n,
        ) == retry.initial_delay_ms,
        retry.backoff == Backoff::Fixed && retry.max_delay_ms is Some && retry.initial_delay_ms
            <= retry.max_delay_ms->0 ==> reliability::delay_after(retry, n)
            == retry.initial_delay_ms,
        retry.backoff == Backoff::Fixed && retry.max_delay_ms is Some && retry.initial_delay_ms
            > retry.max_delay_ms->0 ==> reliability::delay_after(retry, n) == retry.max_delay_ms->0,
{
    let d = reliability::smaller(
        if n == 0 {
            0
        } else {
            n - 1
        },
        20,
    );
    assert(retry.initial_delay_ms * reliability::power_of_two(d as nat) >= 0) by (nonlinear_arith);
}

/// An exponential delay begins with the initial delay and doubles from one attempt to the
/// next, until it would be longer than the maximum; after twenty doublings it stays.
pub proof fn law_exponential_delays_double(retry: RetryView, n: u32)
    requires
        retry.backoff == Backoff::Exponential,
        1 <= n < u32::MAX,
    ensures
        ({
            let limit = match retry.max_delay_ms {
                Some(max) => max as int,
                None => u64::MAX as int,
            };
            let (a, b) = (
                reliability::delay_after(retry, n),
                reliability::delay_after(retry, (n + 1) as u32),
            );
            &&& reliability::delay_after(retry, 1) == if retry.initial_delay_ms <= limit {
                retry.initial_delay_ms as int
            } else {
                limit
            }
            &&& n <= 20 && 2 * a <= limit ==> b == 2 * a
            &&& n <= 20 && 2 * a > limit ==> b == limit
            &&& n > 20 ==> b == a
        }),
{
    let base = retry.initial_delay_ms as int;
    assert(reliability::power_of_two(0) == 1);
    assert(retry.initial_delay_ms * reliability::power_of_two(0) == base) by (nonlinear_arith)
        requires
            reliability::power_of_two(0) == 1,
            base == retry.initial_delay_ms,
    ;
    if n <= 20 {
        let p = reliability::power_of_two((n - 1) as nat);
        assert(reliability::power_of_two(n as nat) == 2 * p);
        assert(retry.initial_delay_ms * (2 * p) == 2 * (retry.initial_delay_ms * p))
            by (nonlinear_arith);
        assert(retry.initial_delay_ms * p >= 0) by (nonlinear_arith);
    }
}

/// The parts of a policy come from the keys of their names; a policy that declares a number
/// of attempts, a delay or a list of failures has exactly that number, delay and list, and
/// one that declares none has one attempt, no delay and the usual failures.
pub proof fn law_policy_is_read_from_its_keys(v: Json, r: Json)
    requires
        v is Object,
        v.get("retry"@) == Some(r),
        r is Object,
        reliability::declared_policy(v).retry is Some,
    ensures
        ({
            let p = reliability::declared_policy(v).retry->0;
            &&& r.get("maxAttempts"@) matches Some(Json::Number(Number::PosInt(n)))
                ==> p.max_attempts == n
            &&& r.get("maxAttempts"@) is None ==> p.max_attempts == 1
            &&& r.get("initialDelayMs"@) matches Some(Json::Number(Number::PosInt(n)))
                ==> p.initial_delay_ms == n
            &&& r.get("initialDelayMs"@) is None ==> p.initial_delay_ms == 0
            &&& r.get("maxDelayMs"@) matches Some(Json::Number(Number::PosInt(n)))
                ==> p.max_delay_ms == Some(n)
            &&& r.get("maxDelayMs"@) is None ==> p.max_delay_ms is None
            &&& r.get("backoff"@) == Some(Json::String("none"@)) ==> p.backoff == Backoff::Immediate
            &&& r.get("backoff"@) == Some(Json::String("fixed"@)) ==> p.backoff == Backoff::Fixed
            &&& r.get("backoff"@) == Some(Json::String("exponential"@)) ==> p.backoff
                == Backoff::Exponential
            &&& r.get("backoff"@) is None ==> p.backoff == Backoff::Immediate
            &&& r.get("retryOn"@) is None ==> p.retry_on == seq![
                "timeout"@,
                "transient_error"@,
                "rate_limited"@,
            ]
            &&& r.get("retryOn"@) matches Some(Json::Array(items)) ==> p.retry_on.len()
                == items.len() && forall|i: int|
                0 <= i < items.len() ==> items[i] == Json::String(#[trigger] p.retry_on[i])
        }),
        v.get("timeoutMs"@) matches Some(Json::Number(Number::PosInt(n)))
            ==> reliability::declared_policy(v).timeout_ms == Some(n),
        v.get("timeoutMs"@) is None ==> reliability::declared_policy(v).timeout_ms is None,
        v.get("fallback"@) is None ==> reliability::declared_policy(v).fallback is None,
{
    reveal_strlit("none");
    reveal_strlit("fixed");
    reveal_strlit("exponential");
    assert("none"@.len() == 4 && "fixed"@.len() == 5 && "exponential"@.len() == 11);
    if let Some(Json::Array(items)) = r.get("retryOn"@) {
        lemma_all_strings_read(items, items.len() as int);
    }
}

/// The texts of items that are all strings are those strings.
proof fn lemma_all_strings_read(items: Seq<Json>, n: int)
    requires
        0 <= n <= items.len(),
        reliability::all_strings(items, n) is Some,
    ensures
        ({
            let s = reliability::all_strings(items, n)->0;
            &&& s.len() == n
            &&& forall|i: int| 0 <= i < n ==> items[i] == Json::String(#[trigger] s[i])
        }),
    decreases n,
{
    if n > 0 {
        lemma_all_strings_read(items, n - 1);
    }
}

/// The fallbacks of a policy are the executors that it lists.
pub proof fn law_fallbacks_are_those_listed(v: Json, f: Json, executors: Seq<Json>)
    requires
        v is Object,
        v.get("fallback"@) == Some(f),
        f is Object,
        f.get("executors"@) == Some(Json::Array(executors)),
        reliability::declared_policy(v).fallback is Some || (v.get("retry"@) is None && v.get(
            "timeoutMs"@,
        ) is None && f.get("strategy"@) is None),
    ensures
        reliability::declared_policy(v).fallback matches Some(p) && p.executors == executors,
{
}

/// The automatic key tells calls apart: calls of one transition of one workflow have
/// different keys where their correlation ids differ, and all attempts of a call share it.
pub proof fn law_automatic_keys_tell_calls_apart(
    primary: Json,
    workflow_id: Seq<char>,
    transition: Option<Seq<char>>,
    a: Seq<char>,
    b: Seq<char>,
)
    requires
        primary.get("idempotencyKey"@) == Some(Json::Bool(true)),
        a != b,
    ensures
        reliability::idempotency_key(primary, workflow_id, transition, a) is Some,
        reliability::idempotency_key(primary, workflow_id, transition, a)
            != reliability::idempotency_key(primary, workflow_id, transition, b),
        workflow_id.is_prefix_of(
            reliability::idempotency_key(primary, workflow_id, transition, a)->0,
        ),
{
    let name = match transition {
        Some(t) => t,
        None => "on_enter"@,
    };
    let front = workflow_id + "."@ + name + "."@;
    let (x, y) = (front + a, front + b);
    assert(x.skip(front.len() as int) =~= a);
    assert(y.skip(front.len() as int) =~= b);
}

/// Without a wish for one there is no key.
pub proof fn law_keys_are_made_on_request(
    primary: Json,
    workflow_id: Seq<char>,
    transition: Option<Seq<char>>,
    correlation_id: Seq<char>,
)
    ensures
        reliability::idempotency_key(primary, workflow_id, transition, correlation_id) is Some <==> (
        primary.get("idempotencyKey"@) == Some(Json::Bool(true)) || primary.str_at(
            "idempotencyKey"@,
        ) is Some),
{
}

} // verus!
