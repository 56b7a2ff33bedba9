//! The workflow that proxy exposures make up: one state, with a transition back to it
//! for each exposure.
use crate::json;
use crate::json::{Json, Value};
use crate::runtime_links;
use vstd::prelude::*;

verus! {

/// The id of the proxy workflow.
pub const DEFAULT_PROXY_WORKFLOW_ID: &'static str = "proxy_default";

/// The only state of the proxy workflow.
pub const DEFAULT_PROXY_STATE: &'static str = "ready";

/// The value under a key, or else the given one.
pub open spec fn value_else(o: Json, key: Seq<char>, other: Json) -> Json {
    match o.get(key) {
        Some(v) => v,
        None => other,
    }
}

fn value_or(o: &Value, key: &str, other: Value) -> (r: Value)
    ensures
        r@ == value_else(o@, key@, other@),
{
    match o.get(key) {
        Some(v) => v.dup(),
        None => other,
    }
}

/// The object with a key bound to what another has under it, where it has something.
pub open spec fn with_same(o: Json, key: Seq<char>, from: Json) -> Json {
    match from.get(key) {
        Some(v) => o.with(key, v),
        None => o,
    }
}

fn and_same(o: Value, key: &str, from: &Value) -> (r: Value)
    ensures
        r@ == with_same(o@, key@, from@),
{
    match from.get(key) {
        Some(v) => o.and(key, v.dup()),
        None => o,
    }
}

/// The transition of an exposure.
pub open spec fn exposure_transition(ex: Json, name: Seq<char>) -> Json {
    let a = Json::empty().with("title"@, value_else(ex, "title"@, Json::String(name)));
    let b = with_same(a, "description"@, ex).with(
        "target"@,
        Json::String(DEFAULT_PROXY_STATE@),
    ).with("actor"@, Json::String("agent"@)).with(
        "inputSchema"@,
        value_else(ex, "inputSchema"@, runtime_links::empty_schema()),
    ).with("guards"@, value_else(ex, "guards"@, Json::Array(Seq::empty()))).with(
        "executor"@,
        value_else(ex, "executor"@, Json::empty().with("kind"@, Json::String("noop"@))),
    );
    with_same(b, "reliability"@, ex).with(
        "output"@,
        Json::empty().with("lastResult"@, Json::String("$.output"@)),
    )
}

fn exposure_transition_of(ex: &Value, name: &str) -> (r: Value)
    ensures
        r@ == exposure_transition(ex@, name@),
{
    let none: Vec<Value> = Vec::new();
    assert(json::views(none@) =~= Seq::empty());
    let a = Value::object().and("title", value_or(ex, "title", Value::text(name)));
    let b = and_same(a, "description", ex).and("target", Value::text(DEFAULT_PROXY_STATE)).and(
        "actor",
        Value::text("agent"),
    ).and(
        "inputSchema",
        value_or(ex, "inputSchema", runtime_links::empty_object_schema()),
    ).and("guards", value_or(ex, "guards", Value::Array(none))).and(
        "executor",
        value_or(ex, "executor", Value::object().and("kind", Value::text("noop"))),
    );
    and_same(b, "reliability", ex).and(
        "output",
        Value::object().and("lastResult", Value::text("$.output")),
    )
}

/// The transitions of the first `n` exposures. One without a name has none.
pub open spec fn proxy_transitions(exposures: Seq<Json>, n: int) -> Json
    decreases n,
{
    if n <= 0 {
        Json::empty()
    } else {
        let before = proxy_transitions(exposures, n - 1);
        match exposures[n - 1].str_at("name"@) {
            Some(name) => before.with(name, exposure_transition(exposures[n - 1], name)),
            None => before,
        }
    }
}

/// The workflow that exposures make up.
pub open spec fn proxy_workflow(exposures: Seq<Json>) -> Json {
    let state = Json::empty().with(
        "description"@,
        Json::String("Proxy-ready state. All transitions return to this state."@),
    ).with("transitions"@, proxy_transitions(exposures, exposures.len() as int));
    Json::empty().with("version"@, Json::String("0"@)).with(
        "description"@,
        Json::String("Generated null-op workflow for configurable proxy exposures."@),
    ).with("initialState"@, Json::String(DEFAULT_PROXY_STATE@)).with(
        "states"@,
        Json::empty().with(DEFAULT_PROXY_STATE@, state),
    )
}

/// The workflow that exposures make up.
pub fn compile_proxy_workflow_from_exposures(exposures: &Vec<Value>) -> (r: Value)
    ensures
        r@ == proxy_workflow(json::views(exposures@)),
{
    let ghost js = json::views(exposures@);
    let mut ts = Value::object();
    let mut i: usize = 0;
    while i < exposures.len()
        invariant
            i <= exposures.len(),
            js == json::views(exposures@),
            ts@ == proxy_transitions(js, i as int),
        decreases exposures.len() - i,
    {
        assert(js[i as int] == exposures@[i as int]@);
        if let Some(name) = exposures[i].str_at("name") {
            let t = exposure_transition_of(&exposures[i], name);
            ts.set(name, t);
        }
        i = i + 1;
    }
    let state = Value::object().and(
        "description",
        Value::text("Proxy-ready state. All transitions return to this state."),
    ).and("transitions", ts);
    Value::object().and("version", Value::text("0")).and(
        "description",
        Value::text("Generated null-op workflow for configurable proxy exposures."),
    ).and("initialState", Value::text(DEFAULT_PROXY_STATE)).and(
        "states",
        Value::object().and(DEFAULT_PROXY_STATE, state),
    )
}

/// The exposures of a configuration.
pub open spec fn exposures_of(config: Json) -> Option<Seq<Json>> {
    match config.get("proxy"@) {
        Some(p) => match p.step("expose"@) {
            Some(x) => x.as_array(),
            None => None,
        },
        None => None,
    }
}

/// The exposures of a configuration.
pub fn declared_exposures(config: &Value) -> (r: Option<&Vec<Value>>)
    ensures
        match r {
            Some(s) => exposures_of(config@) == Some(json::views(s@)),
            None => exposures_of(config@) is None,
        },
{
    match config.get("proxy") {
        Some(p) => match p.step("expose") {
            Some(x) => x.as_array(),
            None => None,
        },
        None => None,
    }
}

/// The workflow that the exposures of a configuration make up; none where it has no
/// list of exposures.
pub fn compile_proxy_workflow(config: &Value) -> (r: Option<Value>)
    ensures
        match r {
            Some(w) => exposures_of(config@) matches Some(s) && w@ == proxy_workflow(s),
            None => exposures_of(config@) is None,
        },
{
    match declared_exposures(config) {
        Some(s) => Some(compile_proxy_workflow_from_exposures(s)),
        None => None,
    }
}

/// The workflow that the exposures of registered capabilities make up; none where
/// there are none.
pub fn compile_proxy_workflow_from_registry(exposures: &Vec<Value>) -> (r: Option<Value>)
    ensures
        match r {
            Some(w) => exposures@.len() > 0 && w@ == proxy_workflow(json::views(exposures@)),
            None => exposures@.len() == 0,
        },
{
    if exposures.len() == 0 {
        None
    } else {
        Some(compile_proxy_workflow_from_exposures(exposures))
    }
}

/// Every transition of the proxy workflow leads back to its only state.
pub proof fn law_proxy_stays_ready(exposures: Seq<Json>, n: int, name: Seq<char>)
    requires
        0 <= n <= exposures.len(),
    ensures
        proxy_transitions(exposures, n) is Object,
        proxy_transitions(exposures, n).get(name) matches Some(t) ==> t.str_at("target"@) == Some(
            DEFAULT_PROXY_STATE@,
        ),
    decreases n,
{
    if n > 0 {
        law_proxy_stays_ready(exposures, n - 1, name);
        if let Some(k) = exposures[n - 1].str_at("name"@) {
            let t = exposure_transition(exposures[n - 1], k);
            json::law_get_with(proxy_transitions(exposures, n - 1), k, t, name);
            if name == k {
                lemma_exposure_target(exposures[n - 1], k);
            }
        }
    } else {
        reveal(Json::get);
    }
}

proof fn lemma_exposure_target(ex: Json, name: Seq<char>)
    ensures
        exposure_transition(ex, name).str_at("target"@) == Some(DEFAULT_PROXY_STATE@),
{
    reveal_strlit("target");
    reveal_strlit("actor");
    reveal_strlit("inputSchema");
    reveal_strlit("guards");
    reveal_strlit("executor");
    reveal_strlit("reliability");
    reveal_strlit("output");
    assert("target"@[0] == 't' && "guards"@[0] == 'g' && "output"@[0] == 'o');
    assert("target"@.len() == 6 && "actor"@.len() == 5 && "inputSchema"@.len() == 11);
    assert("executor"@.len() == 8 && "reliability"@.len() == 11);
    let a = Json::empty().with("title"@, value_else(ex, "title"@, Json::String(name)));
    json::law_get_with(
        Json::empty(),
        "title"@,
        value_else(ex, "title"@, Json::String(name)),
        "target"@,
    );
    let b = with_same(a, "description"@, ex);
    if let Some(d) = ex.get("description"@) {
        json::law_get_with(a, "description"@, d, "target"@);
    }
    let ready = Json::String(DEFAULT_PROXY_STATE@);
    let c = b.with("target"@, ready);
    json::law_get_with(b, "target"@, ready, "target"@);
    let d = c.with("actor"@, Json::String("agent"@));
    json::law_get_with(c, "actor"@, Json::String("agent"@), "target"@);
    let schema = value_else(ex, "inputSchema"@, runtime_links::empty_schema());
    let e = d.with("inputSchema"@, schema);
    json::law_get_with(d, "inputSchema"@, schema, "target"@);
    let guards = value_else(ex, "guards"@, Json::Array(Seq::empty()));
    let f = e.with("guards"@, guards);
    json::law_get_with(e, "guards"@, guards, "target"@);
    let executor = value_else(
        ex,
        "executor"@,
        Json::empty().with("kind"@, Json::String("noop"@)),
    );
    let g = f.with("executor"@, executor);
    json::law_get_with(f, "executor"@, executor, "target"@);
    let h = with_same(g, "reliability"@, ex);
    if let Some(r) = ex.get("reliability"@) {
        json::law_get_with(g, "reliability"@, r, "target"@);
    }
    let output = Json::empty().with("lastResult"@, Json::String("$.output"@));
    json::law_get_with(h, "output"@, output, "target"@);
}

} // verus!
