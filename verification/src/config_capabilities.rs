//! Capabilities: flattening what wraps what, and putting capabilities in the place of
//! the references to them.
use crate::json;
use crate::json::{Json, Value};
use crate::reliability;
use crate::text;
use vstd::prelude::*;

verus! {

// ---------------------------------------------------------------------------
// Flattening
// ---------------------------------------------------------------------------

/// A capability with everything that it inherits from what it wraps.
#[derive(Debug, PartialEq)]
pub struct NormalizedCapability {
    pub executor: Value,
    pub input_schema: Option<Value>,
    pub title: Option<String>,
    pub description: Option<String>,
    pub tags: Vec<Value>,
    pub examples: Vec<Value>,
    pub guards: Vec<Value>,
    pub reliability: Option<Value>,
}

/// A capability as mathematical values.
pub struct CapView {
    pub executor: Json,
    pub input_schema: Option<Json>,
    pub title: Option<Seq<char>>,
    pub description: Option<Seq<char>>,
    pub tags: Seq<Json>,
    pub examples: Seq<Json>,
    pub guards: Seq<Json>,
    pub reliability: Option<Json>,
}

impl View for NormalizedCapability {
    type V = CapView;

    open spec fn view(&self) -> CapView {
        CapView {
            executor: self.executor@,
            input_schema: json::opt_owned_view(self.input_schema),
            title: text::opt_text(self.title),
            description: text::opt_text(self.description),
            tags: json::views(self.tags@),
            examples: json::views(self.examples@),
            guards: json::views(self.guards@),
            reliability: json::opt_owned_view(self.reliability),
        }
    }
}

/// The outcome of flattening one capability.
pub open spec fn cap_result(r: Result<NormalizedCapability, String>) -> Result<CapView, Seq<char>> {
    match r {
        Ok(c) => Ok(c@),
        Err(m) => Err(m@),
    }
}

/// The first of two, or else the second.
pub open spec fn first_of<T>(a: Option<T>, b: Option<T>) -> Option<T> {
    match a {
        Some(_) => a,
        None => b,
    }
}

/// A capability by itself, with the given executor.
pub open spec fn own_capability(def: Json, executor: Json) -> CapView {
    CapView {
        executor,
        input_schema: def.get("inputSchema"@),
        title: def.str_at("title"@),
        description: def.str_at("description"@),
        tags: def.items_at("tags"@),
        examples: def.items_at("examples"@),
        guards: def.items_at("guards"@),
        reliability: def.get("reliability"@),
    }
}

/// A capability that wraps another. What it says itself goes before what it inherits;
/// tags, examples and guards are added to those of the other.
pub open spec fn wrapped(def: Json, parent: CapView) -> CapView {
    CapView {
        executor: match def.get("executor"@) {
            Some(x) => x,
            None => parent.executor,
        },
        input_schema: first_of(def.get("inputSchema"@), parent.input_schema),
        title: first_of(def.str_at("title"@), parent.title),
        description: first_of(def.str_at("description"@), parent.description),
        tags: parent.tags + def.items_at("tags"@),
        examples: parent.examples + def.items_at("examples"@),
        guards: parent.guards + def.items_at("guards"@),
        reliability: first_of(def.get("reliability"@), parent.reliability),
    }
}

/// A path of capabilities: all of them defined, none of them twice.
pub open spec fn valid_path(raw: Seq<(Seq<char>, Json)>, path: Seq<Seq<char>>) -> bool {
    path.no_duplicates() && forall|i: int|
        0 <= i < path.len() ==> json::find(raw, #[trigger] path[i]) is Some
}

/// A path can be as long as there are definitions, and no longer.
pub proof fn lemma_path_room(
    raw: Seq<(Seq<char>, Json)>,
    path: Seq<Seq<char>>,
    name: Seq<char>,
)
    requires
        valid_path(raw, path),
        json::find(raw, name) is Some,
        !path.contains(name),
    ensures
        path.len() < raw.len(),
        valid_path(raw, path.push(name)),
{
    let p = path.push(name);
    let keys = Seq::new(raw.len(), |i: int| raw[i].0);
    assert(p.no_duplicates()) by {
        assert forall|i: int, j: int| 0 <= i < p.len() && 0 <= j < p.len() && i != j implies p[i]
            != p[j] by {
            if i == path.len() {
                assert(path.contains(p[j]));
            } else if j == path.len() {
                assert(path.contains(p[i]));
            }
        }
    }
    assert forall|i: int| 0 <= i < p.len() implies json::find(raw, #[trigger] p[i]) is Some by {
        if i < path.len() {
            assert(p[i] == path[i]);
        }
    }
    assert(p.to_set().subset_of(keys.to_set())) by {
        assert forall|x: Seq<char>| p.to_set().contains(x) implies keys.to_set().contains(x) by {
            let i = choose|i: int| 0 <= i < p.len() && p[i] == x;
            json::lemma_find_member(raw, p[i]);
            let k = choose|k: int|
                0 <= k < raw.len() && raw[k].0 == p[i] && #[trigger] raw[k].1 == json::find(
                    raw,
                    p[i],
                )->0;
            assert(keys[k] == x);
        }
    }
    p.unique_seq_to_set();
    keys.lemma_cardinality_of_set();
    vstd::set_lib::lemma_len_subset(p.to_set(), keys.to_set());
}

/// The capability of a name, on a path of those that wrap it.
pub open spec fn flat(
    raw: Seq<(Seq<char>, Json)>,
    name: Seq<char>,
    path: Seq<Seq<char>>,
) -> Result<CapView, Seq<char>>
    decreases raw.len() - path.len(),
    when valid_path(raw, path)
{
    if path.contains(name) {
        Err("capability `wraps` cycle detected at '"@ + name + "'"@)
    } else {
        match json::find(raw, name) {
            None => Err("capability '"@ + name + "' is referenced but not defined"@),
            Some(def) => match def.str_at("wraps"@) {
                Some(parent) => {
                    proof {
                        lemma_path_room(raw, path, name);
                    }
                    match flat(raw, parent, path.push(name)) {
                        Err(m) => Err(m),
                        Ok(p) => Ok(wrapped(def, p)),
                    }
                },
                None => match def.get("executor"@) {
                    Some(x) => Ok(own_capability(def, x)),
                    None => Err("capability '"@ + name + "' needs `executor` or `wraps`"@),
                },
            },
        }
    }
}

/// A copy of the items under a key.
fn items_of(def: &Value, key: &str) -> (r: Vec<Value>)
    ensures
        json::views(r@) == def@.items_at(key@),
{
    match def.array_at(key) {
        Some(v) => reliability::copy_values(v),
        None => {
            let v: Vec<Value> = Vec::new();
            assert(json::views(v@) =~= Seq::empty());
            v
        },
    }
}

/// The items of a list and those under a key.
fn with_items(list: Vec<Value>, def: &Value, key: &str) -> (r: Vec<Value>)
    ensures
        json::views(r@) == json::views(list@) + def@.items_at(key@),
{
    let mut out = list;
    let more = items_of(def, key);
    reliability::append_values(&mut out, &more);
    out
}

/// A copy of the value under a key, or else the given one.
fn value_or(def: &Value, key: &str, other: Option<Value>) -> (r: Option<Value>)
    ensures
        json::opt_owned_view(r) == first_of(def@.get(key@), json::opt_owned_view(other)),
{
    match def.get(key) {
        Some(v) => Some(v.dup()),
        None => other,
    }
}

/// A copy of an optional value.
fn copy_opt(o: &Option<Value>) -> (r: Option<Value>)
    ensures
        json::opt_owned_view(r) == json::opt_owned_view(*o),
{
    match o {
        Some(v) => Some(v.dup()),
        None => None,
    }
}

/// A copy of the text under a key, or else the given one.
fn text_or(def: &Value, key: &str, other: Option<String>) -> (r: Option<String>)
    ensures
        text::opt_text(r) == first_of(def@.str_at(key@), text::opt_text(other)),
{
    match def.str_at(key) {
        Some(s) => Some(s.to_owned()),
        None => other,
    }
}

/// Flattens one capability.
fn flatten_one(name: &str, raw: &Vec<(String, Value)>, path: &Vec<String>) -> (r: Result<
    NormalizedCapability,
    String,
>)
    requires
        valid_path(json::entries(raw@), text::texts(path@)),
    ensures
        cap_result(r) == flat(json::entries(raw@), name@, text::texts(path@)),
    decreases raw@.len() - path@.len(),
{
    if text::has_text(path, name) {
        return Err(text::join3("capability `wraps` cycle detected at '", name, "'"));
    }
    let def = match json::lookup(raw, name) {
        None => {
            return Err(text::join3("capability '", name, "' is referenced but not defined"));
        },
        Some(def) => def,
    };
    match def.str_at("wraps") {
        Some(parent) => {
            proof {
                lemma_path_room(json::entries(raw@), text::texts(path@), name@);
            }
            let mut longer = text::copy_texts(path);
            let own = name.to_owned();
            proof {
                text::lemma_texts_push(longer@, own);
                assert(text::texts(longer@).len() == longer@.len());
                assert(text::texts(path@).len() == path@.len());
            }
            longer.push(own);
            match flatten_one(parent, raw, &longer) {
                Err(m) => Err(m),
                Ok(p) => Ok(
                    NormalizedCapability {
                        executor: match def.get("executor") {
                            Some(x) => x.dup(),
                            None => p.executor,
                        },
                        input_schema: value_or(def, "inputSchema", p.input_schema),
                        title: text_or(def, "title", p.title),
                        description: text_or(def, "description", p.description),
                        tags: with_items(p.tags, def, "tags"),
                        examples: with_items(p.examples, def, "examples"),
                        guards: with_items(p.guards, def, "guards"),
                        reliability: value_or(def, "reliability", p.reliability),
                    },
                ),
            }
        },
        None => match def.get("executor") {
            Some(x) => Ok(
                NormalizedCapability {
                    executor: x.dup(),
                    input_schema: value_or(def, "inputSchema", None),
                    title: text_or(def, "title", None),
                    description: text_or(def, "description", None),
                    tags: items_of(def, "tags"),
                    examples: items_of(def, "examples"),
                    guards: items_of(def, "guards"),
                    reliability: value_or(def, "reliability", None),
                },
            ),
            None => Err(text::join3("capability '", name, "' needs `executor` or `wraps`")),
        },
    }
}

/// Capabilities by name.
pub type Registry = Seq<(Seq<char>, CapView)>;

/// Capabilities by name.
pub open spec fn registry_of(v: Seq<(String, NormalizedCapability)>) -> Registry {
    Seq::new(v.len(), |i: int| (v[i].0@, v[i].1@))
}

/// The first `n` capabilities, or what is wrong with the first that has a fault.
pub open spec fn registry_upto(raw: Seq<(Seq<char>, Json)>, n: int) -> Result<Registry, Seq<char>>
    decreases n,
{
    if n <= 0 {
        Ok(Seq::empty())
    } else {
        match registry_upto(raw, n - 1) {
            Err(m) => Err(m),
            Ok(reg) => match flat(raw, raw[n - 1].0, Seq::empty()) {
                Err(m) => Err(m),
                Ok(c) => Ok(reg.push((raw[n - 1].0, c))),
            },
        }
    }
}

/// The capabilities of a configuration.
pub open spec fn registry(config: Json) -> Result<Registry, Seq<char>> {
    let raw = config.entries_at("capabilities"@);
    registry_upto(raw, raw.len() as int)
}

proof fn lemma_registry_err(raw: Seq<(Seq<char>, Json)>, k: int, n: int)
    requires
        k <= n,
        registry_upto(raw, k) is Err,
    ensures
        registry_upto(raw, n) == registry_upto(raw, k),
    decreases n - k,
{
    if k < n {
        lemma_registry_err(raw, k, n - 1);
    }
}

/// Flattens the capabilities of a configuration.
pub fn flatten_capabilities(config: &Value) -> (r: Result<
    Vec<(String, NormalizedCapability)>,
    String,
>)
    ensures
        match r {
            Ok(v) => registry(config@) == Ok::<Registry, Seq<char>>(registry_of(v@)),
            Err(m) => registry(config@) == Err::<Registry, Seq<char>>(m@),
        },
{
    let mut out: Vec<(String, NormalizedCapability)> = Vec::new();
    assert(registry_of(out@) =~= Seq::empty());
    if let Some(raw) = config.object_at("capabilities") {
        let ghost e = json::entries(raw@);
        let path: Vec<String> = Vec::new();
        assert(text::texts(path@) =~= Seq::empty());
        let mut i: usize = 0;
        while i < raw.len()
            invariant
                i <= raw.len(),
                e == json::entries(raw@),
                e == config@.entries_at("capabilities"@),
                text::texts(path@) == Seq::<Seq<char>>::empty(),
                registry_upto(e, i as int) == Ok::<Registry, Seq<char>>(registry_of(out@)),
            decreases raw.len() - i,
        {
            assert(e[i as int] == (raw@[i as int].0@, raw@[i as int].1@));
            match flatten_one(raw[i].0.as_str(), raw, &path) {
                Err(m) => {
                    proof {
                        lemma_registry_err(e, i + 1, e.len() as int);
                    }
                    return Err(m);
                },
                Ok(c) => {
                    let k = raw[i].0.clone();
                    let ghost before = out@;
                    out.push((k, c));
                    assert(registry_of(out@) =~= registry_of(before).push((k@, c@)));
                },
            }
            i = i + 1;
        }
    }
    Ok(out)
}

/// The capability of a name.
fn capability<'a>(reg: &'a Vec<(String, NormalizedCapability)>, name: &str) -> (r: Option<
    &'a NormalizedCapability,
>)
    ensures
        match r {
            Some(c) => json::find(registry_of(reg@), name@) == Some(c@),
            None => json::find(registry_of(reg@), name@) is None,
        },
{
    let ghost e = registry_of(reg@);
    let mut i: usize = 0;
    assert(e.skip(0) =~= e);
    while i < reg.len()
        invariant
            i <= reg.len(),
            e == registry_of(reg@),
            json::find(e.skip(i as int), name@) == json::find(e, name@),
        decreases reg.len() - i,
    {
        if text::str_eq(reg[i].0.as_str(), name) {
            return Some(&reg[i].1);
        }
        assert(e.skip(i as int).skip(1) =~= e.skip(i + 1));
        i = i + 1;
    }
    None
}

/// A capability that wraps no other and has no fault is what its definition says.
pub proof fn law_plain_capability(raw: Seq<(Seq<char>, Json)>, name: Seq<char>, def: Json, x: Json)
    requires
        json::find(raw, name) == Some(def),
        def.str_at("wraps"@) is None,
        def.get("executor"@) == Some(x),
    ensures
        flat(raw, name, Seq::empty()) == Ok::<CapView, Seq<char>>(own_capability(def, x)),
{
}

/// The guards of a wrapping capability are those of what it wraps, then its own: both
/// must pass.
pub proof fn law_guards_stack(
    raw: Seq<(Seq<char>, Json)>,
    name: Seq<char>,
    parent: Seq<char>,
    def: Json,
    path: Seq<Seq<char>>,
)
    requires
        valid_path(raw, path),
        !path.contains(name),
        json::find(raw, name) == Some(def),
        def.str_at("wraps"@) == Some(parent),
        flat(raw, parent, path.push(name)) is Ok,
    ensures
        flat(raw, name, path) matches Ok(c) && c.guards == flat(
            raw,
            parent,
            path.push(name),
        )->Ok_0.guards + def.items_at("guards"@),
{
}

// ---------------------------------------------------------------------------
// Exposures
// ---------------------------------------------------------------------------

/// The object with a key bound, where there is a value.
pub open spec fn with_some(o: Json, key: Seq<char>, v: Option<Json>) -> Json {
    match v {
        Some(x) => o.with(key, x),
        None => o,
    }
}

/// The object with a key bound to a list, where the list is not empty.
pub open spec fn with_list(o: Json, key: Seq<char>, s: Seq<Json>) -> Json {
    if s.len() > 0 {
        o.with(key, Json::Array(s))
    } else {
        o
    }
}

/// A text as a value.
pub open spec fn text_value(s: Option<Seq<char>>) -> Option<Json> {
    match s {
        Some(t) => Some(Json::String(t)),
        None => None,
    }
}

/// The exposure that a reference to a capability stands for.
pub open spec fn exposed(ex: Json, name: Seq<char>, cap: CapView) -> Json {
    let alias = match ex.str_at("as"@) {
        Some(a) => a,
        None => name,
    };
    let a = Json::empty().with("name"@, Json::String(alias));
    let b = with_some(a, "title"@, text_value(cap.title));
    let c = with_some(
        b,
        "description"@,
        text_value(first_of(ex.str_at("description"@), cap.description)),
    );
    let d = with_some(c, "inputSchema"@, cap.input_schema);
    let e = with_list(d, "tags"@, cap.tags + ex.items_at("tags"@));
    let f = with_list(e, "guards"@, cap.guards + ex.items_at("guards"@));
    let g = with_some(f, "reliability"@, first_of(ex.get("reliability"@), cap.reliability));
    g.with("executor"@, cap.executor)
}

/// An exposure with its capability put in. One that names no capability stays as it
/// is.
pub open spec fn exposure(ex: Json, reg: Registry) -> Result<Json, Seq<char>> {
    match ex.str_at("capability"@) {
        None => Ok(ex),
        Some(name) => match json::find(reg, name) {
            None => Err("exposure references unknown capability '"@ + name + "'"@),
            Some(cap) => Ok(exposed(ex, name, cap)),
        },
    }
}

/// The outcome of a step that gives a value.
pub open spec fn value_result(r: Result<Value, String>) -> Result<Json, Seq<char>> {
    match r {
        Ok(v) => Ok(v@),
        Err(m) => Err(m@),
    }
}

fn and_some(o: Value, key: &str, v: Option<Value>) -> (r: Value)
    ensures
        r@ == with_some(o@, key@, json::opt_owned_view(v)),
{
    match v {
        Some(x) => o.and(key, x),
        None => o,
    }
}

fn and_list(o: Value, key: &str, v: Vec<Value>) -> (r: Value)
    ensures
        r@ == with_list(o@, key@, json::views(v@)),
{
    if v.len() > 0 {
        o.and(key, Value::Array(v))
    } else {
        o
    }
}

fn text_value_of(s: Option<String>) -> (r: Option<Value>)
    ensures
        json::opt_owned_view(r) == text_value(text::opt_text(s)),
{
    match s {
        Some(t) => Some(Value::String(t)),
        None => None,
    }
}

/// Puts the capability into an exposure.
fn rewrite_exposure(ex: &Value, reg: &Vec<(String, NormalizedCapability)>) -> (r: Result<
    Value,
    String,
>)
    ensures
        value_result(r) == exposure(ex@, registry_of(reg@)),
{
    let name = match ex.str_at("capability") {
        None => {
            return Ok(ex.dup());
        },
        Some(name) => name,
    };
    let cap = match capability(reg, name) {
        None => {
            return Err(text::join3("exposure references unknown capability '", name, "'"));
        },
        Some(cap) => cap,
    };
    let alias = match ex.str_at("as") {
        Some(a) => a,
        None => name,
    };
    let a = Value::object().and("name", Value::text(alias));
    let b = and_some(a, "title", text_value_of(text::opt_copy(&cap.title)));
    let c = and_some(
        b,
        "description",
        text_value_of(text_or(ex, "description", text::opt_copy(&cap.description))),
    );
    let d = and_some(c, "inputSchema", copy_opt(&cap.input_schema));
    let e = and_list(d, "tags", with_items(reliability::copy_values(&cap.tags), ex, "tags"));
    let f = and_list(
        e,
        "guards",
        with_items(reliability::copy_values(&cap.guards), ex, "guards"),
    );
    let g = and_some(
        f,
        "reliability",
        value_or(ex, "reliability", copy_opt(&cap.reliability)),
    );
    Ok(g.and("executor", cap.executor.dup()))
}

/// The first `n` exposures with their capabilities put in.
pub open spec fn exposures(s: Seq<Json>, reg: Registry, n: int) -> Result<Seq<Json>, Seq<char>>
    decreases n,
{
    if n <= 0 {
        Ok(Seq::empty())
    } else {
        match exposures(s, reg, n - 1) {
            Err(m) => Err(m),
            Ok(done) => match exposure(s[n - 1], reg) {
                Err(m) => Err(m),
                Ok(x) => Ok(done.push(x)),
            },
        }
    }
}

proof fn lemma_exposures_err(s: Seq<Json>, reg: Registry, k: int, n: int)
    requires
        k <= n,
        exposures(s, reg, k) is Err,
    ensures
        exposures(s, reg, n) == exposures(s, reg, k),
    decreases n - k,
{
    if k < n {
        lemma_exposures_err(s, reg, k, n - 1);
    }
}

/// A configuration with the capabilities put into its exposures.
pub open spec fn exposures_resolved(config: Json, reg: Registry) -> Result<Json, Seq<char>> {
    match config.get("proxy"@) {
        Some(proxy) => match proxy.array_at("expose"@) {
            Some(s) => match exposures(s, reg, s.len() as int) {
                Err(m) => Err(m),
                Ok(done) => Ok(
                    config.with("proxy"@, proxy.with("expose"@, Json::Array(done))),
                ),
            },
            None => Ok(config),
        },
        None => Ok(config),
    }
}

/// Puts the capabilities into the exposures of a configuration.
pub fn resolve_exposures(config: Value, reg: &Vec<(String, NormalizedCapability)>) -> (r: Result<
    Value,
    String,
>)
    ensures
        value_result(r) == exposures_resolved(config@, registry_of(reg@)),
{
    let ghost g = registry_of(reg@);
    let mut proxy = match config.get("proxy") {
        None => {
            return Ok(config);
        },
        Some(p) => p.dup(),
    };
    let mut out: Vec<Value> = Vec::new();
    assert(json::views(out@) =~= Seq::empty());
    match proxy.array_at("expose") {
        None => {
            return Ok(config);
        },
        Some(items) => {
            let ghost s = json::views(items@);
            let mut i: usize = 0;
            while i < items.len()
                invariant
                    i <= items.len(),
                    s == json::views(items@),
                    g == registry_of(reg@),
                    config@.get("proxy"@) == Some(proxy@),
                    proxy@.array_at("expose"@) == Some(s),
                    exposures(s, g, i as int) == Ok::<Seq<Json>, Seq<char>>(json::views(out@)),
                decreases items.len() - i,
            {
                assert(s[i as int] == items@[i as int]@);
                match rewrite_exposure(&items[i], reg) {
                    Err(m) => {
                        proof {
                            lemma_exposures_err(s, g, i + 1, s.len() as int);
                        }
                        return Err(m);
                    },
                    Ok(x) => {
                        proof {
                            json::lemma_views_push(out@, x);
                        }
                        out.push(x);
                    },
                }
                i = i + 1;
            }
        },
    }
    proxy.set("expose", Value::Array(out));
    let mut c = config;
    c.set("proxy", proxy);
    Ok(c)
}

// ---------------------------------------------------------------------------
// Executors
// ---------------------------------------------------------------------------

/// The capability that the executor of an object refers to.
pub open spec fn reference(o: Json) -> Option<Seq<char>> {
    match o.get("executor"@) {
        Some(x) => x.str_at("capability"@),
        None => None,
    }
}

/// An object with the capability put in that its executor refers to. The guards of the
/// capability go before its own; its own reliability and input schema stay.
pub open spec fn put_in(o: Json, cap: CapView) -> Json {
    let a = o.with("executor"@, cap.executor);
    let b = with_list(a, "guards"@, cap.guards + a.items_at("guards"@));
    let c = if b.has("reliability"@) {
        b
    } else {
        with_some(b, "reliability"@, cap.reliability)
    };
    if c.has("inputSchema"@) {
        c
    } else {
        with_some(c, "inputSchema"@, cap.input_schema)
    }
}

/// An object with the capabilities put in that its executor refers to, one after the
/// other: what a capability brings may refer to another one. `n` is how many there may
/// be.
pub open spec fn put_in_turn(o: Json, reg: Registry, n: nat) -> Result<Json, Seq<char>>
    decreases n,
{
    match reference(o) {
        None => Ok(o),
        Some(name) => match json::find(reg, name) {
            None => Err("executor references unknown capability '"@ + name + "'"@),
            Some(cap) => if n == 0 {
                Err("capability reference cycle detected at '"@ + name + "'"@)
            } else {
                put_in_turn(put_in(o, cap), reg, (n - 1) as nat)
            },
        },
    }
}

/// An object with the capability put in that its executor refers to, if it does, and
/// with those that the capability in turn refers to. References that take more turns
/// than there are capabilities go round in a circle.
pub open spec fn substituted(o: Json, reg: Registry) -> Result<Json, Seq<char>> {
    put_in_turn(o, reg, reg.len())
}

/// A value with the capabilities put in that executors anywhere inside it refer to;
/// what is put in is searched as well. `None` where that is nested deeper than `n`.
pub open spec fn rewritten(v: Json, reg: Registry, n: nat) -> Option<Result<Json, Seq<char>>>
    decreases n, 0int,
{
    if n == 0 {
        None
    } else {
        match v {
            Json::Object(_) => match substituted(v, reg) {
                Err(m) => Some(Err(m)),
                Ok(o) => match o {
                    Json::Object(e) => match rewritten_entries(
                        e,
                        reg,
                        (n - 1) as nat,
                        e.len() as int,
                    ) {
                        None => None,
                        Some(Err(m)) => Some(Err(m)),
                        Some(Ok(done)) => Some(Ok(Json::Object(done))),
                    },
                    other => Some(Ok(other)),
                },
            },
            Json::Array(s) => match rewritten_items(s, reg, (n - 1) as nat, s.len() as int) {
                None => None,
                Some(Err(m)) => Some(Err(m)),
                Some(Ok(done)) => Some(Ok(Json::Array(done))),
            },
            other => Some(Ok(other)),
        }
    }
}

/// The first `k` entries, rewritten in order.
pub open spec fn rewritten_entries(
    e: Seq<(Seq<char>, Json)>,
    reg: Registry,
    n: nat,
    k: int,
) -> Option<Result<Seq<(Seq<char>, Json)>, Seq<char>>>
    decreases n, k,
{
    if k <= 0 {
        Some(Ok(Seq::empty()))
    } else {
        match rewritten_entries(e, reg, n, k - 1) {
            None => None,
            Some(Err(m)) => Some(Err(m)),
            Some(Ok(done)) => match rewritten(e[k - 1].1, reg, n) {
                None => None,
                Some(Err(m)) => Some(Err(m)),
                Some(Ok(v)) => Some(Ok(done.push((e[k - 1].0, v)))),
            },
        }
    }
}

/// The first `k` items, rewritten in order.
pub open spec fn rewritten_items(s: Seq<Json>, reg: Registry, n: nat, k: int) -> Option<
    Result<Seq<Json>, Seq<char>>,
>
    decreases n, k,
{
    if k <= 0 {
        Some(Ok(Seq::empty()))
    } else {
        match rewritten_items(s, reg, n, k - 1) {
            None => None,
            Some(Err(m)) => Some(Err(m)),
            Some(Ok(done)) => match rewritten(s[k - 1], reg, n) {
                None => None,
                Some(Err(m)) => Some(Err(m)),
                Some(Ok(v)) => Some(Ok(done.push(v))),
            },
        }
    }
}

/// Once the first entries decide, further ones make no difference.
proof fn lemma_entries_stop(e: Seq<(Seq<char>, Json)>, reg: Registry, n: nat, k: int, m: int)
    requires
        k <= m,
        !(rewritten_entries(e, reg, n, k) matches Some(Ok(_))),
    ensures
        rewritten_entries(e, reg, n, m) == rewritten_entries(e, reg, n, k),
    decreases m - k,
{
    if k < m {
        lemma_entries_stop(e, reg, n, k, m - 1);
    }
}

/// Once the first items decide, further ones make no difference.
proof fn lemma_items_stop(s: Seq<Json>, reg: Registry, n: nat, k: int, m: int)
    requires
        k <= m,
        !(rewritten_items(s, reg, n, k) matches Some(Ok(_))),
    ensures
        rewritten_items(s, reg, n, m) == rewritten_items(s, reg, n, k),
    decreases m - k,
{
    if k < m {
        lemma_items_stop(s, reg, n, k, m - 1);
    }
}

/// How deep the search may go makes no difference to what it finds.
pub proof fn law_depth_makes_no_difference(v: Json, reg: Registry, n: nat, m: nat)
    requires
        n <= m,
        rewritten(v, reg, n) is Some,
    ensures
        rewritten(v, reg, m) == rewritten(v, reg, n),
    decreases n, 0int,
{
    match v {
        Json::Object(_) => match substituted(v, reg) {
            Err(_) => {},
            Ok(o) => match o {
                Json::Object(e) => {
                    lemma_depth_entries(e, reg, (n - 1) as nat, (m - 1) as nat, e.len() as int);
                },
                _ => {},
            },
        },
        Json::Array(s) => {
            lemma_depth_items(s, reg, (n - 1) as nat, (m - 1) as nat, s.len() as int);
        },
        _ => {},
    }
}

proof fn lemma_depth_entries(
    e: Seq<(Seq<char>, Json)>,
    reg: Registry,
    n: nat,
    m: nat,
    k: int,
)
    requires
        n <= m,
        rewritten_entries(e, reg, n, k) is Some,
    ensures
        rewritten_entries(e, reg, m, k) == rewritten_entries(e, reg, n, k),
    decreases n, k,
{
    if k > 0 {
        lemma_depth_entries(e, reg, n, m, k - 1);
        if rewritten_entries(e, reg, n, k - 1) matches Some(Ok(_)) {
            law_depth_makes_no_difference(e[k - 1].1, reg, n, m);
        }
    }
}

proof fn lemma_depth_items(s: Seq<Json>, reg: Registry, n: nat, m: nat, k: int)
    requires
        n <= m,
        rewritten_items(s, reg, n, k) is Some,
    ensures
        rewritten_items(s, reg, m, k) == rewritten_items(s, reg, n, k),
    decreases n, k,
{
    if k > 0 {
        lemma_depth_items(s, reg, n, m, k - 1);
        if rewritten_items(s, reg, n, k - 1) matches Some(Ok(_)) {
            law_depth_makes_no_difference(s[k - 1], reg, n, m);
        }
    }
}

/// The outcome of a search.
pub open spec fn search_result(r: Option<Result<Value, String>>) -> Option<
    Result<Json, Seq<char>>,
> {
    match r {
        None => None,
        Some(Ok(v)) => Some(Ok(v@)),
        Some(Err(m)) => Some(Err(m@)),
    }
}

/// Puts a capability into an object.
fn put_in_of(o: &Value, cap: &NormalizedCapability) -> (r: Value)
    ensures
        r@ == put_in(o@, cap@),
{
    let a = o.dup().and("executor", cap.executor.dup());
    let guards = with_items(reliability::copy_values(&cap.guards), &a, "guards");
    let b = and_list(a, "guards", guards);
    let c = if b.has("reliability") {
        b
    } else {
        and_some(b, "reliability", copy_opt(&cap.reliability))
    };
    if c.has("inputSchema") {
        c
    } else {
        and_some(c, "inputSchema", copy_opt(&cap.input_schema))
    }
}

/// Puts the capabilities into an object that its executor refers to.
fn substitute(o: &Value, reg: &Vec<(String, NormalizedCapability)>, n: usize) -> (r: Result<
    Value,
    String,
>)
    ensures
        value_result(r) == put_in_turn(o@, registry_of(reg@), n as nat),
    decreases n,
{
    let name = match o.get("executor") {
        None => {
            return Ok(o.dup());
        },
        Some(x) => match x.str_at("capability") {
            None => {
                return Ok(o.dup());
            },
            Some(name) => name,
        },
    };
    let cap = match capability(reg, name) {
        None => {
            return Err(text::join3("executor references unknown capability '", name, "'"));
        },
        Some(cap) => cap,
    };
    if n == 0 {
        return Err(text::join3("capability reference cycle detected at '", name, "'"));
    }
    substitute(&put_in_of(o, cap), reg, n - 1)
}

/// Puts capabilities in wherever an executor inside the value refers to one.
pub fn rewrite_executors_in_value(
    value: &Value,
    reg: &Vec<(String, NormalizedCapability)>,
    depth: u64,
) -> (r: Option<Result<Value, String>>)
    ensures
        search_result(r) == rewritten(value@, registry_of(reg@), depth as nat),
    decreases depth,
{
    if depth == 0 {
        return None;
    }
    let ghost g = registry_of(reg@);
    let ghost n = (depth - 1) as nat;
    match value {
        Value::Object(_) => {
            let o = match substitute(value, reg, reg.len()) {
                Err(m) => {
                    return Some(Err(m));
                },
                Ok(o) => o,
            };
            match &o {
                Value::Object(map) => {
                    let ghost e = json::entries(map@);
                    let mut out: Vec<(String, Value)> = Vec::new();
                    assert(json::entries(out@) =~= Seq::empty());
                    let mut i: usize = 0;
                    while i < map.len()
                        invariant
                            i <= map.len(),
                            depth > 0,
                            n == depth - 1,
                            g == registry_of(reg@),
                            e == json::entries(map@),
                            value@ is Object,
                            substituted(value@, g) == Ok::<Json, Seq<char>>(Json::Object(e)),
                            rewritten_entries(e, g, n, i as int) == Some(
                                Ok::<Seq<(Seq<char>, Json)>, Seq<char>>(json::entries(out@)),
                            ),
                        decreases map.len() - i,
                    {
                        assert(e[i as int] == (map@[i as int].0@, map@[i as int].1@));
                        match rewrite_executors_in_value(&map[i].1, reg, depth - 1) {
                            None => {
                                proof {
                                    lemma_entries_stop(e, g, n, i + 1, e.len() as int);
                                }
                                return None;
                            },
                            Some(Err(m)) => {
                                proof {
                                    lemma_entries_stop(e, g, n, i + 1, e.len() as int);
                                }
                                return Some(Err(m));
                            },
                            Some(Ok(v)) => {
                                let k = map[i].0.clone();
                                proof {
                                    json::lemma_entries_push(out@, (k, v));
                                }
                                out.push((k, v));
                            },
                        }
                        i = i + 1;
                    }
                    Some(Ok(Value::Object(out)))
                },
                other => Some(Ok(other.dup())),
            }
        },
        Value::Array(arr) => {
            let ghost s = json::views(arr@);
            let mut out: Vec<Value> = Vec::new();
            assert(json::views(out@) =~= Seq::empty());
            let mut i: usize = 0;
            while i < arr.len()
                invariant
                    i <= arr.len(),
                    depth > 0,
                    n == depth - 1,
                    g == registry_of(reg@),
                    s == json::views(arr@),
                    value@ == Json::Array(s),
                    rewritten_items(s, g, n, i as int) == Some(
                        Ok::<Seq<Json>, Seq<char>>(json::views(out@)),
                    ),
                decreases arr.len() - i,
            {
                assert(s[i as int] == arr@[i as int]@);
                match rewrite_executors_in_value(&arr[i], reg, depth - 1) {
                    None => {
                        proof {
                            lemma_items_stop(s, g, n, i + 1, s.len() as int);
                        }
                        return None;
                    },
                    Some(Err(m)) => {
                        proof {
                            lemma_items_stop(s, g, n, i + 1, s.len() as int);
                        }
                        return Some(Err(m));
                    },
                    Some(Ok(v)) => {
                        proof {
                            json::lemma_views_push(out@, v);
                        }
                        out.push(v);
                    },
                }
                i = i + 1;
            }
            Some(Ok(Value::Array(out)))
        },
        other => Some(Ok(other.dup())),
    }
}

// ---------------------------------------------------------------------------
// Configurations
// ---------------------------------------------------------------------------

/// An object with the capability put in that its executor refers to.
pub open spec fn put_once(o: Json, reg: Registry) -> Result<Json, Seq<char>> {
    match reference(o) {
        None => Ok(o),
        Some(name) => match json::find(reg, name) {
            None => Err("executor references unknown capability '"@ + name + "'"@),
            Some(cap) => Ok(put_in(o, cap)),
        },
    }
}

/// The first reference to an unknown capability inside a value, as a fault; what is put
/// in for a known one is searched as well, and references that it brings stay. `None`
/// where that is nested deeper than `n`.
pub open spec fn searched(v: Json, reg: Registry, n: nat) -> Option<Option<Seq<char>>>
    decreases n, 0int,
{
    if n == 0 {
        None
    } else {
        match v {
            Json::Object(_) => match put_once(v, reg) {
                Err(m) => Some(Some(m)),
                Ok(o) => match o {
                    Json::Object(e) => searched_entries(e, reg, (n - 1) as nat, 0),
                    _ => Some(None),
                },
            },
            Json::Array(s) => searched_items(s, reg, (n - 1) as nat, 0),
            _ => Some(None),
        }
    }
}

/// The first such reference among the entries from `i` on.
pub open spec fn searched_entries(
    e: Seq<(Seq<char>, Json)>,
    reg: Registry,
    n: nat,
    i: int,
) -> Option<Option<Seq<char>>>
    decreases n, e.len() - i + 1,
{
    if i < 0 || i >= e.len() {
        Some(None)
    } else {
        match searched(e[i].1, reg, n) {
            Some(None) => searched_entries(e, reg, n, i + 1),
            other => other,
        }
    }
}

/// The first such reference among the items from `i` on.
pub open spec fn searched_items(s: Seq<Json>, reg: Registry, n: nat, i: int) -> Option<
    Option<Seq<char>>,
>
    decreases n, s.len() - i + 1,
{
    if i < 0 || i >= s.len() {
        Some(None)
    } else {
        match searched(s[i], reg, n) {
            Some(None) => searched_items(s, reg, n, i + 1),
            other => other,
        }
    }
}

/// The first `k` entries of a configuration, rewritten in order. The capabilities are
/// left out: they are only searched, so that references among themselves may go round
/// in a circle.
pub open spec fn settled_entries(
    e: Seq<(Seq<char>, Json)>,
    reg: Registry,
    n: nat,
    k: int,
) -> Option<Result<Seq<(Seq<char>, Json)>, Seq<char>>>
    decreases k,
{
    if k <= 0 {
        Some(Ok(Seq::empty()))
    } else {
        match settled_entries(e, reg, n, k - 1) {
            None => None,
            Some(Err(m)) => Some(Err(m)),
            Some(Ok(done)) => if e[k - 1].0 == "capabilities"@ {
                match searched(e[k - 1].1, reg, n) {
                    None => None,
                    Some(Some(m)) => Some(Err(m)),
                    Some(None) => Some(Ok(done)),
                }
            } else {
                match rewritten(e[k - 1].1, reg, n) {
                    None => None,
                    Some(Err(m)) => Some(Err(m)),
                    Some(Ok(v)) => Some(Ok(done.push((e[k - 1].0, v)))),
                }
            },
        }
    }
}

/// A configuration with the capabilities put in that executors inside it refer to, and
/// without the capabilities themselves. `None` where that is nested deeper than `n`.
pub open spec fn settled_within(c: Json, reg: Registry, n: nat) -> Option<
    Result<Json, Seq<char>>,
> {
    if n == 0 {
        None
    } else {
        match c {
            Json::Object(_) => match substituted(c, reg) {
                Err(m) => Some(Err(m)),
                Ok(o) => match o {
                    Json::Object(e) => match settled_entries(
                        e,
                        reg,
                        (n - 1) as nat,
                        e.len() as int,
                    ) {
                        None => None,
                        Some(Err(m)) => Some(Err(m)),
                        Some(Ok(done)) => Some(Ok(Json::Object(done))),
                    },
                    other => Some(Ok(other)),
                },
            },
            other => rewritten(other, reg, n),
        }
    }
}

/// Once the first entries decide, further ones make no difference.
proof fn lemma_settled_stop(e: Seq<(Seq<char>, Json)>, reg: Registry, n: nat, k: int, m: int)
    requires
        k <= m,
        !(settled_entries(e, reg, n, k) matches Some(Ok(_))),
    ensures
        settled_entries(e, reg, n, m) == settled_entries(e, reg, n, k),
    decreases m - k,
{
    if k < m {
        lemma_settled_stop(e, reg, n, k, m - 1);
    }
}

proof fn lemma_searched_deeper(v: Json, reg: Registry, n: nat, m: nat)
    requires
        n <= m,
        searched(v, reg, n) is Some,
    ensures
        searched(v, reg, m) == searched(v, reg, n),
    decreases n, 0int,
{
    match v {
        Json::Object(_) => match put_once(v, reg) {
            Err(_) => {},
            Ok(o) => match o {
                Json::Object(e) => {
                    lemma_searched_entries_deeper(e, reg, (n - 1) as nat, (m - 1) as nat, 0);
                },
                _ => {},
            },
        },
        Json::Array(s) => {
            lemma_searched_items_deeper(s, reg, (n - 1) as nat, (m - 1) as nat, 0);
        },
        _ => {},
    }
}

proof fn lemma_searched_entries_deeper(
    e: Seq<(Seq<char>, Json)>,
    reg: Registry,
    n: nat,
    m: nat,
    i: int,
)
    requires
        n <= m,
        searched_entries(e, reg, n, i) is Some,
    ensures
        searched_entries(e, reg, m, i) == searched_entries(e, reg, n, i),
    decreases n, e.len() - i + 1,
{
    if 0 <= i < e.len() {
        lemma_searched_deeper(e[i].1, reg, n, m);
        if searched(e[i].1, reg, n) == Some(None::<Seq<char>>) {
            lemma_searched_entries_deeper(e, reg, n, m, i + 1);
        }
    }
}

proof fn lemma_searched_items_deeper(s: Seq<Json>, reg: Registry, n: nat, m: nat, i: int)
    requires
        n <= m,
        searched_items(s, reg, n, i) is Some,
    ensures
        searched_items(s, reg, m, i) == searched_items(s, reg, n, i),
    decreases n, s.len() - i + 1,
{
    if 0 <= i < s.len() {
        lemma_searched_deeper(s[i], reg, n, m);
        if searched(s[i], reg, n) == Some(None::<Seq<char>>) {
            lemma_searched_items_deeper(s, reg, n, m, i + 1);
        }
    }
}

proof fn lemma_settled_entries_deeper(
    e: Seq<(Seq<char>, Json)>,
    reg: Registry,
    n: nat,
    m: nat,
    k: int,
)
    requires
        n <= m,
        settled_entries(e, reg, n, k) is Some,
    ensures
        settled_entries(e, reg, m, k) == settled_entries(e, reg, n, k),
    decreases k,
{
    if k > 0 {
        lemma_settled_entries_deeper(e, reg, n, m, k - 1);
        if settled_entries(e, reg, n, k - 1) matches Some(Ok(_)) {
            if e[k - 1].0 == "capabilities"@ {
                lemma_searched_deeper(e[k - 1].1, reg, n, m);
            } else {
                law_depth_makes_no_difference(e[k - 1].1, reg, n, m);
            }
        }
    }
}

/// How deep the search of a configuration may go makes no difference to what it finds.
pub proof fn law_settling_depth(c: Json, reg: Registry, n: nat, m: nat)
    requires
        n <= m,
        settled_within(c, reg, n) is Some,
    ensures
        settled_within(c, reg, m) == settled_within(c, reg, n),
{
    match c {
        Json::Object(_) => {
            if let Ok(o) = substituted(c, reg) {
                if let Json::Object(e) = o {
                    lemma_settled_entries_deeper(
                        e,
                        reg,
                        (n - 1) as nat,
                        (m - 1) as nat,
                        e.len() as int,
                    );
                }
            }
        },
        _ => {
            law_depth_makes_no_difference(c, reg, n, m);
        },
    }
}

/// The outcome of a search for faults.
pub open spec fn search_fault(r: Option<Result<(), String>>) -> Option<Option<Seq<char>>> {
    match r {
        None => None,
        Some(Ok(_)) => Some(None),
        Some(Err(m)) => Some(Some(m@)),
    }
}

/// Looks for references to unknown capabilities inside a value.
fn search(value: &Value, reg: &Vec<(String, NormalizedCapability)>, depth: u64) -> (r: Option<
    Result<(), String>,
>)
    ensures
        search_fault(r) == searched(value@, registry_of(reg@), depth as nat),
    decreases depth,
{
    if depth == 0 {
        return None;
    }
    let ghost g = registry_of(reg@);
    let ghost n = (depth - 1) as nat;
    match value {
        Value::Object(_) => {
            let o = match value.get("executor") {
                None => value.dup(),
                Some(x) => match x.str_at("capability") {
                    None => value.dup(),
                    Some(name) => match capability(reg, name) {
                        None => {
                            return Some(
                                Err(
                                    text::join3(
                                        "executor references unknown capability '",
                                        name,
                                        "'",
                                    ),
                                ),
                            );
                        },
                        Some(cap) => put_in_of(value, cap),
                    },
                },
            };
            assert(put_once(value@, g) == Ok::<Json, Seq<char>>(o@));
            match &o {
                Value::Object(map) => {
                    let ghost e = json::entries(map@);
                    let mut i: usize = 0;
                    while i < map.len()
                        invariant
                            i <= map.len(),
                            depth > 0,
                            n == depth - 1,
                            g == registry_of(reg@),
                            e == json::entries(map@),
                            searched_entries(e, g, n, i as int) == searched(value@, g, depth as nat),
                        decreases map.len() - i,
                    {
                        assert(e[i as int] == (map@[i as int].0@, map@[i as int].1@));
                        match search(&map[i].1, reg, depth - 1) {
                            Some(Ok(_)) => {},
                            other => {
                                return other;
                            },
                        }
                        i = i + 1;
                    }
                    Some(Ok(()))
                },
                _ => Some(Ok(())),
            }
        },
        Value::Array(arr) => {
            let ghost s = json::views(arr@);
            let mut i: usize = 0;
            while i < arr.len()
                invariant
                    i <= arr.len(),
                    depth > 0,
                    n == depth - 1,
                    g == registry_of(reg@),
                    s == json::views(arr@),
                    searched_items(s, g, n, i as int) == searched(value@, g, depth as nat),
                decreases arr.len() - i,
            {
                assert(s[i as int] == arr@[i as int]@);
                match search(&arr[i], reg, depth - 1) {
                    Some(Ok(_)) => {},
                    other => {
                        return other;
                    },
                }
                i = i + 1;
            }
            Some(Ok(()))
        },
        _ => Some(Ok(())),
    }
}

/// Puts capabilities in wherever an executor inside the configuration refers to one, and
/// takes the capabilities out.
pub fn settle_config(
    config: &Value,
    reg: &Vec<(String, NormalizedCapability)>,
    depth: u64,
) -> (r: Option<Result<Value, String>>)
    ensures
        search_result(r) == settled_within(config@, registry_of(reg@), depth as nat),
{
    if depth == 0 {
        return None;
    }
    if !config.is_object() {
        return rewrite_executors_in_value(config, reg, depth);
    }
    let ghost g = registry_of(reg@);
    let ghost n = (depth - 1) as nat;
    let o = match substitute(config, reg, reg.len()) {
        Err(m) => {
            return Some(Err(m));
        },
        Ok(o) => o,
    };
    match &o {
        Value::Object(map) => {
            let ghost e = json::entries(map@);
            let mut out: Vec<(String, Value)> = Vec::new();
            assert(json::entries(out@) =~= Seq::empty());
            let mut i: usize = 0;
            while i < map.len()
                invariant
                    i <= map.len(),
                    depth > 0,
                    n == depth - 1,
                    g == registry_of(reg@),
                    e == json::entries(map@),
                    config@ is Object,
                    substituted(config@, g) == Ok::<Json, Seq<char>>(Json::Object(e)),
                    settled_entries(e, g, n, i as int) == Some(
                        Ok::<Seq<(Seq<char>, Json)>, Seq<char>>(json::entries(out@)),
                    ),
                decreases map.len() - i,
            {
                assert(e[i as int] == (map@[i as int].0@, map@[i as int].1@));
                let stop = if text::str_eq(map[i].0.as_str(), "capabilities") {
                    match search(&map[i].1, reg, depth - 1) {
                        Some(Ok(_)) => {
                            i = i + 1;
                            continue;
                        },
                        Some(Err(m)) => Some(Err(m)),
                        None => None,
                    }
                } else {
                    match rewrite_executors_in_value(&map[i].1, reg, depth - 1) {
                        Some(Ok(v)) => {
                            let k = map[i].0.clone();
                            proof {
                                json::lemma_entries_push(out@, (k, v));
                            }
                            out.push((k, v));
                            i = i + 1;
                            continue;
                        },
                        Some(Err(m)) => Some(Err(m)),
                        None => None,
                    }
                };
                proof {
                    lemma_settled_stop(e, g, n, i + 1, e.len() as int);
                }
                return stop;
            }
            Some(Ok(Value::Object(out)))
        },
        other => Some(Ok(other.dup())),
    }
}

} // verus!
