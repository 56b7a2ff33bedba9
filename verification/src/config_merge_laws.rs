//! What merging configurations and putting in capabilities are for: laws about whose word
//! counts, read key by key.
use crate::config_capabilities;
use crate::config_capabilities::{CapView, Registry};
use crate::config_merge;
use crate::json;
use crate::json::Json;
use vstd::prelude::*;

verus! {

// ---------------------------------------------------------------------------
// Merging
// ---------------------------------------------------------------------------

/// The later word counts: where two mappings say different things under a key, the second is
/// right unless both are mappings or both are lists; what only one of them says stays, and
/// lists are put one after the other.
pub proof fn law_later_word_counts(a: Json, b: Json, key: Seq<char>)
    requires
        a is Object,
        b is Object,
        b.wf(),
    ensures
        ({
            let m = config_merge::merged(a, b);
            &&& m is Object
            &&& b.get(key) is None ==> m.get(key) == a.get(key)
            &&& a.get(key) is None ==> m.get(key) == b.get(key)
            &&& a.get(key) matches Some(x) ==> (b.get(key) matches Some(y) ==> (!(x is Object
                && y is Object) && !(x is Array && y is Array) ==> m.get(key) == Some(y)))
            &&& forall|x: Seq<Json>, y: Seq<Json>|
                a.get(key) == Some(Json::Array(x)) && b.get(key) == Some(Json::Array(y)) ==> m.get(
                    key,
                ) == Some(Json::Array(#[trigger] (x + y)))
        }),
{
    config_merge::law_merged_key_by_key(a, b, key);
}

proof fn lemma_included_object(parts: Seq<Json>, n: int)
    requires
        0 <= n <= parts.len(),
        forall|i: int| 0 <= i < parts.len() ==> (#[trigger] parts[i]) is Object,
    ensures
        config_merge::included(parts, n) is Object,
    decreases n,
{
    if n > 0 {
        lemma_included_object(parts, n - 1);
        assert(parts[n - 1] is Object);
    }
}

/// A configuration goes before those that it includes: what it says itself counts, what it
/// does not say comes from them, and the list of what it includes is gone.
pub proof fn law_own_word_goes_before_included(parts: Seq<Json>, body: Json, key: Seq<char>)
    requires
        body.wf(),
        body is Object,
        forall|i: int| 0 <= i < parts.len() ==> (#[trigger] parts[i]) is Object,
    ensures
        ({
            let c = config_merge::with_included(parts, body);
            let rest = config_merge::included(parts, parts.len() as int);
            &&& key != "include"@ ==> (body.get(key) matches Some(v) ==> (!(v is Object) && !(
            v is Array) ==> c.get(key) == Some(v)))
            &&& body.get(key) is None ==> c.get(key) == rest.get(key)
            &&& rest.get(key) is None && key != "include"@ ==> c.get(key) == body.get(key)
            &&& rest.get("include"@) is None ==> c.get("include"@) is None
        }),
{
    json::law_get_minus(body, "include"@, key);
    json::law_get_minus(body, "include"@, "include"@);
    lemma_included_object(parts, parts.len() as int);
    assert(body.minus("include"@) is Object) by {
        reveal(Json::minus);
    }
    law_later_word_counts(
        config_merge::included(parts, parts.len() as int),
        body.minus("include"@),
        key,
    );
    law_later_word_counts(
        config_merge::included(parts, parts.len() as int),
        body.minus("include"@),
        "include"@,
    );
}

/// Of the included configurations the later one counts.
pub proof fn law_later_include_counts(parts: Seq<Json>, n: int, key: Seq<char>)
    requires
        0 < n <= parts.len(),
        forall|i: int| 0 <= i < parts.len() ==> (#[trigger] parts[i]) is Object,
        parts[n - 1].wf(),
    ensures
        ({
            let before = config_merge::included(parts, n - 1);
            let now = config_merge::included(parts, n);
            &&& parts[n - 1].get(key) is None ==> now.get(key) == before.get(key)
            &&& parts[n - 1].get(key) matches Some(v) ==> (!(v is Object) && !(v is Array)
                ==> now.get(key) == Some(v))
            &&& before.get(key) is None ==> now.get(key) == parts[n - 1].get(key)
        }),
{
    lemma_included_object(parts, n - 1);
    assert(parts[n - 1] is Object);
    law_later_word_counts(config_merge::included(parts, n - 1), parts[n - 1], key);
}

// ---------------------------------------------------------------------------
// Capabilities
// ---------------------------------------------------------------------------

/// A capability that wraps no other says everything itself.
pub proof fn law_own_words_of_a_capability(
    raw: Seq<(Seq<char>, Json)>,
    name: Seq<char>,
    def: Json,
    x: Json,
)
    requires
        json::find(raw, name) == Some(def),
        def.str_at("wraps"@) is None,
        def.get("executor"@) == Some(x),
    ensures
        config_capabilities::flat(raw, name, Seq::empty()) matches Ok(c) && c.executor == x
            && c.input_schema == def.get("inputSchema"@) && c.title == def.str_at("title"@)
            && c.description == def.str_at("description"@) && c.tags == def.items_at("tags"@)
            && c.examples == def.items_at("examples"@) && c.guards == def.items_at("guards"@)
            && c.reliability == def.get("reliability"@),
{
    config_capabilities::law_plain_capability(raw, name, def, x);
}

/// A capability that wraps another inherits what it does not say itself; its tags, examples
/// and guards come after those of the other.
pub proof fn law_wrapping_inherits(
    raw: Seq<(Seq<char>, Json)>,
    name: Seq<char>,
    parent: Seq<char>,
    def: Json,
    path: Seq<Seq<char>>,
    p: CapView,
)
    requires
        config_capabilities::valid_path(raw, path),
        !path.contains(name),
        json::find(raw, name) == Some(def),
        def.str_at("wraps"@) == Some(parent),
        config_capabilities::flat(raw, parent, path.push(name)) == Ok::<CapView, Seq<char>>(p),
    ensures
        config_capabilities::flat(raw, name, path) is Ok,
        ({
            let c = config_capabilities::flat(raw, name, path)->Ok_0;
            &&& c.executor == match def.get("executor"@) {
                Some(x) => x,
                None => p.executor,
            }
            &&& def.get("inputSchema"@) is Some ==> c.input_schema == def.get("inputSchema"@)
            &&& def.get("inputSchema"@) is None ==> c.input_schema == p.input_schema
            &&& def.str_at("title"@) is Some ==> c.title == def.str_at("title"@)
            &&& def.str_at("title"@) is None ==> c.title == p.title
            &&& def.str_at("description"@) is Some ==> c.description == def.str_at("description"@)
            &&& def.str_at("description"@) is None ==> c.description == p.description
            &&& def.get("reliability"@) is Some ==> c.reliability == def.get("reliability"@)
            &&& def.get("reliability"@) is None ==> c.reliability == p.reliability
            &&& c.tags == p.tags + def.items_at("tags"@)
            &&& c.examples == p.examples + def.items_at("examples"@)
            &&& c.guards == p.guards + def.items_at("guards"@)
        }),
{
}

/// A capability is refused exactly where it comes round to itself, is not defined, has
/// neither an executor nor another to wrap, or wraps one that is refused.
pub proof fn law_refused_capabilities(
    raw: Seq<(Seq<char>, Json)>,
    name: Seq<char>,
    path: Seq<Seq<char>>,
)
    requires
        config_capabilities::valid_path(raw, path),
    ensures
        config_capabilities::flat(raw, name, path) is Err <==> {
            ||| path.contains(name)
            ||| json::find(raw, name) is None
            ||| json::find(raw, name) matches Some(def) && def.str_at("wraps"@) is None && def.get(
                "executor"@,
            ) is None
            ||| json::find(raw, name) matches Some(def) && (def.str_at("wraps"@) matches Some(parent)
                && config_capabilities::flat(raw, parent, path.push(name)) is Err)
        },
{
}

proof fn lemma_registry_upto(raw: Seq<(Seq<char>, Json)>, n: int)
    requires
        0 <= n <= raw.len(),
        config_capabilities::registry_upto(raw, n) is Ok,
    ensures
        ({
            let reg = config_capabilities::registry_upto(raw, n)->Ok_0;
            &&& reg.len() == n
            &&& forall|i: int|
                0 <= i < n ==> (#[trigger] reg[i]).0 == raw[i].0 && config_capabilities::flat(
                    raw,
                    raw[i].0,
                    Seq::empty(),
                ) == Ok::<CapView, Seq<char>>(reg[i].1)
        }),
    decreases n,
{
    if n > 0 {
        lemma_registry_upto(raw, n - 1);
    }
}

/// Every capability of a configuration is there under its own name.
pub proof fn law_capabilities_keep_their_names(config: Json, i: int)
    requires
        config_capabilities::registry(config) is Ok,
        0 <= i < config.entries_at("capabilities"@).len(),
    ensures
        ({
            let raw = config.entries_at("capabilities"@);
            let reg = config_capabilities::registry(config)->Ok_0;
            &&& reg.len() == raw.len()
            &&& reg[i].0 == raw[i].0
            &&& config_capabilities::flat(raw, raw[i].0, Seq::empty()) == Ok::<CapView, Seq<char>>(
                reg[i].1,
            )
        }),
{
    let raw = config.entries_at("capabilities"@);
    lemma_registry_upto(raw, raw.len() as int);
}

proof fn lemma_words()
    ensures
        "name"@.len() == 4,
        "title"@.len() == 5,
        "description"@.len() == 11 && "description"@[0] == 'd',
        "inputSchema"@.len() == 11 && "inputSchema"@[0] == 'i',
        "tags"@.len() == 4,
        "name"@ != "tags"@,
        "guards"@.len() == 6,
        "reliability"@.len() == 11 && "reliability"@[0] == 'r',
        "executor"@.len() == 8,
{
    reveal_strlit("name");
    reveal_strlit("title");
    reveal_strlit("description");
    reveal_strlit("inputSchema");
    reveal_strlit("tags");
    reveal_strlit("guards");
    reveal_strlit("reliability");
    reveal_strlit("executor");
    assert("name"@[0] == 'n' && "tags"@[0] == 't');
}

/// An exposed capability has the name that the exposure gives it, or its own; its executor,
/// title and schema; the exposure's description and reliability before its own; and its tags
/// and guards before those of the exposure. One that nobody defined is refused, and an
/// exposure that names none stays as it is.
pub proof fn law_exposures_show_their_capability(
    ex: Json,
    name: Seq<char>,
    reg: Registry,
)
    ensures
        ex.str_at("capability"@) is None ==> config_capabilities::exposure(ex, reg) == Ok::<
            Json,
            Seq<char>,
        >(ex),
        ex.str_at("capability"@) == Some(name) && json::find(reg, name) is None
            ==> config_capabilities::exposure(ex, reg) is Err,
        ex.str_at("capability"@) == Some(name) ==> (json::find(reg, name) matches Some(cap) ==> (
        config_capabilities::exposure(ex, reg) matches Ok(x) && x.get("executor"@) == Some(
            cap.executor,
        ) && x.get("name"@) == Some(
            Json::String(
                match ex.str_at("as"@) {
                    Some(a) => a,
                    None => name,
                },
            ),
        ) && x.get("inputSchema"@) == cap.input_schema && (cap.title matches Some(t) ==> x.get(
            "title"@,
        ) == Some(Json::String(t))) && (ex.str_at("description"@) matches Some(d) ==> x.get(
            "description"@,
        ) == Some(Json::String(d))) && (ex.str_at("description"@) is None ==> (cap.description
            matches Some(d) ==> x.get("description"@) == Some(Json::String(d)))) && (ex.get(
            "reliability"@,
        ) is Some ==> x.get("reliability"@) == ex.get("reliability"@)) && (ex.get("reliability"@)
            is None ==> x.get("reliability"@) == cap.reliability) && ((cap.guards + ex.items_at(
            "guards"@,
        )).len() > 0 ==> x.get("guards"@) == Some(
            Json::Array(cap.guards + ex.items_at("guards"@)),
        )) && ((cap.tags + ex.items_at("tags"@)).len() > 0 ==> x.get("tags"@) == Some(
            Json::Array(cap.tags + ex.items_at("tags"@)),
        )))),
{
    json::lemma_reads();
    lemma_words();
}

/// Where an executor refers to a capability, the capability's executor takes its place and
/// its guards come before those that are there; a reliability and an input schema that are
/// there stay, and come from the capability otherwise; everything else stays.
pub proof fn law_capabilities_are_put_in(o: Json, cap: CapView, key: Seq<char>)
    requires
        o is Object,
    ensures
        ({
            let r = config_capabilities::put_in(o, cap);
            &&& r.get("executor"@) == Some(cap.executor)
            &&& cap.guards.len() > 0 ==> r.get("guards"@) == Some(
                Json::Array(cap.guards + o.items_at("guards"@)),
            )
            &&& o.get("reliability"@) is Some ==> r.get("reliability"@) == o.get("reliability"@)
            &&& o.get("reliability"@) is None ==> r.get("reliability"@) == cap.reliability
            &&& o.get("inputSchema"@) is Some ==> r.get("inputSchema"@) == o.get("inputSchema"@)
            &&& o.get("inputSchema"@) is None ==> r.get("inputSchema"@) == cap.input_schema
            &&& key != "executor"@ && key != "guards"@ && key != "reliability"@ && key
                != "inputSchema"@ ==> r.get(key) == o.get(key)
        }),
{
    json::lemma_reads();
    lemma_words();
}

/// A reference is followed to its end: what comes out refers to no capability any more, and a
/// reference to one that nobody defined is refused.
pub proof fn law_references_are_followed(o: Json, reg: Registry, n: nat)
    ensures
        config_capabilities::put_in_turn(o, reg, n) matches Ok(r) ==> (r.get("executor"@)
            matches Some(x) ==> x.str_at("capability"@) is None),
        (o.get("executor"@) matches Some(x) && (x.str_at("capability"@) matches Some(name)
            && json::find(reg, name) is None)) ==> config_capabilities::put_in_turn(o, reg, n)
            is Err,
        !(o.get("executor"@) matches Some(x) && x.str_at("capability"@) is Some)
            ==> config_capabilities::put_in_turn(o, reg, n) == Ok::<Json, Seq<char>>(o),
    decreases n,
{
    if let Some(name) = config_capabilities::reference(o) {
        if let Some(cap) = json::find(reg, name) {
            if n > 0 {
                law_references_are_followed(
                    config_capabilities::put_in(o, cap),
                    reg,
                    (n - 1) as nat,
                );
            }
        }
    }
}

proof fn lemma_rewritten_entries(e: Seq<(Seq<char>, Json)>, reg: Registry, n: nat, k: int)
    requires
        0 <= k <= e.len(),
    ensures
        config_capabilities::rewritten_entries(e, reg, n, k) matches Some(Ok(d)) ==> d.len() == k
            && forall|i: int|
            0 <= i < k ==> (#[trigger] d[i]).0 == e[i].0 && config_capabilities::rewritten(
                e[i].1,
                reg,
                n,
            ) == Some(Ok::<Json, Seq<char>>(d[i].1)),
    decreases k,
{
    if k > 0 {
        lemma_rewritten_entries(e, reg, n, k - 1);
    }
}

proof fn lemma_rewritten_items(s: Seq<Json>, reg: Registry, n: nat, k: int)
    requires
        0 <= k <= s.len(),
    ensures
        config_capabilities::rewritten_items(s, reg, n, k) matches Some(Ok(d)) ==> d.len() == k
            && forall|i: int|
            0 <= i < k ==> config_capabilities::rewritten(s[i], reg, n) == Some(
                Ok::<Json, Seq<char>>(#[trigger] d[i]),
            ),
    decreases k,
{
    if k > 0 {
        lemma_rewritten_items(s, reg, n, k - 1);
    }
}

/// References are followed everywhere inside a value: each item of a list, and each entry of
/// a mapping into which its own capability was put first. Nothing is left out, and a plain
/// value stays as it is.
pub proof fn law_references_are_followed_everywhere(v: Json, reg: Registry, n: nat)
    requires
        n > 0,
    ensures
        ({
            let m = (n - 1) as nat;
            let r = config_capabilities::rewritten(v, reg, n);
            &&& v matches Json::Array(s) ==> (r matches Some(Ok(w)) ==> (w matches Json::Array(d)
                && d.len() == s.len() && forall|i: int|
                0 <= i < s.len() ==> config_capabilities::rewritten(s[i], reg, m) == Some(
                    Ok::<Json, Seq<char>>(#[trigger] d[i]),
                )))
            &&& v is Object ==> (r matches Some(Ok(w)) ==> (config_capabilities::put_in_turn(
                v,
                reg,
                reg.len(),
            ) matches Ok(o) && (o matches Json::Object(e) ==> (w matches Json::Object(d) && d.len()
                == e.len() && forall|i: int|
                0 <= i < e.len() ==> (#[trigger] d[i]).0 == e[i].0
                    && config_capabilities::rewritten(e[i].1, reg, m) == Some(
                    Ok::<Json, Seq<char>>(d[i].1),
                )))))
            &&& !(v is Array) && !(v is Object) ==> r == Some(Ok::<Json, Seq<char>>(v))
        }),
{
    let m = (n - 1) as nat;
    match v {
        Json::Array(s) => {
            lemma_rewritten_items(s, reg, m, s.len() as int);
        },
        Json::Object(_) => {
            if let Ok(Json::Object(e)) = config_capabilities::put_in_turn(v, reg, reg.len()) {
                lemma_rewritten_entries(e, reg, m, e.len() as int);
            }
        },
        _ => {},
    }
}

} // verus!
