//! What the steps of a resolution never bring into a definition: a reference to a
//! capability, or a key that is reserved to the gateway.
use crate::config_capabilities;
use crate::config_check;
use crate::config_check::Place;
use crate::config_growth;
use crate::config_hash;
use crate::config_stamp;
use crate::json;
use crate::json::{Json, Number};
use crate::validate_rules;
use vstd::prelude::*;

verus! {

// ---------------------------------------------------------------------------
// References
// ---------------------------------------------------------------------------

/// Some executor inside the value refers to a capability.
pub open spec fn refers(v: Json) -> bool
    decreases v,
{
    match v {
        Json::Object(e) => config_capabilities::reference(v) is Some || exists|i: int|
            0 <= i < e.len() && refers((#[trigger] e[i]).1),
        Json::Array(s) => exists|i: int| 0 <= i < s.len() && refers(#[trigger] s[i]),
        _ => false,
    }
}

/// The value names no capability.
pub open spec fn nameless(v: Json) -> bool {
    v.str_at("capability"@) is None
}

/// What stands under a key of a value without references is without references.
pub proof fn lemma_unref_get(o: Json, k: Seq<char>)
    requires
        !refers(o),
    ensures
        o.get(k) matches Some(x) ==> !refers(x) && (k == "executor"@ ==> nameless(x)),
{
    reveal(Json::get);
    if let Json::Object(e) = o {
        json::lemma_find_member(e, k);
        if let Some(x) = json::find(e, k) {
            let i = choose|i: int| 0 <= i < e.len() && e[i].0 == k && #[trigger] e[i].1 == x;
            assert(!refers(e[i].1));
        }
    }
}

/// Writing a value without references into an object without any leaves it so.
pub proof fn lemma_unref_with(o: Json, k: Seq<char>, x: Json)
    requires
        !refers(o),
        !refers(x),
        k == "executor"@ ==> nameless(x),
    ensures
        !refers(o.with(k, x)),
{
    if let Json::Object(e) = o {
        json::law_get_with(o, k, x, "executor"@);
        lemma_unref_get(o, "executor"@);
        reveal(Json::with);
        json::lemma_put_member(e, k, x);
        let p = json::put(e, k, x);
        assert forall|i: int| 0 <= i < p.len() implies !refers((#[trigger] p[i]).1) by {
            if p[i] != (k, x) {
                let j = choose|j: int| 0 <= j < e.len() && e[j] == p[i];
                assert(!refers(e[j].1));
            }
        }
    } else {
        reveal(Json::with);
    }
}

/// Mapping the values under a key by what brings no references into them, and changes
/// nothing by which they name a capability, brings in none.
pub proof fn lemma_unref_over(c: Json, key: Seq<char>, f: spec_fn(Seq<char>, Json) -> Json)
    requires
        !refers(c),
        key != "executor"@,
        c.object_at(key) matches Some(e) ==> forall|i: int|
            0 <= i < e.len() ==> !refers(f((#[trigger] e[i]).0, e[i].1)) && f(e[i].0, e[i].1).get(
                "capability"@,
            ) == e[i].1.get("capability"@),
    ensures
        !refers(config_stamp::over(c, key, f)),
{
    if let Some(e) = c.object_at(key) {
        let o = Json::Object(e);
        let m = config_stamp::mapped(e, f);
        lemma_unref_get(c, key);
        assert(c.get(key) == Some(o));
        assert forall|i: int| 0 <= i < m.len() implies !refers((#[trigger] m[i]).1) by {
            assert(!refers(f(e[i].0, e[i].1)));
        }
        config_growth::lemma_find_mapped(e, f, "executor"@);
        lemma_unref_get(o, "executor"@);
        assert(config_capabilities::reference(Json::Object(m)) is None) by {
            reveal(Json::get);
            json::lemma_find_member(e, "executor"@);
            if let Some(x) = json::find(e, "executor"@) {
                let i = choose|i: int|
                    0 <= i < e.len() && e[i].0 == "executor"@ && #[trigger] e[i].1 == x;
                assert(f(e[i].0, e[i].1).get("capability"@) == x.get("capability"@));
            }
        }
        lemma_unref_with(c, key, Json::Object(m));
    }
}

// ---------------------------------------------------------------------------
// Gateway keys
// ---------------------------------------------------------------------------

/// A key under which resolution writes into a definition.
pub open spec fn stamped_key(k: Seq<char>) -> bool {
    k == "_skillsLibrary"@ || k == "_scriptsLibrary"@ || k == "_authoringPrefs"@ || k
        == "_lexiconLibrary"@
}

/// No key inside the value is reserved to the gateway, apart from what is passed over.
/// What a definition holds under the keys that resolution writes is not looked at.
pub open spec fn unflagged(v: Json, spared: Json, place: Place) -> bool
    decreases v,
{
    match v {
        Json::Object(e) => forall|i: int|
            0 <= i < e.len() ==> (place == Place::Definition && stamped_key((#[trigger] e[i]).0))
                || spared.get(e[i].0) == Some(e[i].1) || (!config_check::gateway_key(e[i].0)
                && unflagged(
                e[i].1,
                config_check::spared_below(v, place, e[i].0),
                place.below(e[i].0),
            )),
        Json::Array(s) => forall|i: int|
            0 <= i < s.len() ==> unflagged(#[trigger] s[i], Json::empty(), Place::Elsewhere),
        _ => true,
    }
}

/// The entry holds no key that is reserved to the gateway.
pub open spec fn entry_unflagged(o: Json, k: Seq<char>, x: Json, spared: Json, place: Place) -> bool {
    (place == Place::Definition && stamped_key(k)) || spared.get(k) == Some(x) || (
    !config_check::gateway_key(k) && unflagged(
        x,
        config_check::spared_below(o, place, k),
        place.below(k),
    ))
}

/// The check passes over the entry, or finds no key in it.
pub open spec fn entry_passes(o: Json, k: Seq<char>, x: Json, spared: Json, place: Place) -> bool {
    spared.get(k) == Some(x) || (!config_check::gateway_key(k) && unflagged(
        x,
        config_check::spared_below(o, place, k),
        place.below(k),
    ))
}

/// The check finds a fault in a definition exactly where some entry does not pass.
pub open spec fn passes(v: Json, spared: Json, place: Place) -> bool {
    match v {
        Json::Object(e) => forall|i: int|
            0 <= i < e.len() ==> entry_passes(v, (#[trigger] e[i]).0, e[i].1, spared, place),
        Json::Array(s) => forall|i: int|
            0 <= i < s.len() ==> unflagged(#[trigger] s[i], Json::empty(), Place::Elsewhere),
        _ => true,
    }
}

/// The check finds a fault exactly where there is such a key.
pub proof fn lemma_passes(v: Json, path: Seq<char>, spared: Json, place: Place)
    ensures
        config_check::flag_fault(v, path, place, spared) is None <==> passes(v, spared, place),
        place != Place::Definition ==> passes(v, spared, place) == unflagged(v, spared, place),
    decreases v, 0int,
{
    match v {
        Json::Object(e) => {
            lemma_passes_entries(e, path, 0, spared, place);
            if place != Place::Definition {
                if passes(v, spared, place) {
                    assert forall|i: int| 0 <= i < e.len() implies spared.get(
                        (#[trigger] e[i]).0,
                    ) == Some(e[i].1) || (!config_check::gateway_key(e[i].0) && unflagged(
                        e[i].1,
                        config_check::spared_below(v, place, e[i].0),
                        place.below(e[i].0),
                    )) by {
                        assert(entry_passes(v, e[i].0, e[i].1, spared, place));
                    }
                    assert(unflagged(v, spared, place));
                }
                if unflagged(v, spared, place) {
                    assert forall|i: int| 0 <= i < e.len() implies entry_passes(
                        v,
                        (#[trigger] e[i]).0,
                        e[i].1,
                        spared,
                        place,
                    ) by {}
                }
            }
        },
        Json::Array(s) => {
            lemma_passes_items(s, path, 0);
        },
        _ => {},
    }
}

proof fn lemma_passes_entries(
    e: Seq<(Seq<char>, Json)>,
    path: Seq<char>,
    i: int,
    spared: Json,
    place: Place,
)
    requires
        0 <= i,
    ensures
        config_check::flag_in_entries(e, path, i, place, spared) is None <==> forall|j: int|
            i <= j < e.len() ==> entry_passes(
                Json::Object(e),
                (#[trigger] e[j]).0,
                e[j].1,
                spared,
                place,
            ),
    decreases e, e.len() - i,
{
    if i < e.len() {
        lemma_passes_entries(e, path, i + 1, spared, place);
        assert(decreases_to!(e => e[i]));
        assert(decreases_to!(e[i] => e[i].1));
        lemma_passes(
            e[i].1,
            path + "/"@ + e[i].0,
            config_check::spared_below(Json::Object(e), place, e[i].0),
            place.below(e[i].0),
        );
        let all = forall|j: int|
            i <= j < e.len() ==> entry_passes(
                Json::Object(e),
                (#[trigger] e[j]).0,
                e[j].1,
                spared,
                place,
            );
        let rest = forall|j: int|
            i + 1 <= j < e.len() ==> entry_passes(
                Json::Object(e),
                (#[trigger] e[j]).0,
                e[j].1,
                spared,
                place,
            );
        let first = entry_passes(Json::Object(e), e[i].0, e[i].1, spared, place);
        assert(all == (first && rest)) by {
            if first && rest {
                assert forall|j: int| i <= j < e.len() implies entry_passes(
                    Json::Object(e),
                    (#[trigger] e[j]).0,
                    e[j].1,
                    spared,
                    place,
                ) by {
                    if j > i {
                        assert(entry_passes(Json::Object(e), e[j].0, e[j].1, spared, place));
                    }
                }
            }
        }
    }
}

proof fn lemma_passes_items(s: Seq<Json>, path: Seq<char>, i: int)
    requires
        0 <= i,
    ensures
        config_check::flag_in_items(s, path, i) is None <==> forall|j: int|
            i <= j < s.len() ==> unflagged(#[trigger] s[j], Json::empty(), Place::Elsewhere),
    decreases s, s.len() - i,
{
    if i < s.len() {
        lemma_passes_items(s, path, i + 1);
        assert(decreases_to!(s => s[i]));
        lemma_passes(
            s[i],
            path + "/"@ + crate::text::decimal(i as nat),
            Json::empty(),
            Place::Elsewhere,
        );
        let rest = forall|j: int|
            i + 1 <= j < s.len() ==> unflagged(#[trigger] s[j], Json::empty(), Place::Elsewhere);
        if unflagged(s[i], Json::empty(), Place::Elsewhere) && rest {
            assert forall|j: int| i <= j < s.len() implies unflagged(
                #[trigger] s[j],
                Json::empty(),
                Place::Elsewhere,
            ) by {
                if j > i {
                    assert(unflagged(s[j], Json::empty(), Place::Elsewhere));
                }
            }
        }
    }
}

/// What a definition holds under the keys that resolution writes is what resolution
/// writes there, or holds no gateway key.
pub open spec fn stamps_pass(d: Json, written: Json) -> bool {
    forall|k: Seq<char>|
        stamped_key(k) ==> ((#[trigger] d.get(k)) matches Some(x) ==> written.get(k) == Some(x)
            || unflagged(x, Json::empty(), Place::Elsewhere))
}

/// The check finds nothing in a definition exactly where it is unflagged, and what stands
/// under the keys that resolution writes passes as well.
pub proof fn lemma_definition_passes(d: Json, written: Json)
    requires
        d.wf(),
        forall|k: Seq<char>| (#[trigger] written.get(k)) is Some ==> stamped_key(k),
    ensures
        passes(d, written, Place::Definition) <==> unflagged(
            d,
            Json::empty(),
            Place::Definition,
        ) && stamps_pass(d, written),
{
    lemma_written_keys();
    lemma_empty_unref();
    if let Json::Object(e) = d {
        if passes(d, written, Place::Definition) {
            assert forall|i: int| 0 <= i < e.len() implies stamped_key((#[trigger] e[i]).0) || (
            !config_check::gateway_key(e[i].0) && unflagged(
                e[i].1,
                config_check::spared_below(d, Place::Definition, e[i].0),
                Place::Definition.below(e[i].0),
            )) by {
                assert(entry_passes(d, e[i].0, e[i].1, written, Place::Definition));
            }
            assert forall|k: Seq<char>|
                stamped_key(k) implies ((#[trigger] d.get(k)) matches Some(x) ==> written.get(k)
                == Some(x) || unflagged(x, Json::empty(), Place::Elsewhere)) by {
                reveal(Json::get);
                json::lemma_find_member(e, k);
                if let Some(x) = json::find(e, k) {
                    let i = choose|i: int|
                        0 <= i < e.len() && e[i].0 == k && #[trigger] e[i].1 == x;
                    assert(entry_passes(d, e[i].0, e[i].1, written, Place::Definition));
                }
            }
        }
        if unflagged(d, Json::empty(), Place::Definition) && stamps_pass(d, written) {
            assert forall|i: int| 0 <= i < e.len() implies entry_passes(
                d,
                (#[trigger] e[i]).0,
                e[i].1,
                written,
                Place::Definition,
            ) by {
                json::lemma_find_entry(e, i);
                assert(d.get(e[i].0) == Some(e[i].1)) by {
                    reveal(Json::get);
                }
                assert(Json::empty().get(e[i].0) is None);
            }
        }
    } else {
        assert forall|k: Seq<char>| (#[trigger] d.get(k)) is None by {
            reveal(Json::get);
        }
    }
}

// ---------------------------------------------------------------------------
// Both
// ---------------------------------------------------------------------------

/// The value is free of references and of gateway keys.
pub open spec fn calm(v: Json, spared: Json, place: Place) -> bool {
    !refers(v) && unflagged(v, spared, place)
}

/// What stands under a key of a calm value.
pub open spec fn entry_calm(o: Json, k: Seq<char>, x: Json, spared: Json, place: Place) -> bool {
    !refers(x) && (k == "executor"@ ==> nameless(x)) && entry_unflagged(o, k, x, spared, place)
}

/// How a use binding of the value fills the slot that has the name of the gateway keys.
pub open spec fn slot(o: Json) -> Option<Json> {
    config_stamp::bound_slot(o, "flowgate"@)
}

pub proof fn lemma_calm_get(o: Json, spared: Json, place: Place, k: Seq<char>)
    requires
        calm(o, spared, place),
    ensures
        o.get(k) matches Some(x) ==> entry_calm(o, k, x, spared, place),
{
    lemma_unref_get(o, k);
    reveal(Json::get);
    if let Json::Object(e) = o {
        json::lemma_find_member(e, k);
        if let Some(x) = json::find(e, k) {
            let i = choose|i: int| 0 <= i < e.len() && e[i].0 == k && #[trigger] e[i].1 == x;
            assert(e[i].0 == k);
        }
    }
}

/// An object is calm where everything that it holds is.
pub proof fn lemma_calm_of(o: Json, spared: Json, place: Place)
    requires
        o.wf(),
        o is Object,
        forall|k: Seq<char>|
            (#[trigger] o.get(k)) matches Some(x) ==> entry_calm(o, k, x, spared, place),
    ensures
        calm(o, spared, place),
{
    let e = o->Object_0;
    assert forall|i: int| 0 <= i < e.len() implies entry_calm(
        o,
        (#[trigger] e[i]).0,
        e[i].1,
        spared,
        place,
    ) by {
        json::lemma_find_entry(e, i);
        assert(o.get(e[i].0) == Some(e[i].1)) by {
            reveal(Json::get);
        }
    }
    assert(o.get("executor"@) matches Some(x) ==> nameless(x));
    assert forall|i: int| 0 <= i < e.len() implies !refers((#[trigger] e[i]).1) by {
        assert(entry_calm(o, e[i].0, e[i].1, spared, place));
    }
    assert forall|i: int| 0 <= i < e.len() implies (place == Place::Definition && stamped_key(
        (#[trigger] e[i]).0,
    )) || spared.get(e[i].0) == Some(e[i].1) || (!config_check::gateway_key(e[i].0) && unflagged(
        e[i].1,
        config_check::spared_below(o, place, e[i].0),
        place.below(e[i].0),
    )) by {
        assert(entry_calm(o, e[i].0, e[i].1, spared, place));
    }
}

/// Writing something calm into a calm object leaves it calm.
pub proof fn lemma_calm_with(o: Json, spared: Json, place: Place, k: Seq<char>, x: Json)
    requires
        calm(o, spared, place),
        o is Object,
        slot(o.with(k, x)) == slot(o),
        entry_calm(o, k, x, spared, place),
    ensures
        calm(o.with(k, x), spared, place),
        o.with(k, x) is Object,
{
    lemma_unref_with(o, k, x);
    json::law_get_with(o, k, x, k);
    let r = o.with(k, x);
    let e = o->Object_0;
    let p = json::put(e, k, x);
    assert(r == Json::Object(p)) by {
        reveal(Json::with);
    }
    json::lemma_put_member(e, k, x);
    assert forall|i: int| 0 <= i < p.len() implies (place == Place::Definition && stamped_key(
        (#[trigger] p[i]).0,
    )) || spared.get(p[i].0) == Some(p[i].1) || (!config_check::gateway_key(p[i].0) && unflagged(
        p[i].1,
        config_check::spared_below(r, place, p[i].0),
        place.below(p[i].0),
    )) by {
        if p[i] != (k, x) {
            let j = choose|j: int| 0 <= j < e.len() && e[j] == p[i];
            assert(e[j].0 == p[i].0);
        }
    }
}

/// A step on values in a place keeps them calm, and changes nothing by which a value names
/// a capability.
pub open spec fn calm_step(f: spec_fn(Seq<char>, Json) -> Json, place: Place) -> bool {
    forall|k: Seq<char>, x: Json|
        x.wf() && calm(x, Json::empty(), place) ==> calm(
            #[trigger] f(k, x),
            Json::empty(),
            place,
        ) && f(k, x).get("capability"@) == x.get("capability"@)
}

/// Mapping what stands under the key of the states, or of the transitions, by such a step
/// keeps a value calm.
pub proof fn lemma_calm_over(
    o: Json,
    place: Place,
    key: Seq<char>,
    f: spec_fn(Seq<char>, Json) -> Json,
)
    requires
        o.wf(),
        calm(o, Json::empty(), place),
        calm_step(f, place.below(key).below(key)),
        place == Place::Definition && key == "states"@ || place == Place::State && key
            == "transitions"@,
    ensures
        calm(config_stamp::over(o, key, f), Json::empty(), place),
{
    lemma_written_keys();
    lemma_empty_unref();
    if let Some(e) = o.object_at(key) {
        lemma_calm_get(o, Json::empty(), place, key);
        json::lemma_get_wf(o, key);
        assert(o.get(key) == Some(Json::Object(e)));
        let below = place.below(key);
        assert(calm(Json::Object(e), Json::empty(), below));
        let m = config_stamp::mapped(e, f);
        let x = Json::Object(m);
        assert forall|i: int| 0 <= i < m.len() implies calm(
            (#[trigger] m[i]).1,
            Json::empty(),
            below.below(m[i].0),
        ) && !config_check::gateway_key(m[i].0) && m[i].1.get("capability"@) == e[i].1.get(
            "capability"@,
        ) by {
            assert(e[i].1.wf());
            assert(m[i] == (e[i].0, f(e[i].0, e[i].1)));
            assert(!refers(e[i].1));
            assert(Json::empty().get(e[i].0) is None);
            assert(unflagged(e[i].1, Json::empty(), below.below(e[i].0)));
            assert(calm(e[i].1, Json::empty(), place.below(key).below(key)));
            assert(calm(f(e[i].0, e[i].1), Json::empty(), place.below(key).below(key)));
        }
        config_growth::lemma_find_mapped(e, f, "executor"@);
        lemma_unref_get(Json::Object(e), "executor"@);
        assert(config_capabilities::reference(x) is None) by {
            reveal(Json::get);
            json::lemma_find_member(e, "executor"@);
            if let Some(y) = json::find(e, "executor"@) {
                let i = choose|i: int|
                    0 <= i < e.len() && e[i].0 == "executor"@ && #[trigger] e[i].1 == y;
                assert(m[i].1.get("capability"@) == y.get("capability"@));
            }
        }
        assert(!refers(x));
        assert(unflagged(x, Json::empty(), below));
        assert(o is Object) by {
            reveal(Json::get);
        }
        json::law_get_with(o, key, x, "executor"@);
        lemma_calm_with(o, Json::empty(), place, key, x);
    }
}

// ---------------------------------------------------------------------------
// Libraries
// ---------------------------------------------------------------------------

/// A library is free of references, and its entries name no capability.
pub open spec fn mild(lib: Json) -> bool {
    !refers(lib) && forall|k: Seq<char>| (#[trigger] lib.get(k)) matches Some(x) ==> nameless(x)
}

proof fn lemma_empty_unref()
    ensures
        !refers(Json::empty()),
        Json::empty() is Object,
        forall|k: Seq<char>| (#[trigger] Json::empty().get(k)) is None,
{
    reveal(Json::get);
    assert(Json::empty() == Json::Object(Seq::empty()));
}

proof fn lemma_mild_with(lib: Json, k: Seq<char>, x: Json)
    requires
        mild(lib),
        lib is Object,
        !refers(x),
        nameless(x),
    ensures
        mild(lib.with(k, x)),
        lib.with(k, x) is Object,
{
    lemma_unref_with(lib, k, x);
    json::law_get_with(lib, k, x, k);
    assert forall|j: Seq<char>| (#[trigger] lib.with(k, x).get(j)) matches Some(y) ==> nameless(
        y,
    ) by {
        json::law_get_with(lib, k, x, j);
        assert(lib.get(j) matches Some(y) ==> nameless(y));
    }
}

proof fn lemma_fragment(
    verb: Seq<char>,
    lifecycle: Seq<char>,
    body: Seq<char>,
    hash: Seq<char>,
    source: Seq<char>,
)
    ensures
        !refers(config_stamp::fragment(verb, lifecycle, body, hash, source)),
        nameless(config_stamp::fragment(verb, lifecycle, body, hash, source)),
{
    reveal_strlit("verb");
    reveal_strlit("lifecycle");
    reveal_strlit("body");
    reveal_strlit("hash");
    reveal_strlit("source");
    reveal_strlit("capability");
    reveal_strlit("executor");
    assert("verb"@[0] == 'v');
    assert("lifecycle"@[0] == 'l');
    assert("body"@[0] == 'b');
    assert("hash"@[0] == 'h');
    assert("source"@[0] == 's');
    assert("capability"@[0] == 'c');
    assert("executor"@[0] == 'e');
    let c = "capability"@;
    lemma_empty_unref();
    let o0 = Json::empty();
    assert(o0.get(c) is None);
    lemma_unref_with(o0, "verb"@, Json::String(verb));
    json::law_get_with(o0, "verb"@, Json::String(verb), c);
    let o1 = o0.with("verb"@, Json::String(verb));
    lemma_unref_with(o1, "lifecycle"@, Json::String(lifecycle));
    json::law_get_with(o1, "lifecycle"@, Json::String(lifecycle), c);
    let o2 = o1.with("lifecycle"@, Json::String(lifecycle));
    lemma_unref_with(o2, "body"@, Json::String(body));
    json::law_get_with(o2, "body"@, Json::String(body), c);
    let o3 = o2.with("body"@, Json::String(body));
    lemma_unref_with(o3, "hash"@, Json::String(hash));
    json::law_get_with(o3, "hash"@, Json::String(hash), c);
    let o4 = o3.with("hash"@, Json::String(hash));
    lemma_unref_with(o4, "source"@, Json::String(source));
    json::law_get_with(o4, "source"@, Json::String(source), c);
}

/// A fragment has its body.
pub proof fn lemma_fragment_body(
    verb: Seq<char>,
    lifecycle: Seq<char>,
    body: Seq<char>,
    hash: Seq<char>,
    source: Seq<char>,
)
    ensures
        config_stamp::fragment(verb, lifecycle, body, hash, source).str_at("body"@) == Some(body),
{
    reveal_strlit("verb");
    reveal_strlit("lifecycle");
    reveal_strlit("body");
    reveal_strlit("hash");
    reveal_strlit("source");
    assert("body"@[0] == 'b');
    assert("hash"@[0] == 'h');
    assert("source"@[0] == 's');
    let b = "body"@;
    let o0 = Json::empty();
    json::law_get_with(o0, "verb"@, Json::String(verb), b);
    let o1 = o0.with("verb"@, Json::String(verb));
    json::law_get_with(o1, "lifecycle"@, Json::String(lifecycle), b);
    let o2 = o1.with("lifecycle"@, Json::String(lifecycle));
    json::law_get_with(o2, "body"@, Json::String(body), b);
    let o3 = o2.with("body"@, Json::String(body));
    json::law_get_with(o3, "hash"@, Json::String(hash), b);
    let o4 = o3.with("hash"@, Json::String(hash));
    json::law_get_with(o4, "source"@, Json::String(source), b);
}

/// A library of skills is mild.
pub proof fn lemma_skills_library(e: Seq<(Seq<char>, Json)>, n: int)
    ensures
        mild(config_stamp::skills_library(e, n)),
        config_stamp::skills_library(e, n) is Object,
    decreases n,
{
    lemma_empty_unref();
    if n > 0 {
        lemma_skills_library(e, n - 1);
        let (subject, entry) = e[n - 1];
        match (entry.str_at("verb"@), entry.str_at("lifecycle"@), entry.str_at("body"@)) {
            (Some(verb), Some(lifecycle), Some(body)) => {
                let hash = config_hash::skill_hash(body);
                let source = config_stamp::source_name(entry);
                lemma_fragment(verb, lifecycle, body, hash, source);
                lemma_mild_with(
                    config_stamp::skills_library(e, n - 1),
                    subject,
                    config_stamp::fragment(verb, lifecycle, body, hash, source),
                );
            },
            _ => {},
        }
    }
}

proof fn lemma_script_fragment(subject: Seq<char>, entry: Json, bodies: Json)
    ensures
        config_stamp::script_fragment(subject, entry, bodies) matches Ok(Some(x)) ==> !refers(x)
            && nameless(x),
{
    match (entry.str_at("verb"@), entry.str_at("lifecycle"@)) {
        (Some(verb), Some(lifecycle)) => match (entry.str_at("body"@), entry.str_at("uri"@)) {
            (Some(b), None) => {
                lemma_fragment(
                    verb,
                    lifecycle,
                    b,
                    config_hash::script_hash(b),
                    config_stamp::source_name(entry),
                );
            },
            (None, Some(_)) => match (entry.str_at("hash"@), bodies.str_at(subject)) {
                (Some(declared), Some(body)) => {
                    lemma_fragment(
                        verb,
                        lifecycle,
                        body,
                        declared,
                        config_stamp::source_name(entry),
                    );
                },
                _ => {},
            },
            _ => {},
        },
        _ => {},
    }
}

/// A library of scripts is mild.
pub proof fn lemma_scripts_library(e: Seq<(Seq<char>, Json)>, bodies: Json, n: int)
    ensures
        config_stamp::scripts_library(e, bodies, n) matches Ok(lib) ==> mild(lib) && lib is Object,
    decreases n,
{
    lemma_empty_unref();
    if n > 0 {
        lemma_scripts_library(e, bodies, n - 1);
        lemma_script_fragment(e[n - 1].0, e[n - 1].1, bodies);
        if let Ok(lib) = config_stamp::scripts_library(e, bodies, n - 1) {
            if let Ok(Some(x)) = config_stamp::script_fragment(e[n - 1].0, e[n - 1].1, bodies) {
                lemma_mild_with(lib, e[n - 1].0, x);
            }
        }
    }
}

proof fn lemma_scoped(lib: Json, subjects: Seq<Seq<char>>, n: int)
    requires
        mild(lib),
    ensures
        mild(config_stamp::scoped(lib, subjects, n)),
        config_stamp::scoped(lib, subjects, n) is Object,
    decreases n,
{
    lemma_empty_unref();
    if n > 0 {
        lemma_scoped(lib, subjects, n - 1);
        if let Some(x) = lib.get(subjects[n - 1]) {
            lemma_unref_get(lib, subjects[n - 1]);
            lemma_mild_with(config_stamp::scoped(lib, subjects, n - 1), subjects[n - 1], x);
        }
    }
}

// ---------------------------------------------------------------------------
// Definitions
// ---------------------------------------------------------------------------

/// A step keeps definitions calm, and changes nothing by which they name a capability.
pub open spec fn calm_on(d: Json, r: Json) -> bool {
    calm(d, Json::empty(), Place::Definition) ==> calm(r, Json::empty(), Place::Definition) && r.get("capability"@) == d.get("capability"@)
}

/// The keys that resolution writes are none of those that matter here.
proof fn lemma_written_keys()
    ensures
        stamped_key("_skillsLibrary"@),
        stamped_key("_scriptsLibrary"@),
        stamped_key("_authoringPrefs"@),
        stamped_key("_lexiconLibrary"@),
        forall|k: Seq<char>| #[trigger]
            stamped_key(k) ==> k != "executor"@ && k != "capability"@ && k
                != "output"@,
        quiet_key("states"@),
        quiet_key("transitions"@),
        quiet_key("version"@),
        quiet_key("ask_human"@),
        quiet_key("snippet"@),
        quiet_key("outputs"@),
        quiet_key("_snippetOutputs"@),
        quiet_key("target"@),
        quiet_key("actor"@),
        quiet_key("purpose"@),
        quiet_key("lightweight"@),
        quiet_key("max_fires_per_visit"@),
        quiet_key("inputSchema"@),
        quiet_key("outputSchema"@),
        quiet_key("type"@),
        quiet_key("required"@),
        quiet_key("properties"@),
        quiet_key("question"@),
        quiet_key("minLength"@),
        quiet_key("maxLength"@),
        quiet_key("description"@),
        quiet_key("context_summary"@),
        quiet_key("attempted_alternatives"@),
        quiet_key("answer"@),
        quiet_key("workflows"@),
        "snippet"@ != "states"@,
        "version"@ != "states"@,
        "states"@ != "transitions"@,
        forall|k: Seq<char>| #[trigger] stamped_key(k) ==> k != "states"@
            && !config_check::gateway_key(k),
        "output"@ != "executor"@,
        "output"@ != "capability"@,
        !config_check::gateway_key("output"@),
        !config_check::gateway_key("executor"@),
        "executor"@ != "output"@,
        "executor"@ != "capability"@,
{
    reveal_strlit("_skillsLibrary");
    reveal_strlit("_scriptsLibrary");
    reveal_strlit("_authoringPrefs");
    reveal_strlit("_lexiconLibrary");
    reveal_strlit("executor");
    reveal_strlit("capability");
    reveal_strlit("output");
    reveal_strlit("flowgate");
    reveal_strlit("flowgate.");
    assert("_skillsLibrary"@[0] == '_');
    assert("_scriptsLibrary"@[0] == '_');
    assert("_authoringPrefs"@[0] == '_');
    assert("_lexiconLibrary"@[0] == '_');
    assert("_lexiconLibrary"@.len() == 15);
    assert("_authoringPrefs"@.len() == 15);
    assert("_scriptsLibrary"@.len() == 15);
    assert("_skillsLibrary"@.len() == 14);
    assert("executor"@[0] == 'e');
    assert("capability"@[0] == 'c');
    assert("capability"@[1] == 'a');
    assert("output"@[0] == 'o');
    assert("output"@.len() == 6);
    assert("flowgate"@[0] == 'f');
    assert("flowgate."@[0] == 'f');
    assert("flowgate."@.len() == 9);
    reveal_strlit("states");
    assert("states"@[0] == 's');
    reveal_strlit("transitions");
    assert("transitions"@[0] == 't');
    reveal_strlit("version");
    assert("version"@[0] == 'v');
    reveal_strlit("ask_human");
    assert("ask_human"@[0] == 'a');
    reveal_strlit("snippet");
    assert("snippet"@[0] == 's');
    reveal_strlit("outputs");
    assert("outputs"@[0] == 'o' && "outputs"@.len() == 7);
    reveal_strlit("_snippetOutputs");
    assert("_snippetOutputs"@[0] == '_' && "_snippetOutputs"@[2] == 'n');
    assert("_snippetOutputs"@[3] == 'i');
    assert("_scriptsLibrary"@[3] == 'r');
    assert("_authoringPrefs"@[3] == 't');
    assert("_lexiconLibrary"@[3] == 'x');
    assert("_snippetOutputs"@.len() == 15);
    reveal_strlit("target");
    assert("target"@[0] == 't');
    reveal_strlit("actor");
    assert("actor"@[0] == 'a');
    reveal_strlit("purpose");
    assert("purpose"@[0] == 'p');
    reveal_strlit("lightweight");
    assert("lightweight"@[0] == 'l');
    reveal_strlit("max_fires_per_visit");
    assert("max_fires_per_visit"@[0] == 'm');
    reveal_strlit("inputSchema");
    assert("inputSchema"@[0] == 'i');
    reveal_strlit("outputSchema");
    assert("outputSchema"@[0] == 'o' && "outputSchema"@.len() == 12);
    reveal_strlit("type");
    assert("type"@[0] == 't');
    reveal_strlit("required");
    assert("required"@[0] == 'r');
    reveal_strlit("properties");
    assert("properties"@[0] == 'p');
    reveal_strlit("question");
    assert("question"@[0] == 'q');
    reveal_strlit("minLength");
    assert("minLength"@[0] == 'm');
    reveal_strlit("maxLength");
    assert("maxLength"@[0] == 'm');
    reveal_strlit("description");
    assert("description"@[0] == 'd');
    assert("description"@.len() == 11);
    reveal_strlit("context_summary");
    assert("context_summary"@[0] == 'c');
    assert("context_summary"@[1] == 'o');
    reveal_strlit("attempted_alternatives");
    assert("attempted_alternatives"@[0] == 'a');
    reveal_strlit("answer");
    assert("answer"@[0] == 'a');
    reveal_strlit("workflows");
    assert("workflows"@[0] == 'w');
}

/// A key by which nothing refers to a capability or is reserved.
pub open spec fn quiet_key(k: Seq<char>) -> bool {
    &&& k != "executor"@
    &&& k != "output"@
    &&& k != "capability"@
    &&& !config_check::gateway_key(k)
    &&& !stamped_key(k)
}

/// Writing something calm under a quiet key keeps a value calm.
proof fn lemma_quiet_with(o: Json, spared: Json, place: Place, k: Seq<char>, x: Json)
    requires
        calm(o, spared, place),
        o is Object,
        calm(x, Json::empty(), place.below(k)),
        quiet_key(k),
    ensures
        calm(o.with(k, x), spared, place),
        o.with(k, x) is Object,
        o.with(k, x).get("capability"@) == o.get("capability"@),
{
    json::law_get_with(o, k, x, "executor"@);
    json::law_get_with(o, k, x, "capability"@);
    lemma_calm_with(o, spared, place, k, x);
}

/// Writing a mild value under one of the keys of resolution keeps a definition calm.
pub proof fn lemma_stamp_calm(d: Json, k: Seq<char>, x: Json)
    requires
        d is Object,
        stamped_key(k),
        !refers(x),
    ensures
        calm_on(d, d.with(k, x)),
{
    lemma_written_keys();
    if calm(d, Json::empty(), Place::Definition) {
        json::law_get_with(d, k, x, "executor"@);
        json::law_get_with(d, k, x, "capability"@);
        lemma_calm_with(d, Json::empty(), Place::Definition, k, x);
    }
}

/// Stamping a library on a definition keeps it calm.
pub proof fn lemma_stamped_calm(d: Json, key: Seq<char>, lib: Json, subjects: Seq<Seq<char>>)
    requires
        mild(lib),
        stamped_key(key),
    ensures
        calm_on(d, config_stamp::stamped(d, key, lib, subjects)),
{
    lemma_scoped(lib, subjects, subjects.len() as int);
    if d is Object {
        lemma_stamp_calm(d, key, config_stamp::scoped(lib, subjects, subjects.len() as int));
    }
}

/// A definition with a version is without references where it was so without one.
pub proof fn lemma_versioned_unref(id: Seq<char>, d: Json)
    requires
        !refers(d),
    ensures
        !refers(config_stamp::versioned()(id, d)),
        config_stamp::versioned()(id, d).get("capability"@) == d.get("capability"@),
{
    lemma_written_keys();
    if d is Object {
        json::law_get_with(d, "version"@, Json::String("0"@), "capability"@);
        lemma_unref_with(d, "version"@, Json::String("0"@));
    }
}

// ---------------------------------------------------------------------------
// Questions
// ---------------------------------------------------------------------------

proof fn lemma_texts_calm(s: Seq<Json>)
    requires
        forall|i: int| 0 <= i < s.len() ==> (#[trigger] s[i]) is String,
    ensures
        calm(Json::Array(s), Json::empty(), Place::Elsewhere),
{
    assert forall|i: int| 0 <= i < s.len() implies !refers(#[trigger] s[i]) && unflagged(
        s[i],
        Json::empty(),
        Place::Elsewhere,
    ) by {
        assert(s[i] is String);
    }
}

proof fn lemma_empty_calm()
    ensures
        forall|spared: Json, place: Place| #[trigger] calm(Json::empty(), spared, place),
        Json::empty() is Object,
{
    lemma_empty_unref();
    assert(Json::empty() == Json::Object(Seq::empty()));
}

/// What a field of a question must be: a text of a length.
proof fn lemma_text_schema_calm(o: Json, max: Option<u64>, description: Seq<char>)
    requires
        o == (match max {
            Some(n) => Json::empty().with("type"@, Json::String("string"@)).with(
                "minLength"@,
                Json::Number(Number::PosInt(1)),
            ).with("maxLength"@, Json::Number(Number::PosInt(n))).with(
                "description"@,
                Json::String(description),
            ),
            None => Json::empty().with("type"@, Json::String("string"@)).with(
                "minLength"@,
                Json::Number(Number::PosInt(1)),
            ).with("description"@, Json::String(description)),
        }),
    ensures
        calm(o, Json::empty(), Place::Elsewhere),
        o is Object,
{
    lemma_written_keys();
    lemma_empty_calm();
    let a = Json::empty();
    lemma_quiet_with(a, Json::empty(), Place::Elsewhere, "type"@, Json::String("string"@));
    let b = a.with("type"@, Json::String("string"@));
    lemma_quiet_with(b, Json::empty(), Place::Elsewhere, "minLength"@, Json::Number(Number::PosInt(1)));
    let c = b.with("minLength"@, Json::Number(Number::PosInt(1)));
    match max {
        Some(n) => {
            lemma_quiet_with(c, Json::empty(), Place::Elsewhere, "maxLength"@, Json::Number(Number::PosInt(n)));
            let d = c.with("maxLength"@, Json::Number(Number::PosInt(n)));
            lemma_quiet_with(d, Json::empty(), Place::Elsewhere, "description"@, Json::String(description));
        },
        None => {
            lemma_quiet_with(c, Json::empty(), Place::Elsewhere, "description"@, Json::String(description));
        },
    }
}

proof fn lemma_question_schema_calm()
    ensures
        calm(config_stamp::question_schema(), Json::empty(), Place::Elsewhere),
{
    reveal(config_stamp::question_schema);
    lemma_written_keys();
    lemma_empty_calm();
    let q = Json::empty().with("type"@, Json::String("string"@)).with(
        "minLength"@,
        Json::Number(Number::PosInt(1)),
    ).with("maxLength"@, Json::Number(Number::PosInt(2000))).with(
        "description"@,
        Json::String(
            "The question for the human. Be specific; the human can't see your reasoning chain."@,
        ),
    );
    lemma_text_schema_calm(
        q,
        Some(2000),
        "The question for the human. Be specific; the human can't see your reasoning chain."@,
    );
    let c = Json::empty().with("type"@, Json::String("string"@)).with(
        "minLength"@,
        Json::Number(Number::PosInt(1)),
    ).with("maxLength"@, Json::Number(Number::PosInt(1000))).with(
        "description"@,
        Json::String("Brief context — what you're trying to do, what state you're in."@),
    );
    lemma_text_schema_calm(
        c,
        Some(1000),
        "Brief context — what you're trying to do, what state you're in."@,
    );
    let t = Json::empty().with("type"@, Json::String("string"@)).with(
        "minLength"@,
        Json::Number(Number::PosInt(1)),
    ).with("maxLength"@, Json::Number(Number::PosInt(1000))).with(
        "description"@,
        Json::String(
            "What you already tried (docs, scripts, other tools) before asking. Agents must demonstrate effort before interrupting humans."@,
        ),
    );
    lemma_text_schema_calm(
        t,
        Some(1000),
        "What you already tried (docs, scripts, other tools) before asking. Agents must demonstrate effort before interrupting humans."@,
    );
    let p0 = Json::empty();
    lemma_quiet_with(p0, Json::empty(), Place::Elsewhere, "question"@, q);
    let p1 = p0.with("question"@, q);
    lemma_quiet_with(p1, Json::empty(), Place::Elsewhere, "context_summary"@, c);
    let p2 = p1.with("context_summary"@, c);
    lemma_quiet_with(p2, Json::empty(), Place::Elsewhere, "attempted_alternatives"@, t);
    let p3 = p2.with("attempted_alternatives"@, t);
    let required = seq![
        Json::String("question"@),
        Json::String("context_summary"@),
        Json::String("attempted_alternatives"@),
    ];
    lemma_texts_calm(required);
    let o0 = Json::empty();
    lemma_quiet_with(o0, Json::empty(), Place::Elsewhere, "type"@, Json::String("object"@));
    let o1 = o0.with("type"@, Json::String("object"@));
    lemma_quiet_with(o1, Json::empty(), Place::Elsewhere, "required"@, Json::Array(required));
    let o2 = o1.with("required"@, Json::Array(required));
    lemma_quiet_with(o2, Json::empty(), Place::Elsewhere, "properties"@, p3);
}

proof fn lemma_answer_schema_calm()
    ensures
        calm(config_stamp::answer_schema(), Json::empty(), Place::Elsewhere),
{
    reveal(config_stamp::answer_schema);
    lemma_written_keys();
    lemma_empty_calm();
    let a = Json::empty().with("type"@, Json::String("string"@)).with(
        "minLength"@,
        Json::Number(Number::PosInt(1)),
    ).with("description"@, Json::String("The human's answer."@));
    lemma_text_schema_calm(a, None, "The human's answer."@);
    let p0 = Json::empty();
    lemma_quiet_with(p0, Json::empty(), Place::Elsewhere, "answer"@, a);
    let p1 = p0.with("answer"@, a);
    let required = seq![Json::String("answer"@)];
    lemma_texts_calm(required);
    let o0 = Json::empty();
    lemma_quiet_with(o0, Json::empty(), Place::Elsewhere, "type"@, Json::String("object"@));
    let o1 = o0.with("type"@, Json::String("object"@));
    lemma_quiet_with(o1, Json::empty(), Place::Elsewhere, "required"@, Json::Array(required));
    let o2 = o1.with("required"@, Json::Array(required));
    lemma_quiet_with(o2, Json::empty(), Place::Elsewhere, "properties"@, p1);
}

proof fn lemma_question_calm(state: Seq<char>, cap: u64)
    ensures
        calm(config_stamp::question(state, cap), Json::empty(), Place::Transition),
{
    reveal(config_stamp::question);
    lemma_written_keys();
    lemma_empty_calm();
    lemma_question_schema_calm();
    lemma_answer_schema_calm();
    let o0 = Json::empty();
    lemma_quiet_with(o0, Json::empty(), Place::Transition, "target"@, Json::String(state));
    let o1 = o0.with("target"@, Json::String(state));
    lemma_quiet_with(o1, Json::empty(), Place::Transition, "actor"@, Json::String("human"@));
    let o2 = o1.with("actor"@, Json::String("human"@));
    lemma_quiet_with(o2, Json::empty(), Place::Transition, "purpose"@, Json::String("ask"@));
    let o3 = o2.with("purpose"@, Json::String("ask"@));
    lemma_quiet_with(o3, Json::empty(), Place::Transition, "lightweight"@, Json::Bool(true));
    let o4 = o3.with("lightweight"@, Json::Bool(true));
    lemma_quiet_with(o4, Json::empty(), Place::Transition, "max_fires_per_visit"@, Json::Number(Number::PosInt(cap)));
    let o5 = o4.with("max_fires_per_visit"@, Json::Number(Number::PosInt(cap)));
    lemma_quiet_with(o5, Json::empty(), Place::Transition, "inputSchema"@, config_stamp::question_schema());
    let o6 = o5.with("inputSchema"@, config_stamp::question_schema());
    lemma_quiet_with(o6, Json::empty(), Place::Transition, "outputSchema"@, config_stamp::answer_schema());
}

proof fn lemma_asking_state_calm(cap: u64)
    ensures
        calm_step(config_stamp::asking_state(cap), Place::State),
{
    lemma_written_keys();
    lemma_empty_calm();
    let f = config_stamp::asking_state(cap);
    assert forall|k: Seq<char>, s: Json|
        s.wf() && calm(s, Json::empty(), Place::State) implies calm(
        #[trigger] f(k, s),
        Json::empty(),
        Place::State,
    ) && f(k, s).get("capability"@) == s.get("capability"@) by {
        if s.bool_at("terminal"@) == Some(true) || !(s is Object) {
        } else {
            let ts = match s.get("transitions"@) {
                Some(t) => t,
                None => Json::empty(),
            };
            if !ts.has("ask_human"@) {
                let q = config_stamp::question(k, cap);
                lemma_question_calm(k, cap);
                lemma_calm_get(s, Json::empty(), Place::State, "transitions"@);
                lemma_empty_unref();
                assert(Json::empty().get("transitions"@) is None);
                assert(calm(ts, Json::empty(), Place::Transitions));
                if ts is Object {
                    lemma_quiet_with(ts, Json::empty(), Place::Transitions, "ask_human"@, q);
                } else {
                    reveal(Json::with);
                }
                lemma_quiet_with(
                    s,
                    Json::empty(),
                    Place::State,
                    "transitions"@,
                    ts.with("ask_human"@, q),
                );
            }
        }
    }
}

/// Adding questions to a definition keeps it calm.
pub proof fn lemma_asking_calm(id: Seq<char>, d: Json)
    requires
        d.wf(),
    ensures
        calm_on(d, config_stamp::asking()(id, d)),
{
    lemma_written_keys();
    if calm(d, Json::empty(), Place::Definition) && d.bool_at("enable_human_ask"@) == Some(true) {
        let g = config_stamp::asking_state(config_stamp::ask_cap(d));
        lemma_asking_state_calm(config_stamp::ask_cap(d));
        lemma_calm_over(d, Place::Definition, "states"@, g);
        config_stamp::lemma_over_get(d, "states"@, g, "capability"@);
    }
}

// ---------------------------------------------------------------------------
// Outputs of used workflows
// ---------------------------------------------------------------------------

/// Every definition among the workflows is calm.
pub open spec fn definitions_calm(workflows: Json) -> bool {
    forall|id: Seq<char>|
        (#[trigger] workflows.get(id)) matches Some(d) ==> calm(d, Json::empty(), Place::Definition)
}

proof fn lemma_snippet_calm(workflows: Json, id: Seq<char>)
    requires
        definitions_calm(workflows),
    ensures
        config_stamp::snippet_schema(workflows, id) matches Some(z) ==> calm(z, Json::empty(), Place::Elsewhere),
{
    lemma_written_keys();
    if let Some(def) = workflows.get(id) {
        lemma_calm_get(def, Json::empty(), Place::Definition, "snippet"@);
        lemma_empty_unref();
        assert(Json::empty().get("snippet"@) is None);
        assert(Json::empty().get("outputs"@) is None);
        if let Some(v) = def.get("snippet"@) {
            reveal(Json::step);
            match v {
                Json::Object(_) => {
                    lemma_calm_get(v, Json::empty(), Place::Elsewhere, "outputs"@);
                    reveal(Json::get);
                },
                Json::Array(s) => {
                    if let Some(n) = crate::text::array_index("outputs"@) {
                        if n < s.len() {
                            assert(!refers(s[n as int]) && unflagged(s[n as int], Json::empty(), Place::Elsewhere));
                        }
                    }
                },
                _ => {},
            }
        }
    }
}

/// What a binding writes: texts, under the names of slots.
proof fn lemma_bound(outs: Seq<(Seq<char>, Json)>, n: int, k: Seq<char>)
    ensures
        config_stamp::bound_outputs(outs, n) is Object,
        config_stamp::bound_outputs(outs, n).get(k) matches Some(x) ==> x is String
            && validate_rules::is_slot_name(k),
    decreases n,
{
    lemma_empty_unref();
    if n > 0 {
        lemma_bound(outs, n - 1, k);
        match (outs[n - 1].1.as_str(), validate_rules::slot_tail(outs[n - 1].0)) {
            (Some(name), Some(tail)) => {
                json::law_get_with(
                    config_stamp::bound_outputs(outs, n - 1),
                    tail,
                    Json::String("$.output."@ + name),
                    k,
                );
            },
            _ => {},
        }
    }
}

/// The name of a slot is the gateway's own or not reserved at all.
proof fn lemma_slot_name(k: Seq<char>)
    requires
        validate_rules::is_slot_name(k),
    ensures
        config_check::gateway_key(k) ==> k == "flowgate"@,
{
    reveal_strlit("flowgate.");
    if "flowgate."@.is_prefix_of(k) {
        assert("flowgate."@.len() == 9);
        assert("flowgate."@[8] == '.');
        assert(k[8] == '.');
    }
}

/// The expanded output mapping of a transition is calm, given how the binding fills the
/// slot that has the name of the gateway keys.
proof fn lemma_overlaid_calm(
    outs: Seq<(Seq<char>, Json)>,
    n: int,
    own: Seq<(Seq<char>, Json)>,
    spared: Json,
)
    requires
        Json::Object(own).wf(),
        calm(Json::Object(own), spared, Place::Elsewhere),
        spared.get("flowgate"@) == config_stamp::bound_outputs(outs, n).get("flowgate"@),
        config_stamp::overlaid(config_stamp::bound_outputs(outs, n), own, own.len() as int).wf(),
    ensures
        calm(
            config_stamp::overlaid(config_stamp::bound_outputs(outs, n), own, own.len() as int),
            spared,
            Place::Elsewhere,
        ),
{
    let b = config_stamp::bound_outputs(outs, n);
    let o = Json::Object(own);
    let c = config_stamp::overlaid(b, own, own.len() as int);
    lemma_bound(outs, n, "executor"@);
    config_growth::law_overlaid(b, own, "executor"@);
    assert forall|k: Seq<char>| (#[trigger] c.get(k)) matches Some(x) ==> entry_calm(
        c,
        k,
        x,
        spared,
        Place::Elsewhere,
    ) by {
        config_growth::law_overlaid(b, own, k);
        lemma_bound(outs, n, k);
        if let Some(x) = c.get(k) {
            if json::find(own, k) is Some {
                assert(o.get(k) == Some(x)) by {
                    reveal(Json::get);
                }
                lemma_calm_get(o, spared, Place::Elsewhere, k);
            } else {
                lemma_slot_name(k);
                assert(nameless(x)) by {
                    reveal(Json::get);
                }
            }
        }
    }
    lemma_calm_of(c, spared, Place::Elsewhere);
}

/// Expanding the use binding of a calm transition keeps it calm.
proof fn lemma_expanded_calm(t: Json, workflows: Json)
    requires
        t.wf(),
        workflows.wf(),
        definitions_calm(workflows),
        calm(t, Json::empty(), Place::Transition),
    ensures
        ({
            let r = config_stamp::expanded(t, workflows);
            &&& calm(r, Json::empty(), Place::Transition)
            &&& r.get("capability"@) == t.get("capability"@)
        }),
{
    lemma_written_keys();
    lemma_empty_unref();
    let none = Json::empty();
    if let Some((x, u, id)) = config_stamp::use_of(t) {
        assert(t is Object && x is Object) by {
            reveal(Json::get);
        }
        json::lemma_get_wf(t, "executor"@);
        lemma_calm_get(t, none, Place::Transition, "executor"@);
        assert(none.get("executor"@) is None);
        assert(calm(x, none, Place::Elsewhere));
        let schema = config_stamp::snippet_schema(workflows, id);
        lemma_snippet_calm(workflows, id);
        let y = config_capabilities::with_some(x, "_snippetOutputs"@, schema);
        if let Some(z) = schema {
            lemma_quiet_with(x, none, Place::Elsewhere, "_snippetOutputs"@, z);
            reveal_strlit("_snippetOutputs");
            reveal_strlit("kind");
            reveal_strlit("use");
            reveal_strlit("definitionId");
            assert("_snippetOutputs"@.len() == 15);
            assert("kind"@.len() == 4);
            assert("use"@.len() == 3);
            assert("definitionId"@.len() == 12);
            json::law_get_with(x, "_snippetOutputs"@, z, "kind"@);
            json::law_get_with(x, "_snippetOutputs"@, z, "use"@);
            json::law_get_with(x, "_snippetOutputs"@, z, "definitionId"@);
        }
        let a = t.with("executor"@, y);
        json::law_get_with(t, "executor"@, y, "executor"@);
        json::law_get_with(t, "executor"@, y, "output"@);
        json::law_get_with(t, "executor"@, y, "capability"@);
        assert(config_stamp::use_of(a) == Some((y, u, id)));
        assert(slot(a) == slot(t));
        lemma_calm_with(t, none, Place::Transition, "executor"@, y);
        if let Some(outs) = u.object_at("outputs"@) {
            let n = outs.len() as int;
            let own = a.entries_at("output"@);
            let b = config_stamp::bound_outputs(outs, n);
            let c = config_stamp::overlaid(b, own, own.len() as int);
            let spared = config_check::spared_below(a, Place::Transition, "output"@);
            lemma_calm_get(a, none, Place::Transition, "output"@);
            assert(none.get("output"@) is None);
            lemma_empty_calm();
            json::lemma_get_wf(t, "output"@);
            assert(slot(a) == b.get("flowgate"@));
            assert(spared.get("flowgate"@) == b.get("flowgate"@)) by {
                if let Some(z) = slot(a) {
                    json::law_get_with(none, "flowgate"@, z, "flowgate"@);
                }
            }
            assert(Json::Object(own).wf() && calm(Json::Object(own), spared, Place::Elsewhere)) by {
                if a.object_at("output"@) is None {
                    assert(Json::Object(own) == Json::empty());
                    assert(own.len() == 0);
                }
            }
            config_growth::lemma_output_wf(outs, n, own);
            lemma_overlaid_calm(outs, n, own, spared);
            json::law_get_with(a, "output"@, c, "executor"@);
            json::law_get_with(a, "output"@, c, "capability"@);
            lemma_calm_with(a, none, Place::Transition, "output"@, c);
        }
    }
}

/// Expanding the use bindings of a definition keeps it calm.
pub proof fn lemma_expand_calm(id: Seq<char>, d: Json, workflows: Json)
    requires
        d.wf(),
        workflows.wf(),
        definitions_calm(workflows),
    ensures
        calm_on(d, config_stamp::expand_definition(workflows)(id, d)),
{
    lemma_written_keys();
    let h = config_stamp::expand_transition(workflows);
    assert(calm_step(h, Place::Transition)) by {
        assert forall|k: Seq<char>, t: Json|
            t.wf() && calm(t, Json::empty(), Place::Transition) implies calm(
            #[trigger] h(k, t),
            Json::empty(),
            Place::Transition,
        ) && h(k, t).get("capability"@) == t.get("capability"@) by {
            lemma_expanded_calm(t, workflows);
        }
    }
    let g = config_stamp::expand_state(workflows);
    assert(calm_step(g, Place::State)) by {
        assert forall|k: Seq<char>, s: Json|
            s.wf() && calm(s, Json::empty(), Place::State) implies calm(
            #[trigger] g(k, s),
            Json::empty(),
            Place::State,
        ) && g(k, s).get("capability"@) == s.get("capability"@) by {
            lemma_calm_over(s, Place::State, "transitions"@, h);
            config_stamp::lemma_over_get(s, "transitions"@, h, "capability"@);
        }
    }
    if calm(d, Json::empty(), Place::Definition) {
        lemma_calm_over(d, Place::Definition, "states"@, g);
        config_stamp::lemma_over_get(d, "states"@, g, "capability"@);
    }
}

// ---------------------------------------------------------------------------
// Configurations
// ---------------------------------------------------------------------------

/// The configuration has no references, and its definitions are calm.
pub open spec fn quiet(c: Json) -> bool {
    !refers(c) && (c.object_at("workflows"@) matches Some(e) ==> forall|i: int|
        0 <= i < e.len() ==> calm((#[trigger] e[i]).1, Json::empty(), Place::Definition))
}

/// A step that keeps every definition calm keeps the configuration quiet.
pub proof fn lemma_quiet_over(c: Json, f: spec_fn(Seq<char>, Json) -> Json)
    requires
        quiet(c),
        c.object_at("workflows"@) matches Some(e) ==> forall|i: int|
            0 <= i < e.len() ==> calm_on((#[trigger] e[i]).1, f(e[i].0, e[i].1)),
    ensures
        quiet(config_stamp::over(c, "workflows"@, f)),
{
    lemma_written_keys();
    let r = config_stamp::over(c, "workflows"@, f);
    config_stamp::lemma_over_get(c, "workflows"@, f, "workflows"@);
    if let Some(e) = c.object_at("workflows"@) {
        assert forall|i: int| 0 <= i < e.len() implies !refers(f((#[trigger] e[i]).0, e[i].1))
            && f(e[i].0, e[i].1).get("capability"@) == e[i].1.get("capability"@) && calm(
            f(e[i].0, e[i].1),
            Json::empty(),
            Place::Definition,
        ) by {
            assert(calm(e[i].1, Json::empty(), Place::Definition));
            assert(calm_on(e[i].1, f(e[i].0, e[i].1)));
        }
    }
    lemma_unref_over(c, "workflows"@, f);
    if let Some(m) = r.object_at("workflows"@) {
        assert forall|i: int| 0 <= i < m.len() implies calm((#[trigger] m[i]).1, Json::empty(), Place::Definition) by {
            let e = c.object_at("workflows"@)->0;
            assert(m[i] == (e[i].0, f(e[i].0, e[i].1)));
        }
    }
}

/// The definitions of a quiet configuration are found calm under their ids.
pub proof fn lemma_quiet_definitions(c: Json)
    requires
        quiet(c),
        c.object_at("workflows"@) is Some,
    ensures
        definitions_calm(c.get("workflows"@)->0),
{
    let e = c.object_at("workflows"@)->0;
    let w = c.get("workflows"@)->0;
    assert(w == Json::Object(e));
    assert forall|id: Seq<char>| (#[trigger] w.get(id)) matches Some(d) ==> calm(
        d,
        Json::empty(),
        Place::Definition,
    ) by {
        reveal(Json::get);
        json::lemma_find_member(e, id);
        if let Some(d) = json::find(e, id) {
            let i = choose|i: int| 0 <= i < e.len() && e[i].0 == id && #[trigger] e[i].1 == d;
            assert(calm(e[i].1, Json::empty(), Place::Definition));
        }
    }
}

/// The check for gateway keys finds nothing in a configuration exactly where every
/// definition passes.
pub proof fn lemma_scope(c: Json)
    ensures
        config_check::flag_scope_fault(c) is None <==> forall|i: int|
            0 <= i < c.entries_at("workflows"@).len() ==> definition_passes(
                c,
                (#[trigger] c.entries_at("workflows"@)[i]).1,
            ),
{
    lemma_scope_from(c, c.entries_at("workflows"@), 0);
}

/// The check finds no gateway key in a definition of a configuration.
pub open spec fn definition_passes(c: Json, d: Json) -> bool {
    passes(d, config_stamp::written(c, d), Place::Definition)
}

proof fn lemma_scope_from(c: Json, e: Seq<(Seq<char>, Json)>, i: int)
    requires
        0 <= i,
    ensures
        config_check::first_fault(e, i, config_check::workflow_flag_fault(c)) is None
            <==> forall|j: int| i <= j < e.len() ==> definition_passes(c, (#[trigger] e[j]).1),
    decreases e.len() - i,
{
    if i < e.len() {
        lemma_scope_from(c, e, i + 1);
        lemma_passes(
            e[i].1,
            "/workflows/"@ + e[i].0,
            config_stamp::written(c, e[i].1),
            Place::Definition,
        );
        let rest = forall|j: int|
            i + 1 <= j < e.len() ==> definition_passes(c, (#[trigger] e[j]).1);
        if definition_passes(c, e[i].1) && rest {
            assert forall|j: int| i <= j < e.len() implies definition_passes(
                c,
                (#[trigger] e[j]).1,
            ) by {
                if j > i {
                    assert(definition_passes(c, e[j].1));
                }
            }
        }
    }
}

/// What resolution writes into a definition, it writes under its own keys.
pub proof fn lemma_written(c: Json, d: Json)
    ensures
        forall|k: Seq<char>| (#[trigger] config_stamp::written(c, d).get(k)) is Some
            ==> stamped_key(k),
        config_stamp::written(c, d).get("_skillsLibrary"@) == (match config_stamp::skills_stamp(
            c,
        ) {
            Some(lib) => {
                let subjects = config_stamp::referenced_skills(d);
                config_stamp::filled(config_stamp::scoped(lib, subjects, subjects.len() as int))
            },
            None => None,
        }),
        config_stamp::written(c, d).get("_scriptsLibrary"@) == ({
            let names = config_stamp::referenced_scripts(d);
            config_stamp::filled(
                config_stamp::held_scripts(
                    c.get("scripts"@),
                    d.get("_scriptsLibrary"@),
                    names,
                    names.len() as int,
                ),
            )
        }),
        config_stamp::written(c, d).get("_authoringPrefs"@) == config_stamp::preferences_stamp(c),
        config_stamp::written(c, d).get("_lexiconLibrary"@) == c.get("lexicon"@),
{
    lemma_written_keys();
    lemma_empty_unref();
    let skills = match config_stamp::skills_stamp(c) {
        Some(lib) => {
            let subjects = config_stamp::referenced_skills(d);
            config_stamp::filled(config_stamp::scoped(lib, subjects, subjects.len() as int))
        },
        None => None,
    };
    let names = config_stamp::referenced_scripts(d);
    let scripts = config_stamp::filled(
        config_stamp::held_scripts(
            c.get("scripts"@),
            d.get("_scriptsLibrary"@),
            names,
            names.len() as int,
        ),
    );
    reveal_strlit("_skillsLibrary");
    reveal_strlit("_scriptsLibrary");
    reveal_strlit("_authoringPrefs");
    reveal_strlit("_lexiconLibrary");
    assert("_skillsLibrary"@[3] == 'i');
    assert("_scriptsLibrary"@[3] == 'r');
    assert("_authoringPrefs"@[3] == 't');
    assert("_lexiconLibrary"@[3] == 'x');
    let o0 = Json::empty();
    let o1 = config_capabilities::with_some(o0, "_skillsLibrary"@, skills);
    let o2 = config_capabilities::with_some(o1, "_scriptsLibrary"@, scripts);
    let preferences = config_stamp::preferences_stamp(c);
    let o3 = config_capabilities::with_some(o2, "_authoringPrefs"@, preferences);
    let terms = c.get("lexicon"@);
    let o4 = config_capabilities::with_some(o3, "_lexiconLibrary"@, terms);
    assert forall|k: Seq<char>|
        #![trigger o4.get(k)]
        o1 is Object && o2 is Object && o3 is Object && o4.get(k) == (if k == "_lexiconLibrary"@
            && terms is Some {
            terms
        } else if k == "_authoringPrefs"@ && preferences is Some {
            preferences
        } else if k == "_scriptsLibrary"@ && scripts is Some {
            scripts
        } else if k == "_skillsLibrary"@ && skills is Some {
            skills
        } else {
            None
        }) by {
        lemma_with_some_at(o0, "_skillsLibrary"@, skills, k);
        lemma_with_some_at(o1, "_scriptsLibrary"@, scripts, k);
        lemma_with_some_at(o2, "_authoringPrefs"@, preferences, k);
        lemma_with_some_at(o3, "_lexiconLibrary"@, terms, k);
    }
    assert(o4 == config_stamp::written(c, d));
}

proof fn lemma_with_some_at(o: Json, key: Seq<char>, v: Option<Json>, k: Seq<char>)
    requires
        o is Object,
    ensures
        config_capabilities::with_some(o, key, v) is Object,
        config_capabilities::with_some(o, key, v).get(k) == (if k == key && v is Some {
            v
        } else {
            o.get(k)
        }),
{
    if let Some(x) = v {
        json::law_get_with(o, key, x, k);
    }
}

} // verus!
