//! What holds of the resolution of a configuration as a whole.
use crate::config;
use crate::config_calm;
use crate::config_capabilities;
use crate::config_capabilities::{CapView, Registry};
use crate::config_check;
use crate::config_check::Place;
use crate::config_growth;
use crate::config_stamp;
use crate::json;
use crate::json::Json;
use crate::lexicon;
use crate::text;
use vstd::prelude::*;

verus! {

// ---------------------------------------------------------------------------
// Well-formedness of capabilities
// ---------------------------------------------------------------------------

/// Every item is well-formed.
pub open spec fn items_wf(s: Seq<Json>) -> bool {
    forall|i: int| 0 <= i < s.len() ==> (#[trigger] s[i]).wf()
}

/// Every value of the entries is well-formed.
pub open spec fn values_wf(e: Seq<(Seq<char>, Json)>) -> bool {
    forall|i: int| 0 <= i < e.len() ==> (#[trigger] e[i]).1.wf()
}

/// An optional value is well-formed.
pub open spec fn opt_wf(o: Option<Json>) -> bool {
    match o {
        Some(v) => v.wf(),
        None => true,
    }
}

/// A capability is made of well-formed values.
pub open spec fn cap_wf(c: CapView) -> bool {
    c.executor.wf() && opt_wf(c.input_schema) && items_wf(c.tags) && items_wf(c.examples)
        && items_wf(c.guards) && opt_wf(c.reliability)
}

/// Every capability is made of well-formed values.
pub open spec fn registry_wf(reg: Registry) -> bool {
    forall|i: int| 0 <= i < reg.len() ==> cap_wf((#[trigger] reg[i]).1)
}

proof fn lemma_items_at_wf(o: Json, key: Seq<char>)
    requires
        o.wf(),
    ensures
        items_wf(o.items_at(key)),
{
    json::lemma_get_wf(o, key);
}

proof fn lemma_entries_at_wf(o: Json, key: Seq<char>)
    requires
        o.wf(),
    ensures
        values_wf(o.entries_at(key)),
        json::sorted(o.entries_at(key)),
{
    json::lemma_get_wf(o, key);
}

proof fn lemma_find_cap(reg: Registry, name: Seq<char>)
    requires
        registry_wf(reg),
    ensures
        json::find(reg, name) matches Some(c) ==> cap_wf(c),
{
    json::lemma_find_member(reg, name);
    if let Some(c) = json::find(reg, name) {
        let i = choose|i: int|
            0 <= i < reg.len() && reg[i].0 == name && #[trigger] reg[i].1 == c;
        assert(cap_wf(reg[i].1));
    }
}

proof fn lemma_flat_wf(raw: Seq<(Seq<char>, Json)>, name: Seq<char>, path: Seq<Seq<char>>)
    requires
        config_capabilities::valid_path(raw, path),
        values_wf(raw),
    ensures
        config_capabilities::flat(raw, name, path) matches Ok(c) ==> cap_wf(c),
    decreases raw.len() - path.len(),
{
    if !path.contains(name) {
        json::lemma_find_member(raw, name);
        if let Some(def) = json::find(raw, name) {
            let i = choose|i: int|
                0 <= i < raw.len() && raw[i].0 == name && #[trigger] raw[i].1 == def;
            assert(raw[i].1.wf());
            json::lemma_get_wf(def, "executor"@);
            json::lemma_get_wf(def, "inputSchema"@);
            json::lemma_get_wf(def, "reliability"@);
            lemma_items_at_wf(def, "tags"@);
            lemma_items_at_wf(def, "examples"@);
            lemma_items_at_wf(def, "guards"@);
            if let Some(parent) = def.str_at("wraps"@) {
                config_capabilities::lemma_path_room(raw, path, name);
                lemma_flat_wf(raw, parent, path.push(name));
            }
        }
    }
}

proof fn lemma_registry_wf(raw: Seq<(Seq<char>, Json)>, n: int)
    requires
        values_wf(raw),
        0 <= n <= raw.len(),
    ensures
        config_capabilities::registry_upto(raw, n) matches Ok(reg) ==> registry_wf(reg),
    decreases n,
{
    if n > 0 {
        lemma_registry_wf(raw, n - 1);
        lemma_flat_wf(raw, raw[n - 1].0, Seq::empty());
    }
}

proof fn lemma_with_some_wf(o: Json, key: Seq<char>, v: Option<Json>)
    requires
        o.wf(),
        o is Object,
        opt_wf(v),
    ensures
        config_capabilities::with_some(o, key, v).wf(),
        config_capabilities::with_some(o, key, v) is Object,
{
    if let Some(x) = v {
        json::law_with_wf(o, key, x);
        json::law_get_with(o, key, x, key);
    }
}

proof fn lemma_with_list_wf(o: Json, key: Seq<char>, s: Seq<Json>)
    requires
        o.wf(),
        o is Object,
        items_wf(s),
    ensures
        config_capabilities::with_list(o, key, s).wf(),
        config_capabilities::with_list(o, key, s) is Object,
{
    if s.len() > 0 {
        json::law_with_wf(o, key, Json::Array(s));
        json::law_get_with(o, key, Json::Array(s), key);
    }
}

proof fn lemma_with_wf(o: Json, key: Seq<char>, v: Json)
    requires
        o.wf(),
        o is Object,
        v.wf(),
    ensures
        o.with(key, v).wf(),
        o.with(key, v) is Object,
{
    json::law_with_wf(o, key, v);
    json::law_get_with(o, key, v, key);
}

/// The key is none of those that a capability is put in under.
pub open spec fn kept_key(k: Seq<char>) -> bool {
    k != "executor"@ && k != "guards"@ && k != "reliability"@ && k != "inputSchema"@
}

proof fn lemma_with_some_get(o: Json, key: Seq<char>, v: Option<Json>, other: Seq<char>)
    requires
        o is Object,
        other != key,
    ensures
        config_capabilities::with_some(o, key, v) is Object,
        config_capabilities::with_some(o, key, v).get(other) == o.get(other),
{
    if let Some(x) = v {
        json::law_get_with(o, key, x, other);
    }
}

proof fn lemma_with_list_get(o: Json, key: Seq<char>, s: Seq<Json>, other: Seq<char>)
    requires
        o is Object,
        other != key,
    ensures
        config_capabilities::with_list(o, key, s) is Object,
        config_capabilities::with_list(o, key, s).get(other) == o.get(other),
{
    if s.len() > 0 {
        json::law_get_with(o, key, Json::Array(s), other);
    }
}

/// Putting a capability into an object leaves the other keys as they are.
proof fn lemma_put_in_get(o: Json, cap: CapView, k: Seq<char>)
    requires
        o is Object,
        kept_key(k),
    ensures
        config_capabilities::put_in(o, cap) is Object,
        config_capabilities::put_in(o, cap).get(k) == o.get(k),
{
    let a = o.with("executor"@, cap.executor);
    json::law_get_with(o, "executor"@, cap.executor, k);
    let gs = cap.guards + a.items_at("guards"@);
    lemma_with_list_get(a, "guards"@, gs, k);
    let b = config_capabilities::with_list(a, "guards"@, gs);
    lemma_with_some_get(b, "reliability"@, cap.reliability, k);
    let c = if b.has("reliability"@) {
        b
    } else {
        config_capabilities::with_some(b, "reliability"@, cap.reliability)
    };
    lemma_with_some_get(c, "inputSchema"@, cap.input_schema, k);
}

/// Putting a capability into a well-formed object keeps it well-formed.
proof fn lemma_put_in_wf(o: Json, cap: CapView)
    requires
        o is Object,
        o.wf(),
        cap_wf(cap),
    ensures
        config_capabilities::put_in(o, cap).wf(),
        config_capabilities::put_in(o, cap) is Object,
{
    let a = o.with("executor"@, cap.executor);
    lemma_with_wf(o, "executor"@, cap.executor);
    lemma_items_at_wf(a, "guards"@);
    let gs = cap.guards + a.items_at("guards"@);
    lemma_with_list_wf(a, "guards"@, gs);
    let b = config_capabilities::with_list(a, "guards"@, gs);
    lemma_with_some_wf(b, "reliability"@, cap.reliability);
    let c = if b.has("reliability"@) {
        b
    } else {
        config_capabilities::with_some(b, "reliability"@, cap.reliability)
    };
    lemma_with_some_wf(c, "inputSchema"@, cap.input_schema);
}

proof fn lemma_put_in_turn(o: Json, reg: Registry, n: nat, k: Seq<char>)
    requires
        o is Object,
    ensures
        config_capabilities::put_in_turn(o, reg, n) matches Ok(p) ==> p is Object
            && config_capabilities::reference(p) is None && (kept_key(k) ==> p.get(k) == o.get(k))
            && (o.wf() && registry_wf(reg) ==> p.wf()),
    decreases n,
{
    if let Some(name) = config_capabilities::reference(o) {
        if let Some(cap) = json::find(reg, name) {
            if n > 0 {
                if kept_key(k) {
                    lemma_put_in_get(o, cap, k);
                }
                if registry_wf(reg) {
                    lemma_find_cap(reg, name);
                    if o.wf() {
                        lemma_put_in_wf(o, cap);
                    }
                }
                reveal_strlit("");
                reveal_strlit("executor");
                reveal_strlit("guards");
                reveal_strlit("reliability");
                reveal_strlit("inputSchema");
                assert(""@.len() == 0);
                assert("executor"@.len() == 8);
                assert("guards"@.len() == 6);
                assert("reliability"@.len() == 11);
                assert("inputSchema"@.len() == 11);
                lemma_put_in_get(o, cap, ""@);
                lemma_put_in_turn(
                    config_capabilities::put_in(o, cap),
                    reg,
                    (n - 1) as nat,
                    k,
                );
            }
        }
    }
}

proof fn lemma_substituted(o: Json, reg: Registry, k: Seq<char>)
    requires
        o is Object,
    ensures
        config_capabilities::substituted(o, reg) matches Ok(p) ==> p is Object
            && config_capabilities::reference(p) is None && (kept_key(k) ==> p.get(k) == o.get(k))
            && (o.wf() && registry_wf(reg) ==> p.wf()),
{
    lemma_put_in_turn(o, reg, reg.len(), k);
}

/// Rewritten entries have the keys of the entries, and the rewritten values.
pub open spec fn aligned(
    e: Seq<(Seq<char>, Json)>,
    done: Seq<(Seq<char>, Json)>,
    reg: Registry,
    n: nat,
) -> bool {
    done.len() == e.len() && forall|i: int|
        0 <= i < e.len() ==> (#[trigger] done[i]).0 == e[i].0 && config_capabilities::rewritten(
            e[i].1,
            reg,
            n,
        ) == Some(Ok::<Json, Seq<char>>(done[i].1))
}

proof fn lemma_rewritten_entries(e: Seq<(Seq<char>, Json)>, reg: Registry, n: nat, k: int)
    requires
        0 <= k <= e.len(),
    ensures
        config_capabilities::rewritten_entries(e, reg, n, k) matches Some(Ok(done)) ==> aligned(
            e.take(k),
            done,
            reg,
            n,
        ),
    decreases k,
{
    if k > 0 {
        lemma_rewritten_entries(e, reg, n, k - 1);
        if let Some(Ok(before)) = config_capabilities::rewritten_entries(e, reg, n, k - 1) {
            if let Some(Ok(done)) = config_capabilities::rewritten_entries(e, reg, n, k) {
                assert forall|i: int| 0 <= i < k implies (#[trigger] done[i]).0 == e.take(k)[i].0
                    && config_capabilities::rewritten(e.take(k)[i].1, reg, n) == Some(
                    Ok::<Json, Seq<char>>(done[i].1),
                ) by {
                    if i < k - 1 {
                        assert(done[i] == before[i]);
                        assert(e.take(k - 1)[i] == e[i]);
                    }
                }
            }
        }
    }
}

/// Rewritten items are those of the items.
pub open spec fn items_aligned(s: Seq<Json>, done: Seq<Json>, reg: Registry, n: nat) -> bool {
    done.len() == s.len() && forall|i: int|
        0 <= i < s.len() ==> config_capabilities::rewritten(s[i], reg, n) == Some(
            Ok::<Json, Seq<char>>(#[trigger] done[i]),
        )
}

proof fn lemma_rewritten_items(s: Seq<Json>, reg: Registry, n: nat, k: int)
    requires
        0 <= k <= s.len(),
    ensures
        config_capabilities::rewritten_items(s, reg, n, k) matches Some(Ok(done)) ==> items_aligned(
            s.take(k),
            done,
            reg,
            n,
        ),
    decreases k,
{
    if k > 0 {
        lemma_rewritten_items(s, reg, n, k - 1);
        if let Some(Ok(before)) = config_capabilities::rewritten_items(s, reg, n, k - 1) {
            if let Some(Ok(done)) = config_capabilities::rewritten_items(s, reg, n, k) {
                assert forall|i: int| 0 <= i < k implies config_capabilities::rewritten(
                    s.take(k)[i],
                    reg,
                    n,
                ) == Some(Ok::<Json, Seq<char>>(#[trigger] done[i])) by {
                    if i < k - 1 {
                        assert(done[i] == before[i]);
                        assert(s.take(k - 1)[i] == s[i]);
                    }
                }
            }
        }
    }
}

/// Two values are of one kind, as far as rewriting goes.
pub open spec fn same_kind(v: Json, w: Json) -> bool {
    (v is Object) == (w is Object) && (v is Array) == (w is Array) && (!(v is Object) && !(
    v is Array) ==> w == v)
}

/// Rewriting keeps the kind of a value, and its well-formedness.
proof fn lemma_rewritten_wf(v: Json, reg: Registry, n: nat)
    requires
        v.wf(),
        registry_wf(reg),
    ensures
        config_capabilities::rewritten(v, reg, n) matches Some(Ok(w)) ==> w.wf() && same_kind(v, w),
    decreases n,
{
    if n > 0 {
        let m = (n - 1) as nat;
        match v {
            Json::Object(_) => {
                lemma_substituted(v, reg, ""@);
                if let Ok(o) = config_capabilities::substituted(v, reg) {
                    let e = o->Object_0;
                    lemma_rewritten_entries(e, reg, m, e.len() as int);
                    assert(e.take(e.len() as int) =~= e);
                    if let Some(Ok(done)) = config_capabilities::rewritten_entries(
                        e,
                        reg,
                        m,
                        e.len() as int,
                    ) {
                        assert forall|i: int| 0 <= i < done.len() implies (
                        #[trigger] done[i]).1.wf() by {
                            assert(e[i].1.wf());
                            lemma_rewritten_wf(e[i].1, reg, m);
                        }
                        assert forall|i: int, j: int| 0 <= i < j < done.len() implies text::text_lt(
                            #[trigger] done[i].0,
                            #[trigger] done[j].0,
                        ) by {
                            assert(done[i].0 == e[i].0 && done[j].0 == e[j].0);
                        }
                    }
                }
            },
            Json::Array(s) => {
                lemma_rewritten_items(s, reg, m, s.len() as int);
                assert(s.take(s.len() as int) =~= s);
                if let Some(Ok(done)) = config_capabilities::rewritten_items(
                    s,
                    reg,
                    m,
                    s.len() as int,
                ) {
                    assert forall|i: int| 0 <= i < done.len() implies (#[trigger] done[i]).wf() by {
                        assert(s[i].wf());
                        lemma_rewritten_wf(s[i], reg, m);
                    }
                }
            },
            _ => {},
        }
    }
}

/// A key is found at the same place in entries with the same keys.
proof fn lemma_find_aligned(
    e: Seq<(Seq<char>, Json)>,
    done: Seq<(Seq<char>, Json)>,
    k: Seq<char>,
) -> (i: int)
    requires
        done.len() == e.len(),
        forall|i: int| 0 <= i < e.len() ==> (#[trigger] done[i]).0 == e[i].0,
    ensures
        match json::find(e, k) {
            Some(v) => 0 <= i < e.len() && e[i] == (k, v) && json::find(done, k) == Some(
                done[i].1,
            ),
            None => json::find(done, k) is None,
        },
    decreases e.len(),
{
    if e.len() == 0 {
        0
    } else if e[0].0 == k {
        assert(done[0].0 == e[0].0);
        0
    } else {
        assert(done[0].0 == e[0].0);
        let x = e.skip(1);
        let y = done.skip(1);
        assert forall|i: int| 0 <= i < x.len() implies (#[trigger] y[i]).0 == x[i].0 by {
            assert(done[i + 1].0 == e[i + 1].0);
        }
        let i = lemma_find_aligned(x, y, k);
        if json::find(x, k) is Some {
            assert(x[i] == e[i + 1]);
            assert(y[i] == done[i + 1]);
        }
        i + 1
    }
}

/// What stands under a kept key of a rewritten object is what stood under it,
/// rewritten.
proof fn lemma_rewritten_get(v: Json, reg: Registry, n: nat, k: Seq<char>)
    requires
        v is Object,
        kept_key(k),
    ensures
        config_capabilities::rewritten(v, reg, n) matches Some(Ok(w)) ==> w is Object && n > 0 && (
        match v.get(k) {
            Some(c) => w.get(k) matches Some(x) && config_capabilities::rewritten(
                c,
                reg,
                (n - 1) as nat,
            ) == Some(Ok::<Json, Seq<char>>(x)),
            None => w.get(k) is None,
        }),
{
    if n > 0 {
        let m = (n - 1) as nat;
        lemma_substituted(v, reg, k);
        if let Ok(o) = config_capabilities::substituted(v, reg) {
            let e = o->Object_0;
            lemma_rewritten_entries(e, reg, m, e.len() as int);
            assert(e.take(e.len() as int) =~= e);
            if let Some(Ok(done)) = config_capabilities::rewritten_entries(
                e,
                reg,
                m,
                e.len() as int,
            ) {
                reveal(Json::get);
                let i = lemma_find_aligned(e, done, k);
            }
        }
    }
}

// ---------------------------------------------------------------------------
// References that are left
// ---------------------------------------------------------------------------

/// A value without references stays as it is.
proof fn lemma_settles(v: Json, reg: Registry) -> (n: nat)
    requires
        !config_calm::refers(v),
    ensures
        config_capabilities::rewritten(v, reg, n) == Some(Ok::<Json, Seq<char>>(v)),
    decreases v, 0int,
{
    match v {
        Json::Object(e) => {
            assert forall|i: int| 0 <= i < e.len() implies !config_calm::refers((#[trigger] e[i]).1) by {}
            let n = lemma_settles_entries(e, reg, e.len() as int);
            assert(e.take(e.len() as int) =~= e);
            assert(config_capabilities::substituted(v, reg) == Ok::<Json, Seq<char>>(v));
            n + 1
        },
        Json::Array(s) => {
            assert forall|i: int| 0 <= i < s.len() implies !config_calm::refers(#[trigger] s[i]) by {}
            let n = lemma_settles_items(s, reg, s.len() as int);
            assert(s.take(s.len() as int) =~= s);
            n + 1
        },
        _ => 1,
    }
}

proof fn lemma_settles_entries(e: Seq<(Seq<char>, Json)>, reg: Registry, k: int) -> (n: nat)
    requires
        0 <= k <= e.len(),
        forall|i: int| 0 <= i < e.len() ==> !config_calm::refers((#[trigger] e[i]).1),
    ensures
        config_capabilities::rewritten_entries(e, reg, n, k) == Some(
            Ok::<Seq<(Seq<char>, Json)>, Seq<char>>(e.take(k)),
        ),
    decreases e, k,
{
    if k == 0 {
        assert(e.take(0) =~= Seq::empty());
        0
    } else {
        let a = lemma_settles_entries(e, reg, k - 1);
        assert(!config_calm::refers(e[k - 1].1));
        assert(decreases_to!(e => e[k - 1]));
        assert(decreases_to!(e[k - 1] => e[k - 1].1));
        let b = lemma_settles(e[k - 1].1, reg);
        let n = if a <= b {
            b
        } else {
            a
        };
        lemma_deeper_entries(e, reg, a, n, k - 1);
        config_capabilities::law_depth_makes_no_difference(e[k - 1].1, reg, b, n);
        assert(e.take(k) =~= e.take(k - 1).push((e[k - 1].0, e[k - 1].1)));
        n
    }
}

proof fn lemma_settles_items(s: Seq<Json>, reg: Registry, k: int) -> (n: nat)
    requires
        0 <= k <= s.len(),
        forall|i: int| 0 <= i < s.len() ==> !config_calm::refers(#[trigger] s[i]),
    ensures
        config_capabilities::rewritten_items(s, reg, n, k) == Some(
            Ok::<Seq<Json>, Seq<char>>(s.take(k)),
        ),
    decreases s, k,
{
    if k == 0 {
        assert(s.take(0) =~= Seq::empty());
        0
    } else {
        let a = lemma_settles_items(s, reg, k - 1);
        assert(!config_calm::refers(s[k - 1]));
        assert(decreases_to!(s => s[k - 1]));
        let b = lemma_settles(s[k - 1], reg);
        let n = if a <= b {
            b
        } else {
            a
        };
        lemma_deeper_items(s, reg, a, n, k - 1);
        config_capabilities::law_depth_makes_no_difference(s[k - 1], reg, b, n);
        assert(s.take(k) =~= s.take(k - 1).push(s[k - 1]));
        n
    }
}

proof fn lemma_deeper_entries(e: Seq<(Seq<char>, Json)>, reg: Registry, n: nat, m: nat, k: int)
    requires
        n <= m,
        config_capabilities::rewritten_entries(e, reg, n, k) is Some,
    ensures
        config_capabilities::rewritten_entries(e, reg, m, k)
            == config_capabilities::rewritten_entries(e, reg, n, k),
    decreases k,
{
    if k > 0 {
        lemma_deeper_entries(e, reg, n, m, k - 1);
        if config_capabilities::rewritten_entries(e, reg, n, k - 1) matches Some(Ok(_)) {
            config_capabilities::law_depth_makes_no_difference(e[k - 1].1, reg, n, m);
        }
    }
}

proof fn lemma_deeper_items(s: Seq<Json>, reg: Registry, n: nat, m: nat, k: int)
    requires
        n <= m,
        config_capabilities::rewritten_items(s, reg, n, k) is Some,
    ensures
        config_capabilities::rewritten_items(s, reg, m, k) == config_capabilities::rewritten_items(
            s,
            reg,
            n,
            k,
        ),
    decreases k,
{
    if k > 0 {
        lemma_deeper_items(s, reg, n, m, k - 1);
        if config_capabilities::rewritten_items(s, reg, n, k - 1) matches Some(Ok(_)) {
            config_capabilities::law_depth_makes_no_difference(s[k - 1], reg, n, m);
        }
    }
}

/// Without capabilities, the entries of a configuration are rewritten like any others.
proof fn lemma_settled_plain(e: Seq<(Seq<char>, Json)>, reg: Registry, n: nat, k: int)
    requires
        k <= e.len(),
        forall|i: int| 0 <= i < e.len() ==> (#[trigger] e[i]).0 != "capabilities"@,
    ensures
        config_capabilities::settled_entries(e, reg, n, k)
            == config_capabilities::rewritten_entries(e, reg, n, k),
    decreases k,
{
    if k > 0 {
        lemma_settled_plain(e, reg, n, k - 1);
        assert(e[k - 1].0 != "capabilities"@);
    }
}

/// The entries of a configuration are rewritten as they would be without the
/// capabilities.
proof fn lemma_settled_without(
    e: Seq<(Seq<char>, Json)>,
    reg: Registry,
    n: nat,
    j: int,
    k: int,
)
    requires
        0 <= j < e.len(),
        k <= e.len(),
        e[j].0 == "capabilities"@,
        forall|i: int| 0 <= i < e.len() && i != j ==> (#[trigger] e[i]).0 != "capabilities"@,
    ensures
        ({
            let f = e.take(j) + e.skip(j + 1);
            let m = if k <= j {
                k
            } else {
                k - 1
            };
            config_capabilities::settled_entries(e, reg, n, k) matches Some(Ok(done))
                ==> config_capabilities::rewritten_entries(f, reg, n, m) == Some(
                Ok::<Seq<(Seq<char>, Json)>, Seq<char>>(done),
            )
        }),
    decreases k,
{
    let f = e.take(j) + e.skip(j + 1);
    if k > 0 {
        lemma_settled_without(e, reg, n, j, k - 1);
        if k - 1 != j {
            assert(e[k - 1].0 != "capabilities"@);
            if k <= j {
                assert(f[k - 1] == e[k - 1]);
            } else {
                assert(f[k - 2] == e[k - 1]);
            }
        }
    }
}

/// Where a key stands, and what is left without it.
proof fn lemma_without_place(e: Seq<(Seq<char>, Json)>, key: Seq<char>) -> (j: int)
    requires
        json::sorted(e),
    ensures
        match json::find(e, key) {
            Some(_) => {
                &&& 0 <= j < e.len()
                &&& e[j].0 == key
                &&& json::without(e, key) == e.take(j) + e.skip(j + 1)
                &&& forall|i: int| 0 <= i < e.len() && i != j ==> (#[trigger] e[i]).0 != key
            },
            None => json::without(e, key) == e && forall|i: int|
                0 <= i < e.len() ==> (#[trigger] e[i]).0 != key,
        },
    decreases e.len(),
{
    if e.len() == 0 {
        assert(json::without(e, key) =~= e);
        0
    } else if e[0].0 == key {
        assert(json::without(e, key) =~= e.take(0) + e.skip(1));
        assert forall|i: int| 0 <= i < e.len() && i != 0 implies (#[trigger] e[i]).0 != key by {
            text::lemma_text_lt_total(key, key, 0);
            assert(text::text_lt(e[0].0, e[i].0));
        }
        0
    } else {
        let t = e.skip(1);
        assert forall|i: int, j: int| 0 <= i < j < t.len() implies text::text_lt(
            #[trigger] t[i].0,
            #[trigger] t[j].0,
        ) by {
            assert(text::text_lt(e[i + 1].0, e[j + 1].0));
        }
        let j = lemma_without_place(t, key);
        if json::find(t, key) is Some {
            assert(json::without(e, key) =~= e.take(j + 1) + e.skip(j + 2));
            assert forall|i: int| 0 <= i < e.len() && i != j + 1 implies (#[trigger] e[i]).0
                != key by {
                if i > 0 {
                    assert(t[i - 1].0 != key);
                }
            }
        } else {
            assert(json::without(e, key) =~= e);
            assert forall|i: int| 0 <= i < e.len() implies (#[trigger] e[i]).0 != key by {
                if i > 0 {
                    assert(t[i - 1].0 != key);
                }
            }
        }
        j + 1
    }
}

/// What a configuration settles to is what some other configuration is rewritten to: one
/// without capabilities, with the same exposures.
proof fn lemma_settled_rewritten(c: Json, reg: Registry, n: nat) -> (q: Json)
    requires
        c.wf(),
        registry_wf(reg),
    ensures
        config_capabilities::settled_within(c, reg, n) matches Some(Ok(w)) ==> {
            &&& q.wf()
            &&& config_capabilities::rewritten(q, reg, n) == Some(Ok::<Json, Seq<char>>(w))
            &&& q.get("proxy"@) == c.get("proxy"@)
            &&& w.get("capabilities"@) is None
        },
{
    lemma_exposure_keys();
    if n == 0 || !(c is Object) {
        if n > 0 {
            lemma_rewritten_wf(c, reg, n);
            reveal(Json::get);
        }
        c
    } else {
        let key = "capabilities"@;
        lemma_substituted(c, reg, "proxy"@);
        if let Ok(o) = config_capabilities::substituted(c, reg) {
            let e = o->Object_0;
            let j = lemma_without_place(e, key);
            let q = o.minus(key);
            lemma_minus_wf(o, key);
            json::law_get_minus(o, key, "executor"@);
            json::law_get_minus(o, key, "proxy"@);
            json::law_get_minus(o, key, key);
            let f = json::without(e, key);
            assert(q == Json::Object(f)) by {
                reveal(Json::minus);
            }
            let m = (n - 1) as nat;
            if let Some(Ok(done)) = config_capabilities::settled_entries(
                e,
                reg,
                m,
                e.len() as int,
            ) {
                if json::find(e, key) is Some {
                    lemma_settled_without(e, reg, m, j, e.len() as int);
                    assert(f.len() == e.len() - 1);
                } else {
                    lemma_settled_plain(e, reg, m, e.len() as int);
                }
                assert(config_capabilities::substituted(q, reg) == Ok::<Json, Seq<char>>(q));
                lemma_rewritten_entries(f, reg, m, f.len() as int);
                assert(f.take(f.len() as int) =~= f);
                let i = lemma_find_aligned(f, done, key);
                reveal(Json::get);
            }
            q
        } else {
            c
        }
    }
}

/// A configuration without references and capabilities settles as it is.
proof fn lemma_settled_same(v: Json, reg: Registry)
    requires
        !config_calm::refers(v),
        v.wf(),
        v.get("capabilities"@) is None,
    ensures
        config::settled(v, reg) == Ok::<Json, Seq<char>>(v),
{
    let n = lemma_settles(v, reg);
    assert(config_capabilities::settled_within(v, reg, n) == Some(Ok::<Json, Seq<char>>(v))) by {
        if let Json::Object(e) = v {
            reveal(Json::get);
            let j = lemma_without_place(e, "capabilities"@);
            assert(config_capabilities::substituted(v, reg) == Ok::<Json, Seq<char>>(v));
            lemma_settled_plain(e, reg, (n - 1) as nat, e.len() as int);
        }
    }
    let m = choose|m: nat| #[trigger] config_capabilities::settled_within(v, reg, m) is Some;
    if n <= m {
        config_capabilities::law_settling_depth(v, reg, n, m);
    } else {
        config_capabilities::law_settling_depth(v, reg, m, n);
    }
}

// ---------------------------------------------------------------------------
// Exposures
// ---------------------------------------------------------------------------

/// What stands for an exposed capability is well-formed, and refers to no capability.
proof fn lemma_exposed(ex: Json, name: Seq<char>, cap: CapView)
    requires
        ex.wf(),
        cap_wf(cap),
    ensures
        config_capabilities::exposed(ex, name, cap).wf(),
        config_capabilities::exposed(ex, name, cap).get("capability"@) is None,
{
    let k = "capability"@;
    reveal_strlit("capability");
    reveal_strlit("name");
    reveal_strlit("title");
    reveal_strlit("description");
    reveal_strlit("inputSchema");
    reveal_strlit("tags");
    reveal_strlit("guards");
    reveal_strlit("reliability");
    reveal_strlit("executor");
    assert("capability"@.len() == 10);
    assert("name"@.len() == 4);
    assert("title"@.len() == 5);
    assert("description"@.len() == 11);
    assert("inputSchema"@.len() == 11);
    assert("tags"@.len() == 4);
    assert("guards"@.len() == 6);
    assert("reliability"@.len() == 11);
    assert("executor"@.len() == 8);
    let alias = match ex.str_at("as"@) {
        Some(a) => a,
        None => name,
    };
    assert(Json::empty().wf() && Json::empty().get(k) is None) by {
        reveal(Json::get);
    }
    lemma_with_wf(Json::empty(), "name"@, Json::String(alias));
    json::law_get_with(Json::empty(), "name"@, Json::String(alias), k);
    let a = Json::empty().with("name"@, Json::String(alias));
    let title = config_capabilities::text_value(cap.title);
    lemma_with_some_wf(a, "title"@, title);
    lemma_with_some_get(a, "title"@, title, k);
    let b = config_capabilities::with_some(a, "title"@, title);
    let description = config_capabilities::text_value(
        config_capabilities::first_of(ex.str_at("description"@), cap.description),
    );
    lemma_with_some_wf(b, "description"@, description);
    lemma_with_some_get(b, "description"@, description, k);
    let c = config_capabilities::with_some(b, "description"@, description);
    lemma_with_some_wf(c, "inputSchema"@, cap.input_schema);
    lemma_with_some_get(c, "inputSchema"@, cap.input_schema, k);
    let d = config_capabilities::with_some(c, "inputSchema"@, cap.input_schema);
    lemma_items_at_wf(ex, "tags"@);
    let tags = cap.tags + ex.items_at("tags"@);
    lemma_with_list_wf(d, "tags"@, tags);
    lemma_with_list_get(d, "tags"@, tags, k);
    let e = config_capabilities::with_list(d, "tags"@, tags);
    lemma_items_at_wf(ex, "guards"@);
    let guards = cap.guards + ex.items_at("guards"@);
    lemma_with_list_wf(e, "guards"@, guards);
    lemma_with_list_get(e, "guards"@, guards, k);
    let f = config_capabilities::with_list(e, "guards"@, guards);
    json::lemma_get_wf(ex, "reliability"@);
    let reliability = config_capabilities::first_of(ex.get("reliability"@), cap.reliability);
    lemma_with_some_wf(f, "reliability"@, reliability);
    lemma_with_some_get(f, "reliability"@, reliability, k);
    let g = config_capabilities::with_some(f, "reliability"@, reliability);
    lemma_with_wf(g, "executor"@, cap.executor);
    json::law_get_with(g, "executor"@, cap.executor, k);
}

/// Resolved exposures refer to no capability.
pub open spec fn plain_exposures(s: Seq<Json>) -> bool {
    forall|i: int| 0 <= i < s.len() ==> (#[trigger] s[i]).str_at("capability"@) is None
}

proof fn lemma_exposures(s: Seq<Json>, reg: Registry, n: int)
    requires
        0 <= n <= s.len(),
        items_wf(s),
        registry_wf(reg),
    ensures
        config_capabilities::exposures(s, reg, n) matches Ok(done) ==> items_wf(done)
            && plain_exposures(done),
    decreases n,
{
    if n > 0 {
        lemma_exposures(s, reg, n - 1);
        assert(s[n - 1].wf());
        if let Some(name) = s[n - 1].str_at("capability"@) {
            lemma_find_cap(reg, name);
            if let Some(cap) = json::find(reg, name) {
                lemma_exposed(s[n - 1], name, cap);
            }
        }
    }
}

/// Exposures that refer to no capability stay as they are.
proof fn lemma_exposures_same(s: Seq<Json>, reg: Registry, n: int)
    requires
        0 <= n <= s.len(),
        plain_exposures(s),
    ensures
        config_capabilities::exposures(s, reg, n) == Ok::<Seq<Json>, Seq<char>>(s.take(n)),
    decreases n,
{
    if n == 0 {
        assert(s.take(0) =~= Seq::empty());
    } else {
        lemma_exposures_same(s, reg, n - 1);
        assert(s[n - 1].str_at("capability"@) is None);
        assert(s.take(n) =~= s.take(n - 1).push(s[n - 1]));
    }
}

/// No exposure of the configuration refers to a capability.
pub open spec fn exposes_plainly(config: Json) -> bool {
    config.get("proxy"@) matches Some(proxy) ==> (proxy.array_at("expose"@) matches Some(s)
        ==> plain_exposures(s))
}

proof fn lemma_exposes_plainly(config: Json, reg: Registry)
    requires
        config.wf(),
        registry_wf(reg),
    ensures
        config_capabilities::exposures_resolved(config, reg) matches Ok(c) ==> c.wf()
            && exposes_plainly(c),
{
    json::lemma_get_wf(config, "proxy"@);
    if let Some(proxy) = config.get("proxy"@) {
        json::lemma_get_wf(proxy, "expose"@);
        if let Some(s) = proxy.array_at("expose"@) {
            lemma_exposures(s, reg, s.len() as int);
            if let Ok(done) = config_capabilities::exposures(s, reg, s.len() as int) {
                reveal(Json::get);
                json::law_with_wf(proxy, "expose"@, Json::Array(done));
                json::law_get_with(proxy, "expose"@, Json::Array(done), "expose"@);
                let p = proxy.with("expose"@, Json::Array(done));
                json::law_with_wf(config, "proxy"@, p);
                json::law_get_with(config, "proxy"@, p, "proxy"@);
            }
        }
    }
}

/// The keys that matter to exposures are kept when capabilities are put in.
proof fn lemma_exposure_keys()
    ensures
        kept_key("proxy"@),
        kept_key("expose"@),
        kept_key("capability"@),
        kept_key("workflows"@),
        "proxy"@ != "capabilities"@,
        "workflows"@ != "capabilities"@,
        "workflows"@ != "proxy"@,
        "workflows"@ != "skills"@,
        "workflows"@ != "scripts"@,
        "workflows"@ != "flowgate"@,
        "workflows"@ != "lexicon"@,
{
    reveal_strlit("proxy");
    reveal_strlit("expose");
    reveal_strlit("capability");
    reveal_strlit("workflows");
    reveal_strlit("capabilities");
    reveal_strlit("skills");
    reveal_strlit("scripts");
    reveal_strlit("flowgate");
    reveal_strlit("lexicon");
    reveal_strlit("executor");
    reveal_strlit("guards");
    reveal_strlit("reliability");
    reveal_strlit("inputSchema");
    assert("proxy"@.len() == 5);
    assert("expose"@.len() == 6);
    assert("capability"@.len() == 10);
    assert("workflows"@.len() == 9);
    assert("capabilities"@.len() == 12);
    assert("skills"@.len() == 6);
    assert("scripts"@.len() == 7);
    assert("flowgate"@.len() == 8);
    assert("lexicon"@.len() == 7);
    assert("executor"@.len() == 8);
    assert("guards"@.len() == 6);
    assert("reliability"@.len() == 11);
    assert("inputSchema"@.len() == 11);
    assert("expose"@[0] == 'e');
    assert("guards"@[0] == 'g');
}

/// A value that names no capability names none once it is rewritten.
proof fn lemma_rewritten_plain(v: Json, reg: Registry, n: nat)
    requires
        v.wf(),
        registry_wf(reg),
        v.str_at("capability"@) is None,
    ensures
        config_capabilities::rewritten(v, reg, n) matches Some(Ok(w)) ==> w.str_at("capability"@)
            is None,
{
    lemma_exposure_keys();
    lemma_rewritten_wf(v, reg, n);
    if v is Object {
        lemma_rewritten_get(v, reg, n, "capability"@);
        json::lemma_get_wf(v, "capability"@);
        if n > 0 {
            if let Some(c) = v.get("capability"@) {
                lemma_rewritten_wf(c, reg, (n - 1) as nat);
            }
        }
    } else {
        reveal(Json::get);
    }
}

/// A rewritten value refers to no capability.
proof fn lemma_rewritten_unref(v: Json, reg: Registry, n: nat)
    requires
        v.wf(),
        registry_wf(reg),
    ensures
        config_capabilities::rewritten(v, reg, n) matches Some(Ok(w)) ==> !config_calm::refers(w),
    decreases n,
{
    if n > 0 {
        let m = (n - 1) as nat;
        match v {
            Json::Object(_) => {
                lemma_substituted(v, reg, ""@);
                if let Ok(o) = config_capabilities::substituted(v, reg) {
                    let e = o->Object_0;
                    lemma_rewritten_entries(e, reg, m, e.len() as int);
                    assert(e.take(e.len() as int) =~= e);
                    if let Some(Ok(done)) = config_capabilities::rewritten_entries(
                        e,
                        reg,
                        m,
                        e.len() as int,
                    ) {
                        assert forall|i: int| 0 <= i < done.len() implies !config_calm::refers(
                            (#[trigger] done[i]).1,
                        ) by {
                            assert(e[i].1.wf());
                            lemma_rewritten_unref(e[i].1, reg, m);
                        }
                        let i = lemma_find_aligned(e, done, "executor"@);
                        reveal(Json::get);
                        if let Some(x) = json::find(e, "executor"@) {
                            assert(e[i].1.wf());
                            assert(x.str_at("capability"@) is None);
                            lemma_rewritten_plain(x, reg, m);
                            assert(done[i].1.str_at("capability"@) is None);
                        }
                        assert(config_capabilities::reference(Json::Object(done)) is None);
                    }
                }
            },
            Json::Array(s) => {
                lemma_rewritten_items(s, reg, m, s.len() as int);
                assert(s.take(s.len() as int) =~= s);
                if let Some(Ok(done)) = config_capabilities::rewritten_items(
                    s,
                    reg,
                    m,
                    s.len() as int,
                ) {
                    assert forall|i: int| 0 <= i < done.len() implies !config_calm::refers(
                        #[trigger] done[i],
                    ) by {
                        assert(s[i].wf());
                        lemma_rewritten_unref(s[i], reg, m);
                    }
                }
            },
            _ => {},
        }
    }
}

/// Rewriting keeps that no exposure refers to a capability.
proof fn lemma_rewritten_exposes_plainly(v: Json, reg: Registry, n: nat)
    requires
        v.wf(),
        registry_wf(reg),
        exposes_plainly(v),
    ensures
        config_capabilities::rewritten(v, reg, n) matches Some(Ok(w)) ==> exposes_plainly(w),
{
    lemma_exposure_keys();
    lemma_rewritten_wf(v, reg, n);
    if let Some(Ok(w)) = config_capabilities::rewritten(v, reg, n) {
        reveal(Json::get);
        if let Some(q) = w.get("proxy"@) {
            if let Some(done) = q.array_at("expose"@) {
                lemma_rewritten_get(v, reg, n, "proxy"@);
                let p = v.get("proxy"@)->Some_0;
                let m = (n - 1) as nat;
                json::lemma_get_wf(v, "proxy"@);
                lemma_rewritten_wf(p, reg, m);
                lemma_rewritten_get(p, reg, m, "expose"@);
                let x = p.get("expose"@)->Some_0;
                let l = (m - 1) as nat;
                json::lemma_get_wf(p, "expose"@);
                lemma_rewritten_wf(x, reg, l);
                let s = x->Array_0;
                assert(x == Json::Array(s));
                assert(p.array_at("expose"@) == Some(s));
                let j = (l - 1) as nat;
                lemma_rewritten_items(s, reg, j, s.len() as int);
                assert(s.take(s.len() as int) =~= s);
                assert forall|i: int| 0 <= i < done.len() implies (#[trigger] done[i]).str_at(
                    "capability"@,
                ) is None by {
                    assert(s[i].wf());
                    assert(s[i].str_at("capability"@) is None);
                    lemma_rewritten_plain(s[i], reg, j);
                }
            }
        }
    }
}

/// Exposures that refer to no capability leave the configuration as it is.
proof fn lemma_exposures_resolved_same(config: Json, reg: Registry)
    requires
        config.wf(),
        exposes_plainly(config),
    ensures
        config_capabilities::exposures_resolved(config, reg) == Ok::<Json, Seq<char>>(config),
{
    json::lemma_get_wf(config, "proxy"@);
    if let Some(proxy) = config.get("proxy"@) {
        if let Some(s) = proxy.array_at("expose"@) {
            lemma_exposures_same(s, reg, s.len() as int);
            assert(s.take(s.len() as int) =~= s);
            json::law_with_same(proxy, "expose"@, Json::Array(s));
            json::law_with_same(config, "proxy"@, proxy);
        }
    }
}

proof fn lemma_without_wf(e: Seq<(Seq<char>, Json)>, key: Seq<char>)
    requires
        Json::Object(e).wf(),
    ensures
        Json::Object(json::without(e, key)).wf(),
        forall|i: int|
            0 <= i < json::without(e, key).len() ==> e.contains(
                #[trigger] json::without(e, key)[i],
            ),
    decreases e.len(),
{
    let r = json::without(e, key);
    if e.len() > 0 {
        let t = e.skip(1);
        assert forall|i: int| 0 <= i < t.len() implies (#[trigger] t[i]).1.wf() by {
            assert(e[i + 1].1.wf());
        }
        assert forall|i: int, j: int| 0 <= i < j < t.len() implies text::text_lt(
            #[trigger] t[i].0,
            #[trigger] t[j].0,
        ) by {
            assert(text::text_lt(e[i + 1].0, e[j + 1].0));
        }
        if e[0].0 == key {
            assert forall|i: int| 0 <= i < r.len() implies e.contains(#[trigger] r[i]) by {
                assert(r[i] == e[i + 1]);
            }
        } else {
            lemma_without_wf(t, key);
            let u = json::without(t, key);
            assert(r =~= seq![e[0]] + u);
            assert forall|i: int| 0 <= i < r.len() implies e.contains(#[trigger] r[i])
                && r[i].1.wf() by {
                if i == 0 {
                    assert(r[0] == e[0]);
                } else {
                    assert(r[i] == u[i - 1]);
                    assert(t.contains(u[i - 1]));
                    let k = choose|k: int| 0 <= k < t.len() && t[k] == u[i - 1];
                    assert(e[k + 1] == r[i]);
                }
            }
            assert forall|i: int, j: int| 0 <= i < j < r.len() implies text::text_lt(
                #[trigger] r[i].0,
                #[trigger] r[j].0,
            ) by {
                if i == 0 {
                    assert(r[j] == u[j - 1]);
                    assert(t.contains(u[j - 1]));
                    let k = choose|k: int| 0 <= k < t.len() && t[k] == u[j - 1];
                    assert(e[k + 1] == r[j]);
                    assert(text::text_lt(e[0].0, e[k + 1].0));
                } else {
                    assert(r[i] == u[i - 1] && r[j] == u[j - 1]);
                    assert(text::text_lt(u[i - 1].0, u[j - 1].0));
                }
            }
        }
    }
}

proof fn lemma_minus_wf(v: Json, key: Seq<char>)
    requires
        v.wf(),
    ensures
        v.minus(key).wf(),
{
    reveal(Json::minus);
    if let Json::Object(e) = v {
        lemma_without_wf(e, key);
    }
}

/// A configuration whose capabilities were put in is well-formed, exposes plainly and
/// has no capabilities and no references to them left.
proof fn lemma_flattened(config: Json)
    requires
        config.wf(),
        config::nested_within(config, u64::MAX as nat),
    ensures
        config::flattened(config) matches Ok(v) ==> v.wf() && exposes_plainly(v) && v.get(
            "capabilities"@,
        ) is None && !config_calm::refers(v),
{
    lemma_exposure_keys();
    let raw = config.entries_at("capabilities"@);
    lemma_entries_at_wf(config, "capabilities"@);
    lemma_registry_wf(raw, raw.len() as int);
    if let Ok(reg) = config_capabilities::registry(config) {
        lemma_exposes_plainly(config, reg);
        if let Ok(c) = config_capabilities::exposures_resolved(config, reg) {
            let top = u64::MAX as nat;
            assert(config_capabilities::settled_within(c, reg, top) is Some);
            let n = choose|n: nat| #[trigger]
                config_capabilities::settled_within(c, reg, n) is Some;
            let q = lemma_settled_rewritten(c, reg, n);
            if config::settled(c, reg) is Ok {
                assert(exposes_plainly(q));
                lemma_rewritten_wf(q, reg, n);
                lemma_rewritten_exposes_plainly(q, reg, n);
                lemma_rewritten_unref(q, reg, n);
            }
        }
    }
}

/// A configuration without capabilities and references to them stays as it is.
proof fn lemma_flattened_same(v: Json)
    requires
        v.wf(),
        exposes_plainly(v),
        v.get("capabilities"@) is None,
        !config_calm::refers(v),
    ensures
        config::flattened(v) == Ok::<Json, Seq<char>>(v),
{
    let reg: Registry = Seq::empty();
    assert(config_capabilities::registry(v) == Ok::<Registry, Seq<char>>(reg));
    lemma_exposures_resolved_same(v, reg);
    lemma_settled_same(v, reg);
}

// ---------------------------------------------------------------------------
// What is written into a definition
// ---------------------------------------------------------------------------

/// What resolution writes into definitions, where it writes it.
pub struct Stamps {
    pub skills: Option<Json>,
    pub scripts: Option<Json>,
    pub preferences: Option<Json>,
    pub terms: Option<Json>,
}

/// The library of skills, written where there is one.
pub open spec fn skills_step(o: Option<Json>) -> spec_fn(Seq<char>, Json) -> Json {
    |id: Seq<char>, def: Json|
        match o {
            Some(lib) => config_stamp::with_skills(lib)(id, def),
            None => def,
        }
}

/// The library of scripts, written where there is one.
pub open spec fn scripts_step(o: Option<Json>) -> spec_fn(Seq<char>, Json) -> Json {
    |id: Seq<char>, def: Json|
        match o {
            Some(lib) => config_stamp::with_scripts(lib)(id, def),
            None => def,
        }
}

/// A value, written under a key where there is one.
pub open spec fn value_step(key: Seq<char>, o: Option<Json>) -> spec_fn(Seq<char>, Json) -> Json {
    |id: Seq<char>, def: Json|
        match o {
            Some(v) => config_stamp::with_value(key, v)(id, def),
            None => def,
        }
}

/// A definition with everything written into it but the outputs of what it uses.
pub open spec fn grown(id: Seq<char>, d: Json, p: Stamps) -> Json {
    let d1 = config_stamp::versioned()(id, d);
    let d2 = skills_step(p.skills)(id, d1);
    let d3 = scripts_step(p.scripts)(id, d2);
    let d4 = value_step("_authoringPrefs"@, p.preferences)(id, d3);
    let d5 = config_stamp::asking()(id, d4);
    value_step("_lexiconLibrary"@, p.terms)(id, d5)
}

proof fn lemma_value_step(key: Seq<char>, o: Option<Json>, id: Seq<char>, d: Json, other: Seq<char>)
    ensures
        ({
            let r = value_step(key, o)(id, d);
            &&& r is Object == (d is Object)
            &&& !(d is Object) ==> r == d
            &&& d.wf() && opt_wf(o) ==> r.wf()
            &&& other != key ==> r.get(other) == d.get(other)
            &&& d is Object && o is Some ==> r.get(key) == o
        }),
{
    if let Some(v) = o {
        if d is Object {
            json::law_get_with(d, key, v, other);
            json::law_get_with(d, key, v, key);
            if d.wf() && v.wf() {
                json::law_with_wf(d, key, v);
            }
        }
    }
}

proof fn lemma_value_step_same(key: Seq<char>, o: Option<Json>, id: Seq<char>, d: Json)
    requires
        d.wf(),
        d is Object && o is Some ==> d.get(key) == o,
    ensures
        value_step(key, o)(id, d) == d,
{
    if let Some(v) = o {
        if d is Object {
            json::law_with_same(d, key, v);
        }
    }
}

/// The keys that resolution writes into definitions.
proof fn lemma_stamp_keys()
    ensures
        "version"@ != "_skillsLibrary"@,
        "version"@ != "_scriptsLibrary"@,
        "version"@ != "_authoringPrefs"@,
        "version"@ != "_lexiconLibrary"@,
        "version"@ != "states"@,
        "_skillsLibrary"@ != "_scriptsLibrary"@,
        "_skillsLibrary"@ != "_authoringPrefs"@,
        "_skillsLibrary"@ != "_lexiconLibrary"@,
        "_skillsLibrary"@ != "states"@,
        "_scriptsLibrary"@ != "_authoringPrefs"@,
        "_scriptsLibrary"@ != "_lexiconLibrary"@,
        "_scriptsLibrary"@ != "states"@,
        "_authoringPrefs"@ != "_lexiconLibrary"@,
        "_authoringPrefs"@ != "states"@,
        "_lexiconLibrary"@ != "states"@,
        "skills"@ != "version"@,
        "skills"@ != "_skillsLibrary"@,
        "skills"@ != "_scriptsLibrary"@,
        "skills"@ != "_authoringPrefs"@,
        "skills"@ != "_lexiconLibrary"@,
        "onEnter"@ != "_skillsLibrary"@,
        "onEnter"@ != "_scriptsLibrary"@,
        "onEnter"@ != "_authoringPrefs"@,
        "onEnter"@ != "_lexiconLibrary"@,
        "enable_human_ask"@ != "_skillsLibrary"@,
        "enable_human_ask"@ != "_scriptsLibrary"@,
        "enable_human_ask"@ != "_authoringPrefs"@,
        "enable_human_ask"@ != "_lexiconLibrary"@,
        "enable_human_ask"@ != "states"@,
{
    reveal_strlit("version");
    reveal_strlit("_skillsLibrary");
    reveal_strlit("_scriptsLibrary");
    reveal_strlit("_authoringPrefs");
    reveal_strlit("_lexiconLibrary");
    reveal_strlit("states");
    reveal_strlit("skills");
    reveal_strlit("onEnter");
    reveal_strlit("enable_human_ask");
    assert("version"@.len() == 7);
    assert("_skillsLibrary"@.len() == 14);
    assert("_scriptsLibrary"@.len() == 15);
    assert("_authoringPrefs"@.len() == 15);
    assert("_lexiconLibrary"@.len() == 15);
    assert("states"@.len() == 6);
    assert("skills"@.len() == 6);
    assert("onEnter"@.len() == 7);
    assert("enable_human_ask"@.len() == 16);
    assert("_scriptsLibrary"@[1] == 's');
    assert("_authoringPrefs"@[1] == 'a');
    assert("_lexiconLibrary"@[1] == 'l');
}

/// What a definition refers to depends on a few of its keys.
proof fn lemma_refers_alike(a: Json, b: Json)
    requires
        a.get("skills"@) == b.get("skills"@),
        a.get("onEnter"@) == b.get("onEnter"@),
        a.get("states"@) == b.get("states"@),
    ensures
        config_stamp::referenced_skills(a) == config_stamp::referenced_skills(b),
        config_stamp::referenced_scripts(a) == config_stamp::referenced_scripts(b),
{
}

/// Every stamp is well-formed.
pub open spec fn stamps_wf(p: Stamps) -> bool {
    opt_wf(p.skills) && opt_wf(p.scripts) && opt_wf(p.preferences) && opt_wf(p.terms)
}

proof fn lemma_versioned(id: Seq<char>, d: Json, other: Seq<char>)
    ensures
        ({
            let r = config_stamp::versioned()(id, d);
            &&& r is Object == (d is Object)
            &&& d.wf() ==> r.wf()
            &&& other != "version"@ ==> r.get(other) == d.get(other)
            &&& d is Object ==> r.has("version"@)
        }),
{
    if d is Object && !d.has("version"@) {
        let v = Json::String("0"@);
        json::law_get_with(d, "version"@, v, other);
        json::law_get_with(d, "version"@, v, "version"@);
        if d.wf() {
            json::law_with_wf(d, "version"@, v);
        }
    }
}

proof fn lemma_skills_step(o: Option<Json>, id: Seq<char>, d: Json, other: Seq<char>)
    ensures
        ({
            let r = skills_step(o)(id, d);
            &&& r is Object == (d is Object)
            &&& d.wf() && opt_wf(o) ==> r.wf()
            &&& other != "_skillsLibrary"@ ==> r.get(other) == d.get(other)
        }),
{
    if let Some(lib) = o {
        let names = config_stamp::referenced_skills(d);
        config_growth::lemma_stamped(d, "_skillsLibrary"@, lib, names, other);
    }
}

proof fn lemma_scripts_step(o: Option<Json>, id: Seq<char>, d: Json, other: Seq<char>)
    ensures
        ({
            let r = scripts_step(o)(id, d);
            &&& r is Object == (d is Object)
            &&& d.wf() && opt_wf(o) ==> r.wf()
            &&& other != "_scriptsLibrary"@ ==> r.get(other) == d.get(other)
        }),
{
    if let Some(lib) = o {
        let names = config_stamp::referenced_scripts(d);
        config_growth::lemma_stamped(d, "_scriptsLibrary"@, lib, names, other);
    }
}

/// The part of a library that a definition gets, where it gets one.
pub open spec fn part_of(lib: Option<Json>, subjects: Seq<Seq<char>>) -> Option<Json> {
    match lib {
        Some(x) => config_stamp::filled(
            config_stamp::scoped(x, subjects, subjects.len() as int),
        ),
        None => None,
    }
}

/// A definition with everything written into it refers to what it referred to before, and
/// holds what it held before where nothing is written.
pub open spec fn kept_apart(d: Json, r: Json, p: Stamps) -> bool {
    &&& r is Object == (d is Object)
    &&& config_stamp::referenced_skills(r) == config_stamp::referenced_skills(d)
    &&& config_stamp::referenced_scripts(r) == config_stamp::referenced_scripts(d)
    &&& part_of(p.skills, config_stamp::referenced_skills(d)) is None ==> r.get(
        "_skillsLibrary"@,
    ) == d.get("_skillsLibrary"@)
    &&& part_of(p.scripts, config_stamp::referenced_scripts(d)) is None ==> r.get(
        "_scriptsLibrary"@,
    ) == d.get("_scriptsLibrary"@)
    &&& p.preferences is None ==> r.get("_authoringPrefs"@) == d.get("_authoringPrefs"@)
    &&& p.terms is None ==> r.get("_lexiconLibrary"@) == d.get("_lexiconLibrary"@)
}

/// A definition that resolution has written into stays as it is when all of that is
/// written into it again.
proof fn lemma_definition_settles(id: Seq<char>, d: Json, p: Stamps, w: Json)
    requires
        d.wf(),
        stamps_wf(p),
        w.wf(),
    ensures
        ({
            let r = config_stamp::expand_definition(w)(id, grown(id, d, p));
            &&& r.wf()
            &&& config_stamp::versioned()(id, r) == r
            &&& skills_step(p.skills)(id, r) == r
            &&& scripts_step(p.scripts)(id, r) == r
            &&& value_step("_authoringPrefs"@, p.preferences)(id, r) == r
            &&& config_stamp::asking()(id, r) == r
            &&& value_step("_lexiconLibrary"@, p.terms)(id, r) == r
            &&& kept_apart(config_stamp::versioned()(id, d), r, p)
        }),
{
    lemma_stamp_keys();
    config_growth::lemma_keys_differ();
    let d1 = config_stamp::versioned()(id, d);
    let d2 = skills_step(p.skills)(id, d1);
    let d3 = scripts_step(p.scripts)(id, d2);
    let d4 = value_step("_authoringPrefs"@, p.preferences)(id, d3);
    let d5 = config_stamp::asking()(id, d4);
    let d6 = value_step("_lexiconLibrary"@, p.terms)(id, d5);
    let r = config_stamp::expand_definition(w)(id, d6);
    assert(d6 == grown(id, d, p));
    lemma_versioned(id, d, ""@);
    // what each step keeps of what the others look at
    lemma_skills_step(p.skills, id, d1, "version"@);
    lemma_scripts_step(p.scripts, id, d2, "version"@);
    lemma_value_step("_authoringPrefs"@, p.preferences, id, d3, "version"@);
    config_growth::lemma_asking(id, d4, "version"@);
    lemma_value_step("_lexiconLibrary"@, p.terms, id, d5, "version"@);
    config_growth::lemma_expand_definition(id, d6, w, "version"@);
    assert(config_stamp::versioned()(id, r) == r);
    // skills
    lemma_scripts_step(p.scripts, id, d2, "_skillsLibrary"@);
    lemma_value_step("_authoringPrefs"@, p.preferences, id, d3, "_skillsLibrary"@);
    config_growth::lemma_asking(id, d4, "_skillsLibrary"@);
    lemma_value_step("_lexiconLibrary"@, p.terms, id, d5, "_skillsLibrary"@);
    config_growth::lemma_expand_definition(id, d6, w, "_skillsLibrary"@);
    lemma_skills_step(p.skills, id, d1, "skills"@);
    lemma_skills_step(p.skills, id, d1, "onEnter"@);
    lemma_skills_step(p.skills, id, d1, "states"@);
    lemma_refers_alike(d1, d2);
    lemma_scripts_step(p.scripts, id, d2, "skills"@);
    lemma_scripts_step(p.scripts, id, d2, "onEnter"@);
    lemma_scripts_step(p.scripts, id, d2, "states"@);
    lemma_refers_alike(d2, d3);
    lemma_value_step("_authoringPrefs"@, p.preferences, id, d3, "skills"@);
    lemma_value_step("_authoringPrefs"@, p.preferences, id, d3, "onEnter"@);
    lemma_value_step("_authoringPrefs"@, p.preferences, id, d3, "states"@);
    lemma_refers_alike(d3, d4);
    lemma_value_step("_lexiconLibrary"@, p.terms, id, d5, "skills"@);
    lemma_value_step("_lexiconLibrary"@, p.terms, id, d5, "onEnter"@);
    lemma_value_step("_lexiconLibrary"@, p.terms, id, d5, "states"@);
    lemma_refers_alike(d5, d6);
    let names = config_stamp::referenced_skills(d1);
    assert(config_stamp::referenced_skills(r) == names);
    if let Some(lib) = p.skills {
        config_growth::law_stamping_twice(d1, r, "_skillsLibrary"@, lib, names);
    }
    // scripts
    lemma_value_step("_authoringPrefs"@, p.preferences, id, d3, "_scriptsLibrary"@);
    config_growth::lemma_asking(id, d4, "_scriptsLibrary"@);
    lemma_value_step("_lexiconLibrary"@, p.terms, id, d5, "_scriptsLibrary"@);
    config_growth::lemma_expand_definition(id, d6, w, "_scriptsLibrary"@);
    let bodies = config_stamp::referenced_scripts(d2);
    assert(config_stamp::referenced_scripts(r) == bodies);
    if let Some(lib) = p.scripts {
        config_growth::law_stamping_twice(d2, r, "_scriptsLibrary"@, lib, bodies);
    }
    // preferences
    config_growth::lemma_asking(id, d4, "_authoringPrefs"@);
    lemma_value_step("_lexiconLibrary"@, p.terms, id, d5, "_authoringPrefs"@);
    config_growth::lemma_expand_definition(id, d6, w, "_authoringPrefs"@);
    lemma_value_step_same("_authoringPrefs"@, p.preferences, id, r);
    // questions
    config_growth::law_questions_are_added(id, d4);
    lemma_value_step("_lexiconLibrary"@, p.terms, id, d5, "enable_human_ask"@);
    assert(config_growth::asks(d6)) by {
        assert(d6.get("states"@) == d5.get("states"@));
        assert(d6.get("enable_human_ask"@) == d5.get("enable_human_ask"@));
        assert(d6.entries_at("states"@) == d5.entries_at("states"@));
    }
    config_growth::law_asking_twice(id, r);
    // terms
    config_growth::lemma_expand_definition(id, d6, w, "_lexiconLibrary"@);
    lemma_value_step_same("_lexiconLibrary"@, p.terms, id, r);
    // what is there where nothing is written
    lemma_skills_step(p.skills, id, d1, "_scriptsLibrary"@);
    lemma_skills_step(p.skills, id, d1, "_authoringPrefs"@);
    lemma_scripts_step(p.scripts, id, d2, "_authoringPrefs"@);
    lemma_skills_step(p.skills, id, d1, "_lexiconLibrary"@);
    lemma_scripts_step(p.scripts, id, d2, "_lexiconLibrary"@);
    lemma_value_step("_authoringPrefs"@, p.preferences, id, d3, "_lexiconLibrary"@);
    config_growth::lemma_asking(id, d4, "_lexiconLibrary"@);
    assert(part_of(p.skills, names) is None ==> d2 == d1);
    assert(part_of(p.scripts, bodies) is None ==> d3 == d2);
}

// ---------------------------------------------------------------------------
// What the steps keep of a configuration
// ---------------------------------------------------------------------------

/// Mapping entries by what makes no difference to a check gives the same fault.
proof fn lemma_first_fault_mapped(
    e: Seq<(Seq<char>, Json)>,
    g: spec_fn(Seq<char>, Json) -> Json,
    f: spec_fn(Seq<char>, Json) -> Option<Seq<char>>,
    i: int,
)
    requires
        0 <= i,
        forall|j: int|
            0 <= j < e.len() ==> f((#[trigger] e[j]).0, g(e[j].0, e[j].1)) == f(e[j].0, e[j].1),
    ensures
        config_check::first_fault(config_stamp::mapped(e, g), i, f) == config_check::first_fault(
            e,
            i,
            f,
        ),
    decreases e.len() - i,
{
    if i < e.len() {
        assert(f(e[i].0, g(e[i].0, e[i].1)) == f(e[i].0, e[i].1));
        lemma_first_fault_mapped(e, g, f, i + 1);
    }
}

/// The step keeps a definition well-formed, keeps the names that its states delegate
/// to, and keeps it ready for questions.
pub open spec fn gentle_on(id: Seq<char>, d: Json, r: Json) -> bool {
    &&& r.wf()
    &&& config_check::workflow_delegate_fault()(id, r) == config_check::workflow_delegate_fault()(
        id,
        d,
    )
    &&& config_stamp::definition_ready(d) ==> config_stamp::definition_ready(r)
}

/// The step is gentle on every well-formed definition.
pub open spec fn gentle(f: spec_fn(Seq<char>, Json) -> Json) -> bool {
    forall|id: Seq<char>, d: Json| d.wf() ==> gentle_on(id, d, #[trigger] f(id, d))
}

proof fn lemma_alike_is_gentle(id: Seq<char>, d: Json, r: Json)
    requires
        r.wf(),
        r.get("states"@) == d.get("states"@),
        r.get("enable_human_ask"@) == d.get("enable_human_ask"@),
    ensures
        gentle_on(id, d, r),
{
    assert(r.entries_at("states"@) == d.entries_at("states"@));
}

proof fn lemma_skills_step_gentle(o: Option<Json>)
    requires
        opt_wf(o),
    ensures
        gentle(skills_step(o)),
{
    lemma_stamp_keys();
    let f = skills_step(o);
    assert forall|id: Seq<char>, d: Json| d.wf() implies gentle_on(id, d, #[trigger] f(id, d)) by {
        lemma_skills_step(o, id, d, "states"@);
        lemma_skills_step(o, id, d, "enable_human_ask"@);
        lemma_alike_is_gentle(id, d, f(id, d));
    }
}

proof fn lemma_scripts_step_gentle(o: Option<Json>)
    requires
        opt_wf(o),
    ensures
        gentle(scripts_step(o)),
{
    lemma_stamp_keys();
    let f = scripts_step(o);
    assert forall|id: Seq<char>, d: Json| d.wf() implies gentle_on(id, d, #[trigger] f(id, d)) by {
        lemma_scripts_step(o, id, d, "states"@);
        lemma_scripts_step(o, id, d, "enable_human_ask"@);
        lemma_alike_is_gentle(id, d, f(id, d));
    }
}

proof fn lemma_value_step_gentle(key: Seq<char>, o: Option<Json>)
    requires
        opt_wf(o),
        key != "states"@,
        key != "enable_human_ask"@,
    ensures
        gentle(value_step(key, o)),
{
    let f = value_step(key, o);
    assert forall|id: Seq<char>, d: Json| d.wf() implies gentle_on(id, d, #[trigger] f(id, d)) by {
        lemma_value_step(key, o, id, d, "states"@);
        lemma_value_step(key, o, id, d, "enable_human_ask"@);
        lemma_alike_is_gentle(id, d, f(id, d));
    }
}

/// Mapping the states of a definition by what keeps each well-formed, keeps the name
/// that it delegates to, and keeps it ready for a question, is gentle.
proof fn lemma_states_gentle(id: Seq<char>, d: Json, g: spec_fn(Seq<char>, Json) -> Json)
    requires
        d.wf(),
        config_growth::keeps_wf(g),
        forall|k: Seq<char>, s: Json|
            s.wf() ==> (#[trigger] g(k, s)).get("delegate"@) == s.get("delegate"@) && (
            config_stamp::state_ready(s) ==> config_stamp::state_ready(g(k, s))),
    ensures
        gentle_on(id, d, config_stamp::over(d, "states"@, g)),
{
    lemma_stamp_keys();
    let r = config_stamp::over(d, "states"@, g);
    config_growth::lemma_over_wf(d, "states"@, g);
    config_stamp::lemma_over_get(d, "states"@, g, "enable_human_ask"@);
    json::lemma_get_wf(d, "states"@);
    if let Some(e) = d.object_at("states"@) {
        let f = config_check::delegate_fault(id);
        assert forall|j: int| 0 <= j < e.len() implies f((#[trigger] e[j]).0, g(e[j].0, e[j].1))
            == f(e[j].0, e[j].1) by {
            assert(e[j].1.wf());
            assert(g(e[j].0, e[j].1).get("delegate"@) == e[j].1.get("delegate"@));
        }
        lemma_first_fault_mapped(e, g, f, 0);
        if config_stamp::definition_ready(d) && d.bool_at("enable_human_ask"@) == Some(true) {
            assert forall|i: int|
                0 <= i < r.entries_at("states"@).len() implies config_stamp::state_ready(
                (#[trigger] r.entries_at("states"@)[i]).1,
            ) by {
                assert(e[i].1.wf());
                assert(config_stamp::state_ready(d.entries_at("states"@)[i].1));
                assert(config_stamp::state_ready(g(e[i].0, e[i].1)));
            }
        }
    }
}

proof fn lemma_asking_gentle()
    ensures
        gentle(config_stamp::asking()),
{
    let f = config_stamp::asking();
    reveal_strlit("delegate");
    reveal_strlit("transitions");
    reveal_strlit("terminal");
    assert("delegate"@.len() == 8);
    assert("transitions"@.len() == 11);
    assert("terminal"@.len() == 8);
    assert forall|id: Seq<char>, d: Json| d.wf() implies gentle_on(id, d, #[trigger] f(id, d)) by {
        if d.bool_at("enable_human_ask"@) == Some(true) {
            let cap = config_stamp::ask_cap(d);
            let g = config_stamp::asking_state(cap);
            assert forall|k: Seq<char>, s: Json| s.wf() implies (#[trigger] g(k, s)).wf() && g(
                k,
                s,
            ).get("delegate"@) == s.get("delegate"@) && (config_stamp::state_ready(s)
                ==> config_stamp::state_ready(g(k, s))) by {
                config_growth::lemma_asking_state(k, s, cap, "delegate"@);
                config_growth::lemma_asking_state(k, s, cap, "terminal"@);
                if s is Object && s.bool_at("terminal"@) != Some(true) {
                    let ts = match s.get("transitions"@) {
                        Some(t) => t,
                        None => Json::empty(),
                    };
                    let q = config_stamp::question(k, cap);
                    json::law_get_with(s, "transitions"@, ts.with("ask_human"@, q), "transitions"@);
                    if ts is Object {
                        json::law_get_with(ts, "ask_human"@, q, "ask_human"@);
                    }
                }
            }
            lemma_states_gentle(id, d, g);
        }
    }
}

proof fn lemma_expand_gentle(w: Json)
    requires
        w.wf(),
    ensures
        gentle(config_stamp::expand_definition(w)),
{
    let f = config_stamp::expand_definition(w);
    let g = config_stamp::expand_state(w);
    let h = config_stamp::expand_transition(w);
    reveal_strlit("delegate");
    reveal_strlit("transitions");
    reveal_strlit("terminal");
    assert("delegate"@.len() == 8);
    assert("transitions"@.len() == 11);
    assert("terminal"@.len() == 8);
    assert forall|id: Seq<char>, d: Json| d.wf() implies gentle_on(id, d, #[trigger] f(id, d)) by {
        assert forall|k: Seq<char>, s: Json| s.wf() implies (#[trigger] g(k, s)).wf() && g(
            k,
            s,
        ).get("delegate"@) == s.get("delegate"@) && (config_stamp::state_ready(s)
            ==> config_stamp::state_ready(g(k, s))) by {
            config_growth::lemma_expand_state(k, s, w, "delegate"@);
            config_growth::lemma_expand_state(k, s, w, "terminal"@);
            config_stamp::lemma_over_get(s, "transitions"@, h, "transitions"@);
        }
        lemma_states_gentle(id, d, g);
    }
}

/// What a gentle step over the workflows keeps of a configuration.
proof fn lemma_gentle_over(c: Json, f: spec_fn(Seq<char>, Json) -> Json, other: Seq<char>)
    requires
        c.wf(),
        gentle(f),
    ensures
        ({
            let r = config_stamp::over(c, "workflows"@, f);
            &&& r.wf()
            &&& other != "workflows"@ ==> r.get(other) == c.get(other)
            &&& config_check::delegates_fault(r) == config_check::delegates_fault(c)
            &&& config_stamp::questions_ready(c) ==> config_stamp::questions_ready(r)
            &&& r.object_at("workflows"@) == (match c.object_at("workflows"@) {
                Some(e) => Some(config_stamp::mapped(e, f)),
                None => None,
            })
        }),
{
    let r = config_stamp::over(c, "workflows"@, f);
    assert(config_growth::keeps_wf(f)) by {
        assert forall|k: Seq<char>, v: Json| v.wf() implies (#[trigger] f(k, v)).wf() by {
            assert(gentle_on(k, v, f(k, v)));
        }
    }
    config_growth::lemma_over_wf(c, "workflows"@, f);
    config_stamp::lemma_over_get(c, "workflows"@, f, other);
    json::lemma_get_wf(c, "workflows"@);
    if let Some(e) = c.object_at("workflows"@) {
        let h = config_check::workflow_delegate_fault();
        assert forall|j: int| 0 <= j < e.len() implies h((#[trigger] e[j]).0, f(e[j].0, e[j].1))
            == h(e[j].0, e[j].1) by {
            assert(e[j].1.wf());
            assert(gentle_on(e[j].0, e[j].1, f(e[j].0, e[j].1)));
        }
        lemma_first_fault_mapped(e, f, h, 0);
        if config_stamp::questions_ready(c) {
            assert forall|i: int|
                0 <= i < r.entries_at("workflows"@).len() implies config_stamp::definition_ready(
                (#[trigger] r.entries_at("workflows"@)[i]).1,
            ) by {
                assert(e[i].1.wf());
                assert(config_stamp::definition_ready(c.entries_at("workflows"@)[i].1));
                assert(gentle_on(e[i].0, e[i].1, f(e[i].0, e[i].1)));
            }
        }
    }
}

// ---------------------------------------------------------------------------
// Resolving twice
// ---------------------------------------------------------------------------

/// The library of scripts that is written into definitions, where one is.
pub open spec fn scripts_stamp(c: Json, bodies: Json) -> Option<Json> {
    let e = c.entries_at("scripts"@);
    match config_stamp::scripts_library(e, bodies, e.len() as int) {
        Ok(lib) => if e.len() == 0 {
            None
        } else {
            Some(lib)
        },
        Err(_) => None,
    }
}

/// Everything that is written into the definitions of a configuration.
pub open spec fn stamps(c: Json, bodies: Json) -> Stamps {
    Stamps {
        skills: config_stamp::skills_stamp(c),
        scripts: scripts_stamp(c, bodies),
        preferences: config_stamp::preferences_stamp(c),
        terms: c.get("lexicon"@),
    }
}

proof fn lemma_stamps_wf(c: Json, bodies: Json)
    requires
        c.wf(),
    ensures
        stamps_wf(stamps(c, bodies)),
{
    let a = c.entries_at("skills"@);
    config_growth::lemma_skills_library_wf(a, a.len() as int);
    let b = c.entries_at("scripts"@);
    config_growth::lemma_scripts_library_wf(b, bodies, b.len() as int);
    json::lemma_get_wf(c, "lexicon"@);
    json::lemma_get_wf(c, "flowgate"@);
    if let Some(v) = c.get("flowgate"@) {
        reveal(Json::step);
        reveal(Json::get);
        json::lemma_get_wf(v, "authoring"@);
    }
}

/// Two configurations that differ in their workflows alone.
pub open spec fn same_around(a: Json, b: Json) -> bool {
    &&& a.get("proxy"@) == b.get("proxy"@)
    &&& a.get("capabilities"@) == b.get("capabilities"@)
    &&& a.get("skills"@) == b.get("skills"@)
    &&& a.get("scripts"@) == b.get("scripts"@)
    &&& a.get("flowgate"@) == b.get("flowgate"@)
    &&& a.get("lexicon"@) == b.get("lexicon"@)
}

proof fn lemma_over_around(c: Json, f: spec_fn(Seq<char>, Json) -> Json)
    ensures
        same_around(config_stamp::over(c, "workflows"@, f), c),
{
    lemma_exposure_keys();
    config_stamp::lemma_over_get(c, "workflows"@, f, "proxy"@);
    config_stamp::lemma_over_get(c, "workflows"@, f, "capabilities"@);
    config_stamp::lemma_over_get(c, "workflows"@, f, "skills"@);
    config_stamp::lemma_over_get(c, "workflows"@, f, "scripts"@);
    config_stamp::lemma_over_get(c, "workflows"@, f, "flowgate"@);
    config_stamp::lemma_over_get(c, "workflows"@, f, "lexicon"@);
}

/// What each stage writes, in terms of the steps.
proof fn lemma_stages(c: Json, p: Stamps)
    requires
        c.wf(),
    ensures
        config_stamp::skills_stamp(c) == p.skills ==> config_stamp::skills_stamped(c) == config_stamp::over(
            c,
            "workflows"@,
            skills_step(p.skills),
        ),
        forall|bodies: Json|
            scripts_stamp(c, bodies) == p.scripts && (#[trigger] config_stamp::scripts_stamped(
                c,
                bodies,
            )) is Ok ==> config_stamp::scripts_stamped(c, bodies) == Ok::<Json, Seq<char>>(
                config_stamp::over(c, "workflows"@, scripts_step(p.scripts)),
            ),
        config_stamp::preferences_stamp(c) == p.preferences ==> config_stamp::preferences_stamped(c)
            == config_stamp::over(
            c,
            "workflows"@,
            value_step("_authoringPrefs"@, p.preferences),
        ),
        c.get("lexicon"@) == p.terms ==> lexicon::lexicon_stamped(c) == config_stamp::over(
            c,
            "workflows"@,
            value_step("_lexiconLibrary"@, p.terms),
        ),
{
    let f = skills_step(p.skills);
    let g = scripts_step(p.scripts);
    let h = value_step("_authoringPrefs"@, p.preferences);
    let k = value_step("_lexiconLibrary"@, p.terms);
    match p.skills {
        Some(lib) => {
            assert(f =~= config_stamp::with_skills(lib));
        },
        None => {
            config_growth::lemma_over_fixed(c, "workflows"@, f);
        },
    }
    match p.scripts {
        Some(lib) => {
            assert(g =~= config_stamp::with_scripts(lib));
        },
        None => {
            config_growth::lemma_over_fixed(c, "workflows"@, g);
        },
    }
    match p.preferences {
        Some(v) => {
            assert(h =~= config_stamp::with_value("_authoringPrefs"@, v));
        },
        None => {
            config_growth::lemma_over_fixed(c, "workflows"@, h);
        },
    }
    match p.terms {
        Some(v) => {
            assert(k =~= config_stamp::with_value("_lexiconLibrary"@, v));
        },
        None => {
            config_growth::lemma_over_fixed(c, "workflows"@, k);
        },
    }
}

/// The steps of a resolution, from the configuration with its capabilities put in.
pub open spec fn stages(v: Json, p: Stamps) -> Json {
    let c1 = config_stamp::over(v, "workflows"@, config_stamp::versioned());
    let c2 = config_stamp::over(c1, "workflows"@, skills_step(p.skills));
    let c3 = config_stamp::over(c2, "workflows"@, scripts_step(p.scripts));
    let c4 = config_stamp::over(
        c3,
        "workflows"@,
        value_step("_authoringPrefs"@, p.preferences),
    );
    let c5 = config_stamp::over(c4, "workflows"@, config_stamp::asking());
    config_stamp::over(c5, "workflows"@, value_step("_lexiconLibrary"@, p.terms))
}

/// What the steps keep, and what they make of the workflows.
proof fn lemma_stages_keep(v: Json, p: Stamps)
    requires
        v.wf(),
        stamps_wf(p),
    ensures
        ({
            let c1 = config_stamp::over(v, "workflows"@, config_stamp::versioned());
            let c2 = config_stamp::over(c1, "workflows"@, skills_step(p.skills));
            let c6 = stages(v, p);
            &&& c1.wf()
            &&& c2.wf()
            &&& c6.wf()
            &&& same_around(c6, v)
            &&& config_check::delegates_fault(c6) == config_check::delegates_fault(c1)
            &&& config_stamp::questions_ready(c2) ==> config_stamp::questions_ready(c6)
            &&& match v.object_at("workflows"@) {
                Some(e) => c6.object_at("workflows"@) matches Some(m) && m.len() == e.len()
                    && forall|i: int|
                    0 <= i < e.len() ==> #[trigger] m[i] == (e[i].0, grown(e[i].0, e[i].1, p)),
                None => c6.object_at("workflows"@) is None,
            }
        }),
{
    lemma_stamp_keys();
    let f1 = config_stamp::versioned();
    assert(config_growth::keeps_wf(f1)) by {
        assert forall|k: Seq<char>, x: Json| x.wf() implies (#[trigger] f1(k, x)).wf() by {
            lemma_versioned(k, x, ""@);
        }
    }
    config_growth::lemma_over_wf(v, "workflows"@, f1);
    config_stamp::lemma_over_get(v, "workflows"@, f1, "workflows"@);
    lemma_over_around(v, f1);
    let c1 = config_stamp::over(v, "workflows"@, f1);
    let f2 = skills_step(p.skills);
    lemma_skills_step_gentle(p.skills);
    lemma_gentle_over(c1, f2, ""@);
    lemma_over_around(c1, f2);
    let c2 = config_stamp::over(c1, "workflows"@, f2);
    let f3 = scripts_step(p.scripts);
    lemma_scripts_step_gentle(p.scripts);
    lemma_gentle_over(c2, f3, ""@);
    lemma_over_around(c2, f3);
    let c3 = config_stamp::over(c2, "workflows"@, f3);
    let f4 = value_step("_authoringPrefs"@, p.preferences);
    lemma_value_step_gentle("_authoringPrefs"@, p.preferences);
    lemma_gentle_over(c3, f4, ""@);
    lemma_over_around(c3, f4);
    let c4 = config_stamp::over(c3, "workflows"@, f4);
    let f5 = config_stamp::asking();
    lemma_asking_gentle();
    lemma_gentle_over(c4, f5, ""@);
    lemma_over_around(c4, f5);
    let c5 = config_stamp::over(c4, "workflows"@, f5);
    let f6 = value_step("_lexiconLibrary"@, p.terms);
    lemma_value_step_gentle("_lexiconLibrary"@, p.terms);
    lemma_gentle_over(c5, f6, ""@);
    lemma_over_around(c5, f6);
}

/// The outcome of a resolution, in terms of the steps.
proof fn lemma_resolution(config: Json, roots: Seq<Seq<char>>, bodies: Json, v: Json)
    requires
        v.wf(),
        config::flattened(config) == Ok::<Json, Seq<char>>(v),
        config::resolution(config, roots, bodies) is Ok,
    ensures
        ({
            let p = stamps(v, bodies);
            let c1 = config_stamp::over(v, "workflows"@, config_stamp::versioned());
            let c2 = config_stamp::over(c1, "workflows"@, skills_step(p.skills));
            let r = config::resolution(config, roots, bodies)->Ok_0;
            &&& r.0 == config_stamp::uses_expanded(stages(v, p))
            &&& config::checks(c1, roots) == Ok::<Seq<config_check::FindingView>, Seq<char>>(r.1)
            &&& config_stamp::skills_stamped(c1) == c2
            &&& config_stamp::scripts_stamped(c2, bodies) is Ok
            &&& lexicon::lexicon_fault(v) is None
        }),
{
    let p = stamps(v, bodies);
    lemma_stamps_wf(v, bodies);
    lemma_stages_keep(v, p);
    let f1 = config_stamp::versioned();
    let c1 = config_stamp::over(v, "workflows"@, f1);
    lemma_over_around(v, f1);
    lemma_stages(c1, p);
    let f2 = skills_step(p.skills);
    let c2 = config_stamp::over(c1, "workflows"@, f2);
    lemma_over_around(c1, f2);
    lemma_stages(c2, p);
    assert(scripts_stamp(c2, bodies) == p.scripts);
    assert(config_stamp::scripts_stamped(c2, bodies) is Ok);
    let f3 = scripts_step(p.scripts);
    lemma_scripts_step_gentle(p.scripts);
    lemma_gentle_over(c2, f3, ""@);
    lemma_over_around(c2, f3);
    let c3 = config_stamp::over(c2, "workflows"@, f3);
    lemma_stages(c3, p);
    let f4 = value_step("_authoringPrefs"@, p.preferences);
    lemma_stamp_keys();
    lemma_value_step_gentle("_authoringPrefs"@, p.preferences);
    lemma_gentle_over(c3, f4, ""@);
    lemma_over_around(c3, f4);
    let c4 = config_stamp::over(c3, "workflows"@, f4);
    lemma_asking_gentle();
    lemma_gentle_over(c4, config_stamp::asking(), ""@);
    lemma_over_around(c4, config_stamp::asking());
    let c5 = config_stamp::over(c4, "workflows"@, config_stamp::asking());
    lemma_stages(c5, p);
}

/// The stamps of a configuration without references are free of them.
proof fn lemma_stamps_calm(c: Json, bodies: Json)
    requires
        !config_calm::refers(c),
    ensures
        stamps(c, bodies).skills matches Some(lib) ==> config_calm::mild(lib),
        stamps(c, bodies).scripts matches Some(lib) ==> config_calm::mild(lib),
        stamps(c, bodies).preferences matches Some(x) ==> !config_calm::refers(x),
        stamps(c, bodies).terms matches Some(x) ==> !config_calm::refers(x),
{
    let a = c.entries_at("skills"@);
    config_calm::lemma_skills_library(a, a.len() as int);
    let b = c.entries_at("scripts"@);
    config_calm::lemma_scripts_library(b, bodies, b.len() as int);
    config_calm::lemma_unref_get(c, "lexicon"@);
    config_calm::lemma_unref_get(c, "flowgate"@);
    if let Some(v) = c.get("flowgate"@) {
        reveal(Json::step);
        config_calm::lemma_unref_get(v, "authoring"@);
        match v {
            Json::Object(_) => {
                reveal(Json::get);
            },
            Json::Array(s) => {
                if let Some(n) = text::array_index("authoring"@) {
                    if n < s.len() {
                        assert(!config_calm::refers(s[n as int]));
                    }
                }
            },
            _ => {},
        }
    }
}

/// The steps of a resolution bring no reference to a capability and no gateway key into
/// the definitions.
proof fn lemma_outcome_quiet(v: Json, p: Stamps, y: Json)
    requires
        v.wf(),
        stamps_wf(p),
        y == config_stamp::uses_expanded(stages(v, p)),
        !config_calm::refers(v),
        config_check::flag_scope_fault(
            config_stamp::over(v, "workflows"@, config_stamp::versioned()),
        ) is None,
        p.skills matches Some(lib) ==> config_calm::mild(lib),
        p.scripts matches Some(lib) ==> config_calm::mild(lib),
        p.preferences matches Some(x) ==> !config_calm::refers(x),
        p.terms matches Some(x) ==> !config_calm::refers(x),
    ensures
        config_calm::quiet(y),
{
    lemma_exposure_keys();
    lemma_stamp_keys();
    let f1 = config_stamp::versioned();
    let c1 = config_stamp::over(v, "workflows"@, f1);
    lemma_stages_keep(v, p);
    config_stamp::lemma_over_get(v, "workflows"@, f1, "workflows"@);
    assert(config_calm::quiet(c1)) by {
        if let Some(e) = v.object_at("workflows"@) {
            config_calm::lemma_unref_get(v, "workflows"@);
            assert(v.get("workflows"@) == Some(Json::Object(e)));
            assert forall|i: int| 0 <= i < e.len() implies !config_calm::refers(
                f1((#[trigger] e[i]).0, e[i].1),
            ) && f1(e[i].0, e[i].1).get("capability"@) == e[i].1.get("capability"@) by {
                assert(!config_calm::refers(e[i].1));
                config_calm::lemma_versioned_unref(e[i].0, e[i].1);
            }
        }
        config_calm::lemma_unref_over(v, "workflows"@, f1);
        config_calm::lemma_scope(c1);
        if let Some(m) = c1.object_at("workflows"@) {
            assert(c1.entries_at("workflows"@) == m);
            config_calm::lemma_unref_get(c1, "workflows"@);
            json::lemma_get_wf(c1, "workflows"@);
            assert(c1.get("workflows"@) == Some(Json::Object(m)));
            assert forall|i: int| 0 <= i < m.len() implies config_calm::calm(
                (#[trigger] m[i]).1,
                Json::empty(),
                Place::Definition,
            ) by {
                assert(!config_calm::refers(m[i].1));
                assert(m[i].1.wf());
                assert(config_calm::definition_passes(c1, c1.entries_at("workflows"@)[i].1));
                config_calm::lemma_written(c1, m[i].1);
                config_calm::lemma_definition_passes(
                    m[i].1,
                    config_stamp::written(c1, m[i].1),
                );
            }
        }
    }
    let f2 = skills_step(p.skills);
    let f3 = scripts_step(p.scripts);
    let f4 = value_step("_authoringPrefs"@, p.preferences);
    let f5 = config_stamp::asking();
    let f6 = value_step("_lexiconLibrary"@, p.terms);
    let c2 = config_stamp::over(c1, "workflows"@, f2);
    let c3 = config_stamp::over(c2, "workflows"@, f3);
    let c4 = config_stamp::over(c3, "workflows"@, f4);
    let c5 = config_stamp::over(c4, "workflows"@, f5);
    let c6 = config_stamp::over(c5, "workflows"@, f6);
    assert(c6 == stages(v, p));
    lemma_skills_step_gentle(p.skills);
    lemma_gentle_over(c1, f2, ""@);
    lemma_scripts_step_gentle(p.scripts);
    lemma_gentle_over(c2, f3, ""@);
    lemma_value_step_gentle("_authoringPrefs"@, p.preferences);
    lemma_gentle_over(c3, f4, ""@);
    lemma_asking_gentle();
    lemma_gentle_over(c4, f5, ""@);
    lemma_step_quiet(c1, f2, p, 2);
    lemma_step_quiet(c2, f3, p, 3);
    lemma_step_quiet(c3, f4, p, 4);
    lemma_step_quiet(c4, f5, p, 5);
    lemma_step_quiet(c5, f6, p, 6);
    if c6.object_at("workflows"@) is Some {
        let w = c6.get("workflows"@)->0;
        config_calm::lemma_quiet_definitions(c6);
        json::lemma_get_wf(c6, "workflows"@);
        let f7 = config_stamp::expand_definition(w);
        let e = c6.object_at("workflows"@)->0;
        assert forall|i: int| 0 <= i < e.len() implies config_calm::calm_on(
            (#[trigger] e[i]).1,
            f7(e[i].0, e[i].1),
        ) by {
            assert(e[i].1.wf());
            config_calm::lemma_expand_calm(e[i].0, e[i].1, w);
        }
        config_calm::lemma_quiet_over(c6, f7);
    } else if let Some(w) = c6.get("workflows"@) {
        assert(y == c6);
    }
}

/// Each step that writes into definitions keeps a configuration quiet.
proof fn lemma_step_quiet(c: Json, f: spec_fn(Seq<char>, Json) -> Json, p: Stamps, n: int)
    requires
        c.wf(),
        config_calm::quiet(c),
        p.skills matches Some(lib) ==> config_calm::mild(lib),
        p.scripts matches Some(lib) ==> config_calm::mild(lib),
        p.preferences matches Some(x) ==> !config_calm::refers(x),
        p.terms matches Some(x) ==> !config_calm::refers(x),
        n == 2 ==> f == skills_step(p.skills),
        n == 3 ==> f == scripts_step(p.scripts),
        n == 4 ==> f == value_step("_authoringPrefs"@, p.preferences),
        n == 5 ==> f == config_stamp::asking(),
        n == 6 ==> f == value_step("_lexiconLibrary"@, p.terms),
        2 <= n <= 6,
    ensures
        config_calm::quiet(config_stamp::over(c, "workflows"@, f)),
{
    json::lemma_get_wf(c, "workflows"@);
    if let Some(e) = c.object_at("workflows"@) {
        assert forall|i: int| 0 <= i < e.len() implies config_calm::calm_on(
            (#[trigger] e[i]).1,
            f(e[i].0, e[i].1),
        ) by {
            let (id, d) = e[i];
            assert(d.wf());
            if n == 2 {
                if let Some(lib) = p.skills {
                    config_calm::lemma_stamped_calm(
                        d,
                        "_skillsLibrary"@,
                        lib,
                        config_stamp::referenced_skills(d),
                    );
                }
            } else if n == 3 {
                if let Some(lib) = p.scripts {
                    config_calm::lemma_stamped_calm(
                        d,
                        "_scriptsLibrary"@,
                        lib,
                        config_stamp::referenced_scripts(d),
                    );
                }
            } else if n == 4 {
                if let Some(x) = p.preferences {
                    if d is Object {
                        config_calm::lemma_stamp_calm(d, "_authoringPrefs"@, x);
                    }
                }
            } else if n == 5 {
                config_calm::lemma_asking_calm(id, d);
            } else {
                if let Some(x) = p.terms {
                    if d is Object {
                        config_calm::lemma_stamp_calm(d, "_lexiconLibrary"@, x);
                    }
                }
            }
        }
    }
    config_calm::lemma_quiet_over(c, f);
}

/// A script for the library is the same with the body that the library holds of it.
proof fn lemma_fragment_again(subject: Seq<char>, entry: Json, bodies: Json, held: Option<Json>)
    requires
        config_stamp::script_fragment(subject, entry, bodies) is Ok,
        config_stamp::script_fragment(subject, entry, bodies)->Ok_0 matches Some(x) ==> (
        held matches Some(lib) && lib.get(subject) == Some(x)),
    ensures
        config_stamp::script_fragment(subject, entry, config_stamp::held_body(held, subject))
            == config_stamp::script_fragment(subject, entry, bodies),
{
    if let Some(x) = config_stamp::script_fragment(subject, entry, bodies)->Ok_0 {
        match (entry.str_at("verb"@), entry.str_at("lifecycle"@)) {
            (Some(verb), Some(lifecycle)) => match (entry.str_at("hash"@), bodies.str_at(subject)) {
                (Some(declared), Some(body)) => {
                    let source = config_stamp::source_name(entry);
                    config_calm::lemma_fragment_body(verb, lifecycle, body, declared, source);
                    json::law_get_with(Json::empty(), subject, Json::String(body), subject);
                },
                _ => {},
            },
            _ => {},
        }
    }
}

/// What a library of scripts holds of a subject.
proof fn lemma_scripts_library_get(
    e: Seq<(Seq<char>, Json)>,
    bodies: Json,
    n: int,
    subject: Seq<char>,
)
    requires
        json::sorted(e),
        0 <= n <= e.len(),
    ensures
        config_stamp::scripts_library(e, bodies, n) matches Ok(lib) ==> lib is Object && (
        forall|i: int|
            0 <= i < n && (#[trigger] e[i]).0 == subject ==> config_stamp::script_fragment(
                subject,
                e[i].1,
                bodies,
            ) == Ok::<Option<Json>, Seq<char>>(lib.get(subject))) && ((forall|i: int|
            0 <= i < n ==> (#[trigger] e[i]).0 != subject) ==> lib.get(subject) is None),
    decreases n,
{
    if n == 0 {
        reveal(Json::get);
    } else {
        lemma_scripts_library_get(e, bodies, n - 1, subject);
        if let Ok(lib) = config_stamp::scripts_library(e, bodies, n - 1) {
            if let Ok(Some(x)) = config_stamp::script_fragment(e[n - 1].0, e[n - 1].1, bodies) {
                json::law_get_with(lib, e[n - 1].0, x, subject);
            }
            if e[n - 1].0 == subject {
                assert forall|i: int| 0 <= i < n - 1 implies (#[trigger] e[i]).0 != subject by {
                    text::lemma_text_lt_total(subject, subject, 0);
                    assert(text::text_lt(e[i].0, e[n - 1].0));
                }
            }
        }
    }
}

/// The scripts that a definition is given are those that are taken to be written there,
/// where it holds them already, or where it is given none.
proof fn lemma_held_scripts(
    c: Json,
    bodies: Json,
    lib: Json,
    held: Option<Json>,
    names: Seq<Seq<char>>,
    n: int,
)
    requires
        c.wf(),
        config_stamp::scripts_library(
            c.entries_at("scripts"@),
            bodies,
            c.entries_at("scripts"@).len() as int,
        ) == Ok::<Json, Seq<char>>(lib),
        0 <= n <= names.len(),
        forall|i: int|
            0 <= i < names.len() && lib.get(#[trigger] names[i]) is Some ==> (held matches Some(h)
                && h.get(names[i]) == lib.get(names[i])),
    ensures
        config_stamp::held_scripts(c.get("scripts"@), held, names, n) == config_stamp::scoped(
            lib,
            names,
            n,
        ),
    decreases n,
{
    if n > 0 {
        lemma_held_scripts(c, bodies, lib, held, names, n - 1);
        let e = c.entries_at("scripts"@);
        let subject = names[n - 1];
        lemma_entries_at_wf(c, "scripts"@);
        lemma_scripts_library_get(e, bodies, e.len() as int, subject);
        let found = config_stamp::script_at(c.get("scripts"@), subject);
        assert(found == json::find(e, subject)) by {
            reveal(Json::get);
        }
        json::lemma_find_member(e, subject);
        match found {
            Some(entry) => {
                let i = choose|i: int|
                    0 <= i < e.len() && e[i].0 == subject && #[trigger] e[i].1 == entry;
                assert(e[i].0 == subject);
                lemma_fragment_again(subject, entry, bodies, held);
            },
            None => {
                assert forall|i: int| 0 <= i < e.len() implies (#[trigger] e[i]).0 != subject by {
                    json::lemma_find_entry(e, i);
                }
            },
        }
    }
}

/// Scripts are written into a definition exactly where it is given some.
proof fn lemma_written_scripts(c: Json, bodies: Json, d: Json, lib: Option<Json>)
    requires
        c.wf(),
        config_stamp::scripts_stamped(c, bodies) is Ok,
        lib == scripts_stamp(c, bodies),
        part_of(lib, config_stamp::referenced_scripts(d)) matches Some(part) ==> d.get(
            "_scriptsLibrary"@,
        ) == Some(part),
    ensures
        config_stamp::written(c, d).get("_scriptsLibrary"@) == part_of(
            lib,
            config_stamp::referenced_scripts(d),
        ),
{
    let names = config_stamp::referenced_scripts(d);
    let n = names.len() as int;
    let e = c.entries_at("scripts"@);
    let held = d.get("_scriptsLibrary"@);
    config_calm::lemma_written(c, d);
    let all = config_stamp::scripts_library(e, bodies, e.len() as int)->Ok_0;
    let part = config_stamp::scoped(all, names, n);
    assert forall|i: int|
        0 <= i < names.len() && all.get(#[trigger] names[i]) is Some implies (held matches Some(h)
        && h.get(names[i]) == all.get(names[i])) by {
        assert(names.take(n) =~= names);
        lemma_scoped(all, names, n, names[i]);
        assert(names.contains(names[i]));
        assert(part.get(names[i]) is Some);
        assert(part != Json::empty()) by {
            reveal(Json::get);
        }
        if e.len() == 0 {
            reveal(Json::get);
        }
    }
    lemma_held_scripts(c, bodies, all, held, names, n);
    if e.len() == 0 {
        assert(part == Json::empty()) by {
            lemma_scoped_of_nothing(names, n);
        }
    }
}

proof fn lemma_scoped_of_nothing(names: Seq<Seq<char>>, n: int)
    ensures
        config_stamp::scoped(Json::empty(), names, n) == Json::empty(),
    decreases n,
{
    if n > 0 {
        lemma_scoped_of_nothing(names, n - 1);
        reveal(Json::get);
    }
}

/// What a resolved definition holds under the keys of resolution is what resolution
/// writes there, or was there and held no gateway key.
proof fn lemma_stamps_pass(
    c1: Json,
    y: Json,
    bodies: Json,
    p: Stamps,
    id: Seq<char>,
    d1: Json,
    r: Json,
)
    requires
        c1.wf(),
        y.wf(),
        same_around(y, c1),
        p == stamps(c1, bodies),
        config_stamp::scripts_stamped(c1, bodies) is Ok,
        r.wf(),
        kept_apart(d1, r, p),
        skills_step(p.skills)(id, r) == r,
        scripts_step(p.scripts)(id, r) == r,
        value_step("_authoringPrefs"@, p.preferences)(id, r) == r,
        value_step("_lexiconLibrary"@, p.terms)(id, r) == r,
        config_calm::stamps_pass(d1, config_stamp::written(c1, d1)),
    ensures
        config_calm::stamps_pass(r, config_stamp::written(y, r)),
{
    if r is Object {
        lemma_stamp_keys();
        config_calm::lemma_written(c1, d1);
        config_calm::lemma_written(y, r);
        let skills = part_of(p.skills, config_stamp::referenced_skills(r));
        let scripts = part_of(p.scripts, config_stamp::referenced_scripts(r));
        if let Some(part) = skills {
            json::law_get_with(r, "_skillsLibrary"@, part, "_skillsLibrary"@);
        }
        if let Some(part) = scripts {
            json::law_get_with(r, "_scriptsLibrary"@, part, "_scriptsLibrary"@);
        }
        lemma_value_step("_authoringPrefs"@, p.preferences, id, r, ""@);
        lemma_value_step("_lexiconLibrary"@, p.terms, id, r, ""@);
        assert(scripts_stamp(y, bodies) == p.scripts);
        assert(config_stamp::scripts_stamped(y, bodies) is Ok);
        lemma_written_scripts(y, bodies, r, p.scripts);
        if scripts is None {
            lemma_written_scripts(c1, bodies, d1, p.scripts);
        }
        assert forall|k: Seq<char>| config_calm::stamped_key(k) implies (
        (#[trigger] r.get(k)) matches Some(x) ==> config_stamp::written(y, r).get(k) == Some(x)
            || config_calm::unflagged(x, Json::empty(), Place::Elsewhere)) by {
            assert(d1.get(k) matches Some(x) ==> config_stamp::written(c1, d1).get(k) == Some(x)
                || config_calm::unflagged(x, Json::empty(), Place::Elsewhere));
        }
    } else {
        assert forall|k: Seq<char>| (#[trigger] r.get(k)) is None by {
            reveal(Json::get);
        }
    }
}

/// The check for gateway keys finds nothing in the outcome of a resolution.
proof fn lemma_outcome_passes(v: Json, p: Stamps, y: Json, bodies: Json)
    requires
        v.wf(),
        y.wf(),
        stamps_wf(p),
        y == config_stamp::uses_expanded(stages(v, p)),
        same_around(y, v),
        p == stamps(v, bodies),
        config_calm::quiet(y),
        config_stamp::scripts_stamped(v, bodies) is Ok,
        config_check::flag_scope_fault(
            config_stamp::over(v, "workflows"@, config_stamp::versioned()),
        ) is None,
    ensures
        config_check::flag_scope_fault(y) is None,
{
    let f1 = config_stamp::versioned();
    let c1 = config_stamp::over(v, "workflows"@, f1);
    let c6 = stages(v, p);
    lemma_stages_keep(v, p);
    lemma_over_around(v, f1);
    config_stamp::lemma_over_get(v, "workflows"@, f1, "workflows"@);
    config_calm::lemma_scope(c1);
    config_calm::lemma_scope(y);
    json::lemma_get_wf(v, "workflows"@);
    json::lemma_get_wf(c6, "workflows"@);
    json::lemma_get_wf(y, "workflows"@);
    match (v.object_at("workflows"@), c6.object_at("workflows"@)) {
        (Some(e), Some(m)) => {
            let w = c6.get("workflows"@)->Some_0;
            let f7 = config_stamp::expand_definition(w);
            config_stamp::lemma_over_get(c6, "workflows"@, f7, "workflows"@);
            let done = config_stamp::mapped(m, f7);
            assert(y.object_at("workflows"@) == Some(done));
            assert(y.get("workflows"@) == Some(Json::Object(done)));
            assert forall|i: int|
                0 <= i < y.entries_at("workflows"@).len() implies config_calm::definition_passes(
                y,
                (#[trigger] y.entries_at("workflows"@)[i]).1,
            ) by {
                let (id, d) = e[i];
                let r = done[i].1;
                assert(d.wf());
                assert(r.wf());
                assert(m[i] == (id, grown(id, d, p)));
                lemma_definition_settles(id, d, p, w);
                let d1 = f1(id, d);
                lemma_versioned(id, d, ""@);
                assert(config_stamp::mapped(e, f1)[i] == (id, d1));
                assert(config_calm::definition_passes(c1, c1.entries_at("workflows"@)[i].1));
                config_calm::lemma_written(c1, d1);
                config_calm::lemma_definition_passes(d1, config_stamp::written(c1, d1));
                lemma_stamps_pass(c1, y, bodies, p, id, d1, r);
                config_calm::lemma_written(y, r);
                assert(config_calm::calm(
                    y.object_at("workflows"@)->0[i].1,
                    Json::empty(),
                    Place::Definition,
                ));
                config_calm::lemma_definition_passes(r, config_stamp::written(y, r));
            }
        },
        _ => {
            if let Some(w) = c6.get("workflows"@) {
                config_stamp::lemma_over_get(
                    c6,
                    "workflows"@,
                    config_stamp::expand_definition(w),
                    "workflows"@,
                );
            }
            assert(y == c6);
        },
    }
}

/// Resolving a configuration that is the outcome of a resolution gives the same
/// configuration and the same findings: resolving twice is safe.
#[verifier::rlimit(40)]
pub proof fn law_resolving_twice(
    config: Json,
    roots: Seq<Seq<char>>,
    bodies: Json,
    y: Json,
    d: Seq<config_check::FindingView>,
)
    requires
        config.wf(),
        config::resolvable(config, roots),
        config::resolution(config, roots, bodies) == Ok::<
            (Json, Seq<config_check::FindingView>),
            Seq<char>,
        >((y, d)),
    ensures
        config::prepared(y, roots) == Ok::<(Json, Seq<config_check::FindingView>), Seq<char>>(
            (y, d),
        ),
        config_stamp::questions_ready(y),
        config::resolution(y, roots, bodies) == Ok::<
            (Json, Seq<config_check::FindingView>),
            Seq<char>,
        >((y, d)),
{
    let v = config::flattened(config)->Ok_0;
    lemma_flattened(config);
    let p = stamps(v, bodies);
    lemma_stamps_wf(v, bodies);
    lemma_stages_keep(v, p);
    lemma_resolution(config, roots, bodies, v);
    let c1 = config_stamp::over(v, "workflows"@, config_stamp::versioned());
    lemma_over_around(v, config_stamp::versioned());
    let c6 = stages(v, p);
    assert(y == config_stamp::uses_expanded(c6));
    assert(config_stamp::questions_ready(c6));
    let w = match c6.get("workflows"@) {
        Some(w) => w,
        None => Json::Null,
    };
    json::lemma_get_wf(c6, "workflows"@);
    let f7 = config_stamp::expand_definition(w);
    assert(y == config_stamp::over(c6, "workflows"@, f7));
    lemma_expand_gentle(w);
    lemma_gentle_over(c6, f7, ""@);
    lemma_over_around(c6, f7);
    assert(same_around(y, v));
    assert(stamps(y, bodies) == p);
    // nothing refers to a capability, and no gateway key came in
    lemma_stamps_calm(v, bodies);
    lemma_outcome_quiet(v, p, y);
    lemma_over_around(c1, skills_step(p.skills));
    assert(config_stamp::scripts_stamped(v, bodies) is Ok);
    lemma_outcome_passes(v, p, y, bodies);
    // every step leaves the workflows as they are
    lemma_workflows_settle(v, p, y);
    config_growth::lemma_over_fixed(y, "workflows"@, config_stamp::versioned());
    config_growth::lemma_over_fixed(y, "workflows"@, skills_step(p.skills));
    config_growth::lemma_over_fixed(y, "workflows"@, scripts_step(p.scripts));
    config_growth::lemma_over_fixed(
        y,
        "workflows"@,
        value_step("_authoringPrefs"@, p.preferences),
    );
    config_growth::lemma_over_fixed(y, "workflows"@, config_stamp::asking());
    config_growth::lemma_over_fixed(y, "workflows"@, value_step("_lexiconLibrary"@, p.terms));
    lemma_stages(y, p);
    // the checks find the same
    assert(config_check::skills_outcome(y) == config_check::skills_outcome(c1));
    assert(config_check::scripts_outcome(y, roots) == config_check::scripts_outcome(c1, roots));
    assert(config_check::delegates_fault(y) is None);
    assert(config_check::preferences_fault(y) == config_check::preferences_fault(c1));
    assert(exposes_plainly(y));
    lemma_flattened_same(y);
    assert(config::checks(y, roots) == config::checks(c1, roots));
    assert(config_stamp::scripts_stamped(y, bodies) is Ok);
    assert(lexicon::lexicon_fault(y) == lexicon::lexicon_fault(v));
}

/// What a part of a library holds of a subject that it was taken for.
proof fn lemma_scoped(lib: Json, subjects: Seq<Seq<char>>, n: int, subject: Seq<char>)
    requires
        0 <= n <= subjects.len(),
    ensures
        config_stamp::scoped(lib, subjects, n) is Object,
        subjects.take(n).contains(subject) && lib.get(subject) is Some ==> config_stamp::scoped(
            lib,
            subjects,
            n,
        ).get(subject) == lib.get(subject),
    decreases n,
{
    if n > 0 {
        lemma_scoped(lib, subjects, n - 1, subject);
        let last = subjects[n - 1];
        let before = config_stamp::scoped(lib, subjects, n - 1);
        if let Some(x) = lib.get(last) {
            json::law_get_with(before, last, x, subject);
        }
        if subjects.take(n).contains(subject) && subject != last {
            let k = choose|k: int| 0 <= k < n && subjects.take(n)[k] == subject;
            assert(subjects.take(n - 1)[k] == subject);
        }
    }
}

/// A definition that stays as it is when a library is stamped on it holds what it
/// refers to of that library.
proof fn lemma_stamped_holds(
    def: Json,
    key: Seq<char>,
    lib: Json,
    subjects: Seq<Seq<char>>,
    subject: Seq<char>,
)
    requires
        def is Object,
        config_stamp::stamped(def, key, lib, subjects) == def,
        subjects.contains(subject),
        lib.get(subject) is Some,
    ensures
        def.get(key) matches Some(part) && part.get(subject) == lib.get(subject),
{
    let n = subjects.len() as int;
    let part = config_stamp::scoped(lib, subjects, n);
    assert(subjects.take(n) =~= subjects);
    lemma_scoped(lib, subjects, n, subject);
    json::law_get_with(def, key, part, key);
    assert(part != Json::empty()) by {
        reveal(Json::get);
    }
}

/// A resolved configuration needs nothing but itself to be run: it has no capabilities
/// any more, and each of its workflow definitions has a version, holds the skills and
/// scripts that it refers to and the terms of the lexicon, and asks in every state that
/// can be left where questions are enabled.
pub proof fn law_resolved_workflows_carry_what_they_need(
    config: Json,
    roots: Seq<Seq<char>>,
    bodies: Json,
    y: Json,
    d: Seq<config_check::FindingView>,
    i: int,
    subject: Seq<char>,
)
    requires
        config.wf(),
        config::resolvable(config, roots),
        config::resolution(config, roots, bodies) == Ok::<
            (Json, Seq<config_check::FindingView>),
            Seq<char>,
        >((y, d)),
    ensures
        y.get("capabilities"@) is None,
        0 <= i < y.entries_at("workflows"@).len() && y.entries_at("workflows"@)[i].1 is Object ==> {
            let def = y.entries_at("workflows"@)[i].1;
            &&& def.has("version"@)
            &&& y.get("lexicon"@) is Some ==> def.get("_lexiconLibrary"@) == y.get("lexicon"@)
            &&& config_growth::asks(def)
            &&& match config_stamp::skills_stamp(y) {
                Some(lib) => config_stamp::referenced_skills(def).contains(subject) && lib.get(
                    subject,
                ) is Some ==> held(def, "_skillsLibrary"@, subject) == lib.get(subject),
                None => true,
            }
            &&& match scripts_stamp(y, bodies) {
                Some(lib) => config_stamp::referenced_scripts(def).contains(subject) && lib.get(
                    subject,
                ) is Some ==> held(def, "_scriptsLibrary"@, subject) == lib.get(subject),
                None => true,
            }
        },
{
    let v = config::flattened(config)->Ok_0;
    lemma_flattened(config);
    let p = stamps(v, bodies);
    lemma_stamps_wf(v, bodies);
    lemma_stages_keep(v, p);
    lemma_resolution(config, roots, bodies, v);
    let c6 = stages(v, p);
    let w = match c6.get("workflows"@) {
        Some(w) => w,
        None => Json::Null,
    };
    let f7 = config_stamp::expand_definition(w);
    assert(y == config_stamp::over(c6, "workflows"@, f7));
    lemma_over_around(c6, f7);
    assert(same_around(y, v));
    assert(stamps(y, bodies) == p);
    lemma_workflows_settle(v, p, y);
    if 0 <= i < y.entries_at("workflows"@).len() && y.entries_at("workflows"@)[i].1 is Object {
        let e = y.object_at("workflows"@)->0;
        let (id, def) = e[i];
        lemma_versioned(id, def, ""@);
        lemma_value_step("_lexiconLibrary"@, p.terms, id, def, ""@);
        config_growth::law_questions_are_added(id, def);
        if let Some(lib) = p.skills {
            let names = config_stamp::referenced_skills(def);
            if names.contains(subject) && lib.get(subject) is Some {
                lemma_stamped_holds(def, "_skillsLibrary"@, lib, names, subject);
            }
        }
        if let Some(lib) = p.scripts {
            let names = config_stamp::referenced_scripts(def);
            if names.contains(subject) && lib.get(subject) is Some {
                lemma_stamped_holds(def, "_scriptsLibrary"@, lib, names, subject);
            }
        }
    }
}

/// What a definition holds of a subject in one of its libraries.
pub open spec fn held(def: Json, key: Seq<char>, subject: Seq<char>) -> Option<Json> {
    match def.get(key) {
        Some(part) => part.get(subject),
        None => None,
    }
}

/// The workflows of a resolved configuration stay as they are in every step.
proof fn lemma_workflows_settle(v: Json, p: Stamps, y: Json)
    requires
        v.wf(),
        stamps_wf(p),
        y == config_stamp::uses_expanded(stages(v, p)),
    ensures
        y.object_at("workflows"@) matches Some(e) ==> {
            &&& config_growth::fixes(config_stamp::versioned(), e)
            &&& config_growth::fixes(skills_step(p.skills), e)
            &&& config_growth::fixes(scripts_step(p.scripts), e)
            &&& config_growth::fixes(value_step("_authoringPrefs"@, p.preferences), e)
            &&& config_growth::fixes(config_stamp::asking(), e)
            &&& config_growth::fixes(value_step("_lexiconLibrary"@, p.terms), e)
            &&& config_growth::fixes(
                config_stamp::expand_definition(y.get("workflows"@)->Some_0),
                e,
            )
        },
        config_stamp::uses_expanded(y) == y,
{
    lemma_stages_keep(v, p);
    let c6 = stages(v, p);
    json::lemma_get_wf(c6, "workflows"@);
    json::lemma_get_wf(v, "workflows"@);
    match (v.object_at("workflows"@), c6.object_at("workflows"@)) {
        (Some(e), Some(m)) => {
            let w = c6.get("workflows"@)->Some_0;
            assert(w == Json::Object(m));
            let f7 = config_stamp::expand_definition(w);
            lemma_expand_gentle(w);
            lemma_gentle_over(c6, f7, ""@);
            let done = config_stamp::mapped(m, f7);
            assert(y.object_at("workflows"@) == Some(done));
            let u = y.get("workflows"@)->Some_0;
            assert(u == Json::Object(done));
            config_growth::lemma_snippets_stay(m, w);
            let f8 = config_stamp::expand_definition(u);
            assert forall|i: int| 0 <= i < done.len() implies {
                let id = (#[trigger] done[i]).0;
                let r = done[i].1;
                &&& config_stamp::versioned()(id, r) == r
                &&& skills_step(p.skills)(id, r) == r
                &&& scripts_step(p.scripts)(id, r) == r
                &&& value_step("_authoringPrefs"@, p.preferences)(id, r) == r
                &&& config_stamp::asking()(id, r) == r
                &&& value_step("_lexiconLibrary"@, p.terms)(id, r) == r
                &&& f8(id, r) == r
            } by {
                assert(e[i].1.wf());
                assert(m[i] == (e[i].0, grown(e[i].0, e[i].1, p)));
                assert(m[i].1.wf());
                lemma_definition_settles(e[i].0, e[i].1, p, w);
                config_growth::lemma_expand_definition_twice(m[i].0, m[i].1, w, u);
            }
            config_growth::lemma_over_fixed(y, "workflows"@, f8);
        },
        _ => {
            assert(c6.object_at("workflows"@) is None);
            if let Some(w) = c6.get("workflows"@) {
                config_stamp::lemma_over_get(
                    c6,
                    "workflows"@,
                    config_stamp::expand_definition(w),
                    "workflows"@,
                );
            }
            assert(y == c6);
        },
    }
}

} // verus!
