//! Merging configurations: included files, and script paths that are relative to the
//! file that names them.
use crate::json;
use crate::json::{Json, Value};
use crate::reliability;
use crate::text;
use vstd::prelude::*;

verus! {

// ---------------------------------------------------------------------------
// Merging
// ---------------------------------------------------------------------------

/// Two values merged: mappings key by key, lists one after the other; of anything else
/// the second.
pub open spec fn merged(a: Json, b: Json) -> Json
    decreases b, 0int,
{
    match (a, b) {
        (Json::Object(am), Json::Object(bm)) => Json::Object(
            merged_entries(am, bm, bm.len() as int),
        ),
        (Json::Array(x), Json::Array(y)) => Json::Array(x + y),
        _ => b,
    }
}

/// Entries with the first `n` of others merged in.
pub open spec fn merged_entries(
    am: Seq<(Seq<char>, Json)>,
    bm: Seq<(Seq<char>, Json)>,
    n: int,
) -> Seq<(Seq<char>, Json)>
    decreases bm, n,
{
    if n <= 0 || n > bm.len() {
        am
    } else {
        let before = merged_entries(am, bm, n - 1);
        let (k, v) = bm[n - 1];
        json::put(
            before,
            k,
            match json::find(before, k) {
                Some(x) => merged(x, v),
                None => v,
            },
        )
    }
}

fn merge_values(a: &Value, b: &Value) -> (r: Value)
    ensures
        r@ == merged(a@, b@),
    decreases b@,
{
    match (a, b) {
        (Value::Object(am), Value::Object(bm)) => {
            let ghost ae = json::entries(am@);
            let ghost be = json::entries(bm@);
            let mut out = a.dup();
            let mut i: usize = 0;
            while i < bm.len()
                invariant
                    i <= bm.len(),
                    be == json::entries(bm@),
                    b@ == Json::Object(be),
                    out@ == Json::Object(merged_entries(ae, be, i as int)),
                decreases bm.len() - i,
            {
                assert(be[i as int] == (bm@[i as int].0@, bm@[i as int].1@));
                proof {
                    reveal(Json::get);
                    reveal(Json::with);
                    assert(decreases_to!(b@ => b@->Object_0));
                    assert(decreases_to!(be => be[i as int]));
                    assert(decreases_to!(be[i as int] => be[i as int].1));
                }
                let k = bm[i].0.as_str();
                let v = match out.get(k) {
                    Some(x) => merge_values(x, &bm[i].1),
                    None => bm[i].1.dup(),
                };
                out.set(k, v);
                i = i + 1;
            }
            out
        },
        (Value::Array(x), Value::Array(y)) => {
            let mut out = reliability::copy_values(x);
            reliability::append_values(&mut out, y);
            Value::Array(out)
        },
        _ => b.dup(),
    }
}

/// Merges two values: mappings key by key, lists one after the other; of anything else
/// the second.
pub fn deep_merge(a: Value, b: Value) -> (r: Value)
    ensures
        r@ == merged(a@, b@),
{
    merge_values(&a, &b)
}

/// What stands under a key of merged mappings.
pub open spec fn merged_value(a: Option<Json>, b: Option<Json>) -> Option<Json> {
    match (a, b) {
        (Some(x), Some(y)) => Some(merged(x, y)),
        (Some(x), None) => Some(x),
        (None, y) => y,
    }
}

/// Under every key of merged mappings stands what stands under it in either, merged
/// where it stands in both: nothing is lost, and the second goes first.
pub proof fn law_merged_key_by_key(a: Json, b: Json, key: Seq<char>)
    requires
        a is Object,
        b is Object,
        b.wf(),
    ensures
        merged(a, b).get(key) == merged_value(a.get(key), b.get(key)),
{
    reveal(Json::get);
    let am = a->Object_0;
    let bm = b->Object_0;
    lemma_merged_find(am, bm, bm.len() as int, key);
    assert(bm.take(bm.len() as int) =~= bm);
}

/// A key that is not among the first entries is not found there.
proof fn lemma_find_take(e: Seq<(Seq<char>, Json)>, n: int, key: Seq<char>)
    requires
        0 < n <= e.len(),
    ensures
        json::find(e.take(n), key) == (match json::find(e.take(n - 1), key) {
            Some(v) => Some(v),
            None => if e[n - 1].0 == key {
                Some(e[n - 1].1)
            } else {
                None
            },
        }),
    decreases n,
{
    let t = e.take(n);
    let s = e.take(n - 1);
    if n == 1 {
        assert(t.skip(1) =~= Seq::empty());
        assert(s =~= Seq::empty());
    } else {
        lemma_find_take(e.skip(1), n - 1, key);
        assert(t.skip(1) =~= e.skip(1).take(n - 1));
        assert(s.skip(1) =~= e.skip(1).take(n - 2));
    }
}

/// A found key stands at some position.
proof fn lemma_find_none(e: Seq<(Seq<char>, Json)>, n: int, key: Seq<char>)
    requires
        0 <= n <= e.len(),
        forall|i: int| 0 <= i < n ==> (#[trigger] e[i]).0 != key,
    ensures
        json::find(e.take(n), key) is None,
    decreases n,
{
    if n > 0 {
        lemma_find_none(e, n - 1, key);
        lemma_find_take(e, n, key);
    }
}

proof fn lemma_merged_find(
    am: Seq<(Seq<char>, Json)>,
    bm: Seq<(Seq<char>, Json)>,
    n: int,
    key: Seq<char>,
)
    requires
        0 <= n <= bm.len(),
        json::sorted(bm),
    ensures
        json::find(merged_entries(am, bm, n), key) == merged_value(
            json::find(am, key),
            json::find(bm.take(n), key),
        ),
    decreases n,
{
    if n > 0 {
        let before = merged_entries(am, bm, n - 1);
        let (k, v) = bm[n - 1];
        lemma_merged_find(am, bm, n - 1, key);
        lemma_find_take(bm, n, key);
        let w = match json::find(before, k) {
            Some(x) => merged(x, v),
            None => v,
        };
        json::law_find_put(before, k, w, key);
        if key == k {
            assert forall|i: int| 0 <= i < n - 1 implies (#[trigger] bm[i]).0 != k by {
                text::lemma_text_lt_total(bm[i].0, k, 0);
            }
            lemma_find_none(bm, n - 1, k);
        }
    } else {
        assert(bm.take(0) =~= Seq::empty());
    }
}

/// Lists are merged by putting one after the other.
pub proof fn law_lists_concatenate(x: Seq<Json>, y: Seq<Json>)
    ensures
        merged(Json::Array(x), Json::Array(y)) == Json::Array(x + y),
{
}

/// Merging nothing in changes nothing.
pub proof fn law_merge_nothing(a: Json)
    requires
        a is Object,
    ensures
        merged(a, Json::empty()) == a,
{
}

/// Merging into nothing gives what is merged in.
pub proof fn law_merge_into_nothing(b: Json)
    requires
        b is Object,
        b.wf(),
    ensures
        merged(Json::empty(), b) == b,
{
    let bm = b->Object_0;
    lemma_merge_into_nothing(bm, bm.len() as int);
    assert(bm.take(bm.len() as int) =~= bm);
}

proof fn lemma_merge_into_nothing(bm: Seq<(Seq<char>, Json)>, n: int)
    requires
        0 <= n <= bm.len(),
        json::sorted(bm),
    ensures
        merged_entries(Seq::empty(), bm, n) == bm.take(n),
    decreases n,
{
    if n > 0 {
        lemma_merge_into_nothing(bm, n - 1);
        let s = bm.take(n - 1);
        let (k, v) = bm[n - 1];
        assert forall|i: int| 0 <= i < n - 1 implies (#[trigger] bm[i]).0 != k by {
            text::lemma_text_lt_total(bm[i].0, k, 0);
        }
        lemma_find_none(bm, n - 1, k);
        lemma_put_last(s, k, v);
        assert(bm.take(n) =~= s.push((k, v)));
    } else {
        assert(bm.take(0) =~= Seq::empty());
    }
}

/// A key that is greater than all goes to the end.
proof fn lemma_put_last(e: Seq<(Seq<char>, Json)>, k: Seq<char>, v: Json)
    requires
        forall|i: int| 0 <= i < e.len() ==> text::text_lt((#[trigger] e[i]).0, k),
    ensures
        json::put(e, k, v) == e.push((k, v)),
    decreases e.len(),
{
    if e.len() > 0 {
        text::lemma_text_lt_total(e[0].0, k, 0);
        let rest = e.skip(1);
        assert forall|i: int| 0 <= i < rest.len() implies text::text_lt(
            (#[trigger] rest[i]).0,
            k,
        ) by {
            assert(rest[i] == e[i + 1]);
        }
        lemma_put_last(rest, k, v);
        assert(json::put(e, k, v) =~= e.push((k, v)));
    } else {
        assert(json::put(e, k, v) =~= e.push((k, v)));
    }
}

// ---------------------------------------------------------------------------
// Included files
// ---------------------------------------------------------------------------

/// The files that are being read, once another one is begun: none where that file is
/// being read already, which makes a cycle.
pub open spec fn entered(reading: Seq<Seq<char>>, path: Seq<char>) -> Option<Seq<Seq<char>>> {
    if reading.contains(path) {
        None
    } else {
        Some(reading.push(path))
    }
}

/// The files that are being read, once the innermost is read to its end.
pub open spec fn left(reading: Seq<Seq<char>>) -> Seq<Seq<char>> {
    if reading.len() > 0 {
        reading.drop_last()
    } else {
        reading
    }
}

/// Begins to read a file. A file that is being read already makes a cycle.
pub fn enter_config(reading: &mut Vec<String>, path: &str) -> (r: Result<(), String>)
    ensures
        match (r, entered(text::texts(old(reading)@), path@)) {
            (Ok(_), Some(now)) => text::texts(final(reading)@) == now,
            (Err(m), None) => final(reading)@ == old(reading)@ && m@
                == "config include cycle detected at "@ + path@,
            _ => false,
        },
{
    if text::has_text(reading, path) {
        return Err(text::join2("config include cycle detected at ", path));
    }
    let p = path.to_owned();
    proof {
        text::lemma_texts_push(reading@, p);
    }
    reading.push(p);
    Ok(())
}

/// Ends reading the innermost file, which may from then on be read again.
pub fn leave_config(reading: &mut Vec<String>)
    ensures
        text::texts(final(reading)@) == left(text::texts(old(reading)@)),
{
    let _ = reading.pop();
    assert(text::texts(reading@) =~= left(text::texts(old(reading)@)));
}

/// Only a cycle is refused: a file can be begun exactly where it is not being read,
/// and once it is left everything stands as before, so that it can be read again.
pub proof fn law_only_cycles_are_refused(reading: Seq<Seq<char>>, path: Seq<char>)
    ensures
        entered(reading, path) is None <==> reading.contains(path),
        entered(reading, path) matches Some(now) ==> left(now) == reading && entered(
            left(now),
            path,
        ) == Some(now),
{
    if let Some(now) = entered(reading, path) {
        assert(left(now) =~= reading);
    }
}

/// The file that an entry of an include list names.
pub fn include_path(entry: &Value) -> (r: Result<&str, String>)
    ensures
        match r {
            Ok(s) => entry@.as_str() == Some(s@),
            Err(m) => entry@.as_str() is None && m@ == "include entries must be strings"@,
        },
{
    match entry.as_str() {
        Some(s) => Ok(s),
        None => Err("include entries must be strings".to_owned()),
    }
}

/// The first `n` included configurations, merged in order.
pub open spec fn included(parts: Seq<Json>, n: int) -> Json
    decreases n,
{
    if n <= 0 {
        Json::empty()
    } else {
        merged(included(parts, n - 1), parts[n - 1])
    }
}

/// A configuration with those that it includes. What it says itself goes first.
pub open spec fn with_included(parts: Seq<Json>, body: Json) -> Json {
    merged(included(parts, parts.len() as int), body.minus("include"@))
}

/// Merges a configuration with those that it includes.
pub fn merge_includes(parts: &Vec<Value>, body: Value) -> (r: Value)
    ensures
        r@ == with_included(json::views(parts@), body@),
{
    let ghost ps = json::views(parts@);
    let mut out = Value::object();
    let mut i: usize = 0;
    while i < parts.len()
        invariant
            i <= parts.len(),
            ps == json::views(parts@),
            out@ == included(ps, i as int),
        decreases parts.len() - i,
    {
        assert(ps[i as int] == parts@[i as int]@);
        out = merge_values(&out, &parts[i]);
        i = i + 1;
    }
    let mut b = body;
    b.unset("include");
    merge_values(&out, &b)
}

// ---------------------------------------------------------------------------
// Script paths
// ---------------------------------------------------------------------------

/// The relative path in the uri of a script.
pub open spec fn relative_path(entry: Json) -> Option<Seq<char>> {
    match entry.str_at("uri"@) {
        Some(uri) => match text::after_prefix(uri, "file://"@) {
            Some(rest) => if rest.len() > 0 && rest[0] == '/' {
                None
            } else {
                Some(rest)
            },
            None => None,
        },
        None => None,
    }
}

/// The relative path in the uri of a script.
pub fn relative_script_path(entry: &Value) -> (r: Option<String>)
    ensures
        text::opt_text(r) == relative_path(entry@),
{
    match entry.str_at("uri") {
        Some(uri) => match text::strip_prefix(uri, "file://") {
            Some(rest) => {
                if rest.unicode_len() > 0 && rest.get_char(0) == '/' {
                    None
                } else {
                    Some(rest.to_owned())
                }
            },
            None => None,
        },
        None => None,
    }
}

/// A script with the absolute form of its path, which is looked up by subject.
pub open spec fn with_absolute_path(
    absolute: Json,
    subject: Seq<char>,
    entry: Json,
) -> Json {
    match (relative_path(entry), absolute.str_at(subject)) {
        (Some(_), Some(path)) => entry.with("uri"@, Json::String("file://"@ + path)),
        _ => entry,
    }
}

/// The first `n` scripts with absolute paths.
pub open spec fn absolute_scripts(
    absolute: Json,
    e: Seq<(Seq<char>, Json)>,
) -> Seq<(Seq<char>, Json)> {
    Seq::new(e.len(), |i: int| (e[i].0, with_absolute_path(absolute, e[i].0, e[i].1)))
}

/// A configuration whose scripts have absolute paths.
pub open spec fn with_absolute_paths(config: Json, absolute: Json) -> Json {
    match config.object_at("scripts"@) {
        Some(e) => config.with("scripts"@, Json::Object(absolute_scripts(absolute, e))),
        None => config,
    }
}

/// Puts absolute paths in the place of relative ones. `absolute` holds them by subject;
/// an absolute path, and what is no file, stays as it is.
pub fn rewrite_script_uris_to_absolute(config: Value, absolute: &Value) -> (r: Value)
    ensures
        r@ == with_absolute_paths(config@, absolute@),
{
    let mut out: Vec<(String, Value)> = Vec::new();
    match config.object_at("scripts") {
        None => {
            return config;
        },
        Some(scripts) => {
            let ghost e = json::entries(scripts@);
            let ghost all = absolute_scripts(absolute@, e);
            let mut i: usize = 0;
            assert(json::entries(out@) =~= all.take(0));
            while i < scripts.len()
                invariant
                    i <= scripts.len(),
                    e == json::entries(scripts@),
                    all == absolute_scripts(absolute@, e),
                    json::entries(out@) == all.take(i as int),
                decreases scripts.len() - i,
            {
                assert(e[i as int] == (scripts@[i as int].0@, scripts@[i as int].1@));
                let mut d = scripts[i].1.dup();
                if relative_script_path(&scripts[i].1).is_some() {
                    if let Some(path) = absolute.str_at(scripts[i].0.as_str()) {
                        d.set("uri", Value::String(text::join2("file://", path)));
                    }
                }
                let k = scripts[i].0.clone();
                proof {
                    json::lemma_entries_push(out@, (k, d));
                    assert(all.take(i + 1) =~= all.take(i as int).push(all[i as int]));
                }
                out.push((k, d));
                i = i + 1;
            }
            assert(all.take(i as int) =~= all);
        },
    }
    let mut c = config;
    c.set("scripts", Value::Object(out));
    c
}

/// A script whose path is absolute keeps it, so that rewriting twice is rewriting once.
pub proof fn law_absolute_paths_stay(absolute: Json, subject: Seq<char>, entry: Json)
    requires
        absolute.str_at(subject) matches Some(p) ==> p.len() > 0 && p[0] == '/',
    ensures
        with_absolute_path(absolute, subject, with_absolute_path(absolute, subject, entry))
            == with_absolute_path(absolute, subject, entry),
{
    if let (Some(_), Some(path)) = (relative_path(entry), absolute.str_at(subject)) {
        reveal(Json::get);
        assert(entry is Object);
        let uri = "file://"@ + path;
        json::law_get_with(entry, "uri"@, Json::String(uri), "uri"@);
        assert(uri.take("file://"@.len() as int) =~= "file://"@);
        assert(uri.skip("file://"@.len() as int) =~= path);
    }
}

} // verus!
