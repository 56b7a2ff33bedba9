//! What the checks of a configuration are for: laws about which skills, scripts, delegates
//! and preferences are accepted, and which keys may stand where.
use crate::audit;
use crate::config_check;
use crate::config_check::{DiagnosticSeverity, FindingView, Outcome, Place};
use crate::config_hash;
use crate::config_stamp;
use crate::discovery;
use crate::discovery::{Lifecycle, ScriptVerb, Verb};
use crate::json::Json;
use crate::mapping_laws;
use crate::repo_laws;
use crate::text;
use vstd::prelude::*;

verus! {

// ---------------------------------------------------------------------------
// Subjects
// ---------------------------------------------------------------------------

proof fn lemma_kebab_without(s: Seq<char>, c: char)
    requires
        config_check::kebab(s),
        c == '.' || c == '/',
    ensures
        !s.contains(c),
{
    if s.contains(c) {
        let i = choose|i: int| 0 <= i < s.len() && s[i] == c;
        if i > 0 {
            assert(config_check::kebab_char(s[i]));
        }
    }
}

proof fn lemma_no_halves(s: Seq<char>, c: char)
    requires
        !s.contains(c),
    ensures
        text::halves(s, c) is None,
{
    text::lemma_first_pos(s, c);
    let p = text::first_pos(s, c);
    if p < s.len() {
        assert(s[p] == c);
    }
}

proof fn lemma_two_parts(a: Seq<char>, b: Seq<char>)
    requires
        !a.contains('.'),
        !b.contains('.'),
    ensures
        text::split(a + seq!['.'] + b, '.') == seq![a, b],
{
    mapping_laws::lemma_split_more(Seq::empty(), a, '.');
    assert(Seq::<char>::empty() + a =~= a);
    assert(text::split(a, '.') =~= seq![a]);
    mapping_laws::lemma_split_at(a, '.');
    assert(a.push('.') =~= a + seq!['.']);
    mapping_laws::lemma_split_more(a + seq!['.'], b, '.');
    assert(Seq::<char>::empty() + b =~= b);
    assert(text::split(a + seq!['.'] + b, '.') =~= seq![a, b]);
}

/// Two words of lowercase letters, digits and hyphens with a dot between them are a subject,
/// also after a namespace; its root is the first of the two.
pub proof fn law_dotted_words_are_subjects(namespace: Seq<char>, a: Seq<char>, b: Seq<char>)
    requires
        config_check::kebab(namespace),
        config_check::kebab(a),
        config_check::kebab(b),
    ensures
        config_check::subject_form(a + seq!['.'] + b),
        config_check::root_of(a + seq!['.'] + b) == a,
        config_check::subject_form(namespace + seq!['/'] + (a + seq!['.'] + b)),
        config_check::root_of(namespace + seq!['/'] + (a + seq!['.'] + b)) == a,
        !config_check::subject_form(a),
{
    let s = a + seq!['.'] + b;
    lemma_kebab_without(namespace, '/');
    lemma_kebab_without(a, '/');
    lemma_kebab_without(b, '/');
    lemma_kebab_without(a, '.');
    lemma_kebab_without(b, '.');
    lemma_two_parts(a, b);
    assert(!s.contains('/')) by {
        if s.contains('/') {
            let i = choose|i: int| 0 <= i < s.len() && s[i] == '/';
            if i < a.len() {
                assert(a[i] == '/');
            } else if i > a.len() {
                assert(b[i - a.len() - 1] == '/');
            }
        }
    }
    lemma_no_halves(s, '/');
    lemma_no_halves(a, '/');
    repo_laws::lemma_halves(namespace, '/', s);
    mapping_laws::lemma_split_more(Seq::empty(), a, '.');
    assert(Seq::<char>::empty() + a =~= a);
    assert(text::split(a, '.') =~= seq![a]);
}

/// A word begins with a lowercase letter and goes on with lowercase letters, digits and
/// hyphens.
pub proof fn law_words_of_subjects(s: Seq<char>)
    ensures
        config_check::kebab(s) <==> s.len() > 0 && 'a' <= s[0] <= 'z' && forall|i: int|
            0 <= i < s.len() ==> ('a' <= #[trigger] s[i] <= 'z' || '0' <= s[i] <= '9' || s[i]
                == '-'),
{
    if config_check::kebab(s) {
        assert forall|i: int| 0 <= i < s.len() implies ('a' <= #[trigger] s[i] <= 'z' || '0' <= s[i]
            <= '9' || s[i] == '-') by {
            if i > 0 {
                assert(config_check::kebab_char(s[i]));
            }
        }
    }
    if s.len() > 0 && 'a' <= s[0] <= 'z' && (forall|i: int|
        0 <= i < s.len() ==> ('a' <= #[trigger] s[i] <= 'z' || '0' <= s[i] <= '9' || s[i]
            == '-')) {
        assert forall|i: int| 1 <= i < s.len() implies config_check::kebab_char(
            #[trigger] s[i],
        ) by {}
    }
}

/// The form of a key is accepted exactly where it is not blank and a subject.
pub proof fn law_keys_are_subjects(block: Seq<char>, code: Seq<char>, subject: Seq<char>)
    ensures
        config_check::subject_fault(block, code, subject) is None <==> text::trimmed(subject).len()
            > 0 && config_check::subject_form(subject),
{
}

/// An unknown root is a fault where roots are checked strictly, and otherwise one warning at
/// the key; a known root is neither.
pub proof fn law_unknown_roots(
    block: Seq<char>,
    code: Seq<char>,
    subject: Seq<char>,
    roots: Seq<Seq<char>>,
    listed: Seq<char>,
    is_strict: bool,
)
    ensures
        ({
            let r = config_check::root_outcome(block, code, subject, roots, listed, is_strict);
            let known = roots.contains(config_check::root_of(subject));
            &&& r is Ok <==> known || !is_strict
            &&& r matches Ok(f) ==> f.len() == (if known {
                0nat
            } else {
                1nat
            })
            &&& r matches Ok(f) ==> (!known ==> f[0].severity == DiagnosticSeverity::Warn
                && f[0].code == code && f[0].location == Some("/"@ + block + "/"@ + subject))
        }),
{
}

/// Roots are checked strictly unless the configuration says in so many words that they are
/// not.
pub proof fn law_strict_unless_said_otherwise(config: Json)
    ensures
        config.get("flowgate"@) is None ==> config_check::strict(config),
        config.get("flowgate"@) matches Some(g) ==> (g is Object ==> (config_check::strict(config)
            <==> g.get("strict_namespacing"@) != Some(Json::Bool(false)))),
{
    reveal(Json::get);
    reveal(Json::step);
}

/// The length that two texts have in common is that of a common beginning, and no longer
/// beginning is common.
pub proof fn law_common_beginning(a: Seq<char>, b: Seq<char>)
    ensures
        config_check::common_len(a, b) <= a.len(),
        config_check::common_len(a, b) <= b.len(),
        forall|i: int| 0 <= i < config_check::common_len(a, b) ==> #[trigger] a[i] == b[i],
        config_check::common_len(a, b) < a.len() && config_check::common_len(a, b) < b.len()
            ==> a[config_check::common_len(a, b) as int] != b[config_check::common_len(
            a,
            b,
        ) as int],
    decreases a.len(),
{
    if a.len() > 0 && b.len() > 0 && a[0] == b[0] {
        let (p, q) = (a.skip(1), b.skip(1));
        law_common_beginning(p, q);
        let k = config_check::common_len(p, q) as int;
        assert forall|i: int| 0 <= i < k + 1 implies #[trigger] a[i] == b[i] by {
            if i > 0 {
                assert(p[i - 1] == q[i - 1]);
            }
        }
        if k + 1 < a.len() && k + 1 < b.len() {
            assert(p[k] == a[k + 1] && q[k] == b[k + 1]);
        }
    }
}

// ---------------------------------------------------------------------------
// Skills
// ---------------------------------------------------------------------------

/// The verbs of skills, the verbs of scripts and the lifecycles are these.
pub proof fn law_closed_sets(s: Seq<char>)
    ensures
        config_check::is_verb(s) <==> (s == "triage"@ || s == "diagnose"@ || s == "plan"@ || s
            == "implement"@ || s == "review"@ || s == "refactor"@ || s == "explain"@ || s
            == "compose"@),
        config_check::is_script_verb(s) <==> (s == "build"@ || s == "test"@ || s == "deploy"@ || s
            == "format"@ || s == "lint"@ || s == "install"@ || s == "verify"@ || s == "run"@),
        config_check::is_lifecycle(s) <==> (s == "experimental"@ || s == "stable"@ || s
            == "deprecated"@),
{
    assert(Verb::Triage.token() == "triage"@ && Verb::Diagnose.token() == "diagnose"@
        && Verb::Plan.token() == "plan"@ && Verb::Implement.token() == "implement"@
        && Verb::Review.token() == "review"@ && Verb::Refactor.token() == "refactor"@
        && Verb::Explain.token() == "explain"@ && Verb::Compose.token() == "compose"@);
    assert(ScriptVerb::Build.token() == "build"@ && ScriptVerb::Test.token() == "test"@
        && ScriptVerb::Deploy.token() == "deploy"@ && ScriptVerb::Format.token() == "format"@
        && ScriptVerb::Lint.token() == "lint"@ && ScriptVerb::Install.token() == "install"@
        && ScriptVerb::Verify.token() == "verify"@ && ScriptVerb::Run.token() == "run"@);
    assert(Lifecycle::Experimental.token() == "experimental"@ && Lifecycle::Stable.token()
        == "stable"@ && Lifecycle::Deprecated.token() == "deprecated"@);
}

/// The fields of a skill are accepted exactly where it has a verb and a lifecycle of the
/// closed sets and a body, and a stored hash, where there is one, is that of the body.
pub proof fn law_sound_skills(subject: Seq<char>, entry: Json)
    ensures
        config_check::skill_fault(subject, entry) is None <==> {
            &&& entry.str_at("verb"@) matches Some(v) && config_check::is_verb(v)
            &&& entry.str_at("lifecycle"@) matches Some(l) && config_check::is_lifecycle(l)
            &&& entry.str_at("body"@) matches Some(b) && (entry.str_at("hash"@) matches Some(h)
                ==> h == config_hash::skill_hash(b))
        },
{
}

/// Entries that are checked one after another pass together exactly where each passes, and
/// what is found is what is found of each.
pub proof fn lemma_gathered(
    e: Seq<(Seq<char>, Json)>,
    n: int,
    f: spec_fn(Seq<char>, Json) -> Outcome,
)
    requires
        0 <= n <= e.len(),
    ensures
        config_check::gathered(e, n, f) is Ok <==> forall|i: int|
            0 <= i < n ==> f((#[trigger] e[i]).0, e[i].1) is Ok,
        config_check::gathered(e, n, f) matches Ok(all) ==> forall|x: FindingView|
            all.contains(x) <==> exists|i: int|
                0 <= i < n && f((#[trigger] e[i]).0, e[i].1)->Ok_0.contains(x),
    decreases n,
{
    if n > 0 {
        lemma_gathered(e, n - 1, f);
        let before = config_check::gathered(e, n - 1, f);
        let last = f(e[n - 1].0, e[n - 1].1);
        if before is Ok && last is Ok {
            let (p, q) = (before->Ok_0, last->Ok_0);
            assert forall|x: FindingView| (p + q).contains(x) <==> exists|i: int|
                0 <= i < n && f((#[trigger] e[i]).0, e[i].1)->Ok_0.contains(x) by {
                lemma_found_in_sum(p, q, x);
                if q.contains(x) {
                    assert(f(e[n - 1].0, e[n - 1].1)->Ok_0.contains(x));
                }
            }
        }
    }
}

proof fn lemma_found_in_sum(p: Seq<FindingView>, q: Seq<FindingView>, x: FindingView)
    ensures
        (p + q).contains(x) <==> p.contains(x) || q.contains(x),
{
    let s = p + q;
    if p.contains(x) {
        let i = choose|i: int| 0 <= i < p.len() && p[i] == x;
        assert(s[i] == x);
    }
    if q.contains(x) {
        let i = choose|i: int| 0 <= i < q.len() && q[i] == x;
        assert(s[p.len() + i] == x);
    }
    if s.contains(x) {
        let i = choose|i: int| 0 <= i < s.len() && s[i] == x;
        if i < p.len() {
            assert(p[i] == x);
        } else {
            assert(q[i - p.len()] == x);
        }
    }
}

/// The skill stands under a subject with a root that is accepted, and its fields are sound.
pub open spec fn skill_accepted(subject: Seq<char>, entry: Json, is_strict: bool) -> bool {
    &&& text::trimmed(subject).len() > 0
    &&& config_check::subject_form(subject)
    &&& is_strict ==> discovery::blessed_roots().contains(config_check::root_of(subject))
    &&& config_check::skill_fault(subject, entry) is None
}

/// The skills of a configuration pass exactly where each of them does.
pub proof fn law_every_skill_is_checked(config: Json)
    ensures
        ({
            let e = config.entries_at("skills"@);
            config_check::skills_outcome(config) is Ok <==> forall|i: int|
                0 <= i < e.len() ==> skill_accepted(
                    (#[trigger] e[i]).0,
                    e[i].1,
                    config_check::strict(config),
                )
        }),
{
    let e = config.entries_at("skills"@);
    let strict = config_check::strict(config);
    let f = config_check::skill_outcome(strict);
    lemma_gathered(e, e.len() as int, f);
    assert forall|i: int| 0 <= i < e.len() implies (f((#[trigger] e[i]).0, e[i].1) is Ok)
        == skill_accepted(e[i].0, e[i].1, strict) by {}
}

// ---------------------------------------------------------------------------
// Scripts
// ---------------------------------------------------------------------------

/// A hash is accepted exactly where it is `sha256:` and 64 lowercase hexadecimal digits.
pub proof fn law_sound_hashes(s: Seq<char>, subject: Seq<char>)
    ensures
        config_hash::hash_fault(s, subject) is None <==> "sha256:"@.is_prefix_of(s) && s.len() == 71
            && forall|i: int|
            7 <= i < s.len() ==> ('0' <= #[trigger] s[i] <= '9' || 'a' <= s[i] <= 'f'),
{
    reveal_strlit("sha256:");
    let p = "sha256:"@;
    assert(p.len() == 7);
    if p.is_prefix_of(s) {
        let hex = s.skip(7);
        if audit::is_hex(hex, 64) {
            assert forall|i: int| 7 <= i < s.len() implies ('0' <= #[trigger] s[i] <= '9' || 'a'
                <= s[i] <= 'f') by {
                assert(hex[i - 7] == s[i]);
            }
        }
        if s.len() == 71 && (forall|i: int|
            7 <= i < s.len() ==> ('0' <= #[trigger] s[i] <= '9' || 'a' <= s[i] <= 'f')) {
            assert forall|i: int| 0 <= i < hex.len() implies audit::is_hex_digit(
                #[trigger] hex[i],
            ) by {
                assert(hex[i] == s[i + 7]);
            }
        }
    }
}

/// The body of a script comes from the configuration or from a uri, not from both. A hash of
/// a body that stands there fits it; one that is fetched has a well-formed hash, a scheme that
/// it can be fetched by, and a revision and a path where it comes from a repository.
pub proof fn law_sound_sources(subject: Seq<char>, entry: Json)
    ensures
        config_check::source_fault(subject, entry) is None <==> {
            ||| entry.str_at("uri"@) is None && (entry.str_at("body"@) matches Some(b) && (
            entry.str_at("hash"@) matches Some(h) ==> config_hash::hash_fault(h, subject) is None
                && h == config_hash::script_hash(b)))
            ||| entry.str_at("body"@) is None && (entry.str_at("hash"@) matches Some(h)
                && config_hash::hash_fault(h, subject) is None) && (entry.str_at("uri"@) matches Some(
                u,
            ) && ("file://"@.is_prefix_of(u) || "https://"@.is_prefix_of(u) || (
            "git+https://"@.is_prefix_of(u) && (text::halves(u, '#') matches Some(p)
                && p.0.contains('@')))))
        },
{
    reveal_strlit("file://");
    reveal_strlit("https://");
    reveal_strlit("git+https://");
    let (f, h, g) = ("file://"@, "https://"@, "git+https://"@);
    assert(f.len() == 7 && f[0] == 'f' && h.len() == 8 && h[0] == 'h' && g.len() == 12 && g[0]
        == 'g');
    if let Some(u) = entry.str_at("uri"@) {
        assert(g.is_prefix_of(u) ==> u[0] == 'g' && !f.is_prefix_of(u) && !h.is_prefix_of(u)) by {
            if g.is_prefix_of(u) {
                assert(u.take(12)[0] == u[0]);
            }
            if f.is_prefix_of(u) {
                assert(u.take(7)[0] == u[0]);
            }
            if h.is_prefix_of(u) {
                assert(u.take(8)[0] == u[0]);
            }
        }
    }
}

/// The fields of a script are accepted exactly where it has a verb and a lifecycle of the
/// closed sets, and its body comes from somewhere.
pub proof fn law_sound_scripts(subject: Seq<char>, entry: Json)
    ensures
        config_check::script_fault(subject, entry) is None <==> {
            &&& entry.str_at("verb"@) matches Some(v) && config_check::is_script_verb(v)
            &&& entry.str_at("lifecycle"@) matches Some(l) && config_check::is_lifecycle(l)
            &&& config_check::source_fault(subject, entry) is None
        },
{
}

/// The script stands under a subject with a root that is accepted, and its fields are sound.
pub open spec fn script_accepted(
    subject: Seq<char>,
    entry: Json,
    roots: Seq<Seq<char>>,
    is_strict: bool,
) -> bool {
    &&& text::trimmed(subject).len() > 0
    &&& config_check::subject_form(subject)
    &&& is_strict ==> roots.contains(config_check::root_of(subject))
    &&& config_check::script_fault(subject, entry) is None
}

/// The scripts of a configuration pass exactly where each of them does.
pub proof fn law_every_script_is_checked(config: Json, roots: Seq<Seq<char>>)
    ensures
        ({
            let e = config.entries_at("scripts"@);
            config_check::scripts_outcome(config, roots) is Ok <==> forall|i: int|
                0 <= i < e.len() ==> script_accepted(
                    (#[trigger] e[i]).0,
                    e[i].1,
                    roots,
                    config_check::strict(config),
                )
        }),
{
    let e = config.entries_at("scripts"@);
    let strict = config_check::strict(config);
    let f = config_check::script_outcome(strict, roots);
    lemma_gathered(e, e.len() as int, f);
    assert forall|i: int| 0 <= i < e.len() implies (f((#[trigger] e[i]).0, e[i].1) is Ok)
        == script_accepted(e[i].0, e[i].1, roots, strict) by {}
}

// ---------------------------------------------------------------------------
// Placement
// ---------------------------------------------------------------------------

proof fn lemma_flag_entries(
    e: Seq<(Seq<char>, Json)>,
    path: Seq<char>,
    i: int,
    place: Place,
    spared: Json,
)
    requires
        0 <= i <= e.len(),
    ensures
        config_check::flag_in_entries(e, path, i, place, spared) is None <==> forall|k: int|
            i <= k < e.len() ==> unflagged(e, path, #[trigger] e[k], place, spared),
    decreases e.len() - i,
{
    if i < e.len() {
        lemma_flag_entries(e, path, i + 1, place, spared);
    }
}

proof fn lemma_flag_items(s: Seq<Json>, path: Seq<char>, i: int)
    requires
        0 <= i <= s.len(),
    ensures
        config_check::flag_in_items(s, path, i) is None <==> forall|k: int|
            i <= k < s.len() ==> config_check::flag_fault(
                #[trigger] s[k],
                path + "/"@ + text::decimal(k as nat),
                Place::Elsewhere,
                Json::empty(),
            ) is None,
    decreases s.len() - i,
{
    if i < s.len() {
        lemma_flag_items(s, path, i + 1);
    }
}

/// The entry is as resolution writes it; or its key does not belong to the gateway, and
/// nothing inside it has such a key.
pub open spec fn unflagged(
    e: Seq<(Seq<char>, Json)>,
    path: Seq<char>,
    x: (Seq<char>, Json),
    place: Place,
    spared: Json,
) -> bool {
    spared.get(x.0) == Some(x.1) || (x.0 != "flowgate"@ && !"flowgate."@.is_prefix_of(x.0)
        && config_check::flag_fault(
        x.1,
        path + "/"@ + x.0,
        place.below(x.0),
        config_check::spared_below(Json::Object(e), place, x.0),
    ) is None)
}

/// Keys of the gateway are looked for in everything that a value holds.
pub proof fn law_gateway_keys_are_looked_for_everywhere(
    v: Json,
    path: Seq<char>,
    place: Place,
    spared: Json,
)
    ensures
        config_check::flag_fault(v, path, place, spared) is None <==> {
            &&& v matches Json::Object(e) ==> forall|k: int|
                0 <= k < e.len() ==> unflagged(e, path, #[trigger] e[k], place, spared)
            &&& v matches Json::Array(s) ==> forall|k: int|
                0 <= k < s.len() ==> config_check::flag_fault(
                    #[trigger] s[k],
                    path + "/"@ + text::decimal(k as nat),
                    Place::Elsewhere,
                    Json::empty(),
                ) is None
        },
{
    match v {
        Json::Object(e) => {
            lemma_flag_entries(e, path, 0, place, spared);
        },
        Json::Array(s) => {
            lemma_flag_items(s, path, 0);
        },
        _ => {},
    }
}

/// Only what stands under a state's transitions is a transition, and nothing is spared inside
/// anything but its output mapping.
pub proof fn law_where_things_stand(
    a: Seq<char>,
    b: Seq<char>,
    c: Seq<char>,
    d: Seq<char>,
    o: Json,
    place: Place,
    key: Seq<char>,
)
    ensures
        Place::Definition.below(a).below(b).below(c).below(d) == Place::Transition <==> a
            == "states"@ && c == "transitions"@,
        place != Place::Transition || a != "output"@ ==> config_check::spared_below(o, place, a)
            == Json::empty(),
        config_check::spared_below(o, Place::Transition, "output"@).get(key) == (if key
            == "flowgate"@ {
            config_stamp::bound_slot(o, key)
        } else {
            None
        }),
{
    crate::json::lemma_reads();
}

/// A delegate is a text, and not an empty one, in every state of every workflow.
pub proof fn law_delegates_are_named(config: Json)
    ensures
        ({
            let w = config.entries_at("workflows"@);
            config_check::delegates_fault(config) is None <==> forall|i: int, j: int|
                0 <= i < w.len() && 0 <= j < (#[trigger] w[i]).1.entries_at("states"@).len()
                    ==> delegated(#[trigger] w[i].1.entries_at("states"@)[j].1)
        }),
{
    let w = config.entries_at("workflows"@);
    let f = config_check::workflow_delegate_fault();
    repo_laws::lemma_first_fault(w, 0, f);
    assert forall|i: int| 0 <= i < w.len() implies (f((#[trigger] w[i]).0, w[i].1) is None) == (
    forall|j: int|
        0 <= j < w[i].1.entries_at("states"@).len() ==> delegated(
            (#[trigger] w[i].1.entries_at("states"@)[j]).1,
        )) by {
        let states = w[i].1.entries_at("states"@);
        let g = config_check::delegate_fault(w[i].0);
        repo_laws::lemma_first_fault(states, 0, g);
        assert forall|j: int| 0 <= j < states.len() implies (g(
            (#[trigger] states[j]).0,
            states[j].1,
        ) is None) == delegated(states[j].1) by {}
    }
}

/// The state has no delegate, or names one.
pub open spec fn delegated(s: Json) -> bool {
    s.get("delegate"@) matches Some(d) ==> (d matches Json::String(t) && t.len() > 0)
}

/// The preferences for authoring are a mapping, and the language that they prefer a text that
/// is not empty.
pub proof fn law_preferences_are_named(config: Json, g: Json)
    requires
        g is Object,
        config.get("flowgate"@) == Some(g),
    ensures
        config_check::preferences_fault(config) is None <==> (g.get("authoring"@) matches Some(a)
            ==> a is Object && (a.get("preferred_script_language"@) matches Some(l) ==> (
        l matches Json::String(t) && t.len() > 0))),
{
    reveal(Json::get);
    reveal(Json::step);
}

} // verus!
