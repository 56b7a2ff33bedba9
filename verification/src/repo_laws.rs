//! What repositories and script sources are for: laws about what is declared, what goes
//! before what, and where scripts come from.
use crate::config_check;
use crate::config_fetch;
use crate::config_fetch::{Exit, SourceView};
use crate::config_merge;
use crate::config_repos;
use crate::config_repos::RepoView;
use crate::json;
use crate::json::Json;
use crate::repo;
use crate::repo::{FieldView, ManifestView};
use crate::text;
use crate::validate;
use crate::validate_steps;
use vstd::prelude::*;

verus! {

// ---------------------------------------------------------------------------
// Declarations
// ---------------------------------------------------------------------------

proof fn lemma_repo_paths(items: Seq<Json>, n: int)
    requires
        0 <= n <= items.len(),
    ensures
        config_repos::repo_paths(items, n) is Ok <==> forall|i: int|
            0 <= i < n ==> (#[trigger] items[i]).str_at("path"@) is Some,
        config_repos::repo_paths(items, n) matches Ok(s) ==> s.len() == n && forall|i: int|
            0 <= i < n ==> items[i].str_at("path"@) == Some(#[trigger] s[i]),
    decreases n,
{
    if n > 0 {
        lemma_repo_paths(items, n - 1);
    }
}

proof fn lemma_override_ids(items: Seq<Json>, n: int)
    requires
        0 <= n <= items.len(),
    ensures
        config_repos::override_ids(items, n) is Ok <==> forall|i: int|
            0 <= i < n ==> ((#[trigger] items[i]) matches Json::String(s) && s.len() > 0),
        config_repos::override_ids(items, n) matches Ok(s) ==> s.len() == n && forall|i: int|
            0 <= i < n ==> items[i] == Json::String(#[trigger] s[i]),
    decreases n,
{
    if n > 0 {
        lemma_override_ids(items, n - 1);
    }
}

/// The repositories and overrides of a configuration are those that it lists, in order; a list
/// that is no list, or an entry that is none, is refused. What is left is the configuration
/// without the two lists.
pub proof fn law_declared_repositories(host: Json, repos: Seq<Json>, overrides: Seq<Json>)
    requires
        host.get("repos"@) == Some(Json::Array(repos)),
        host.get("overrides"@) == Some(Json::Array(overrides)),
    ensures
        config_repos::declared(host) is Ok <==> {
            &&& forall|i: int|
                0 <= i < repos.len() ==> (#[trigger] repos[i]).str_at("path"@) is Some
            &&& forall|i: int|
                0 <= i < overrides.len() ==> ((#[trigger] overrides[i]) matches Json::String(s)
                    && s.len() > 0)
        },
        config_repos::declared(host) matches Ok(d) ==> {
            &&& d.repos.len() == repos.len()
            &&& forall|i: int|
                0 <= i < repos.len() ==> repos[i].str_at("path"@) == Some(#[trigger] d.repos[i])
            &&& d.overrides.len() == overrides.len()
            &&& forall|i: int|
                0 <= i < overrides.len() ==> overrides[i] == Json::String(#[trigger] d.overrides[i])
            &&& d.host == host.minus("repos"@).minus("overrides"@)
        },
{
    lemma_repo_paths(repos, repos.len() as int);
    lemma_override_ids(overrides, overrides.len() as int);
}

/// Without the lists there are no repositories and no overrides; something else in their
/// place is refused.
pub proof fn law_undeclared_repositories(host: Json)
    ensures
        host.get("repos"@) is None && host.get("overrides"@) is None ==> (config_repos::declared(
            host,
        ) matches Ok(d) && d.repos.len() == 0 && d.overrides.len() == 0),
        host.get("repos"@) matches Some(v) ==> (!(v is Array) ==> config_repos::declared(host)
            is Err),
        host.get("overrides"@) matches Some(v) ==> (!(v is Array) ==> config_repos::declared(host)
            is Err),
{
}

// ---------------------------------------------------------------------------
// Merging
// ---------------------------------------------------------------------------

proof fn lemma_last_with(repos: Seq<RepoView>, namespace: Seq<char>, n: int)
    requires
        0 <= n <= repos.len(),
    ensures
        config_repos::last_with(repos, namespace, n) is Some <==> exists|i: int|
            0 <= i < n && (#[trigger] repos[i]).namespace == namespace,
    decreases n,
{
    if n > 0 {
        lemma_last_with(repos, namespace, n - 1);
        if repos[n - 1].namespace == namespace {
            assert(repos[n - 1].namespace == namespace);
        }
    }
}

proof fn lemma_namespaces(repos: Seq<RepoView>, n: int)
    requires
        0 <= n <= repos.len(),
    ensures
        config_repos::namespace_fault(repos, n) is None <==> forall|i: int, j: int|
            0 <= i < j < n ==> (#[trigger] repos[i]).namespace != (#[trigger] repos[j]).namespace,
    decreases n,
{
    if n > 0 {
        lemma_namespaces(repos, n - 1);
        lemma_last_with(repos, repos[n - 1].namespace, n - 1);
    }
}

proof fn lemma_anonymous(
    ids: Seq<Seq<char>>,
    provided: Seq<Seq<char>>,
    overrides: Seq<Seq<char>>,
    i: int,
)
    requires
        0 <= i <= ids.len(),
    ensures
        config_repos::anonymous_override(ids, provided, overrides, i) is None <==> forall|k: int|
            i <= k < ids.len() && provided.contains(#[trigger] ids[k]) ==> overrides.contains(
                ids[k],
            ),
    decreases ids.len() - i,
{
    if i < ids.len() && !(provided.contains(ids[i]) && !overrides.contains(ids[i])) {
        lemma_anonymous(ids, provided, overrides, i + 1);
    }
}

proof fn lemma_stale(overrides: Seq<Seq<char>>, provided: Seq<Seq<char>>, i: int)
    requires
        0 <= i <= overrides.len(),
    ensures
        config_repos::stale_override(overrides, provided, i) is None <==> forall|k: int|
            i <= k < overrides.len() ==> provided.contains(#[trigger] overrides[k]),
    decreases overrides.len() - i,
{
    if i < overrides.len() && provided.contains(overrides[i]) {
        lemma_stale(overrides, provided, i + 1);
    }
}

/// A configuration is put on top of its repositories exactly where their namespaces differ,
/// what it shares with them is declared as an override, every override is of something that
/// they have, and every reference between workflows leads to one. What it says itself goes
/// first.
pub proof fn law_host_goes_on_top(
    host: Json,
    overrides: Seq<Seq<char>>,
    repos: Seq<RepoView>,
)
    requires
        repos.len() > 0,
    ensures
        ({
            let n = repos.len() as int;
            let all = config_repos::aggregate(repos, n);
            let provided = config_repos::provided_ids(repos, n);
            let ids = config_repos::definition_ids(host);
            let whole = config_merge::merged(all, host);
            &&& config_repos::with_repos(host, overrides, repos) is Ok <==> {
                &&& forall|i: int, j: int|
                    0 <= i < j < n ==> (#[trigger] repos[i]).namespace
                        != (#[trigger] repos[j]).namespace
                &&& forall|k: int|
                    0 <= k < ids.len() && provided.contains(#[trigger] ids[k])
                        ==> overrides.contains(ids[k])
                &&& forall|k: int|
                    0 <= k < overrides.len() ==> provided.contains(#[trigger] overrides[k])
                &&& config_repos::refs_fault(whole) is None
            }
            &&& config_repos::with_repos(host, overrides, repos) matches Ok(c) ==> c == whole
        }),
{
    reveal(config_repos::on_top);
    let n = repos.len() as int;
    lemma_namespaces(repos, n);
    lemma_anonymous(
        config_repos::definition_ids(host),
        config_repos::provided_ids(repos, n),
        overrides,
        0,
    );
    lemma_stale(overrides, config_repos::provided_ids(repos, n), 0);
}

/// Without repositories a configuration stays as it is.
pub proof fn law_no_repositories(host: Json, overrides: Seq<Seq<char>>)
    ensures
        config_repos::with_repos(host, overrides, Seq::empty()) == Ok::<Json, Seq<char>>(host),
{
}

proof fn lemma_contains_sum(a: Seq<Seq<char>>, b: Seq<Seq<char>>, x: Seq<char>)
    ensures
        (a + b).contains(x) <==> a.contains(x) || b.contains(x),
{
    validate_steps::lemma_key_sum(a, b, x);
}

/// The ids of a configuration are those of its workflows, skills, scripts and connections, and
/// the ids that repositories provide are those of each of them.
pub proof fn law_ids_of_definitions(v: Json, id: Seq<char>)
    ensures
        config_repos::definition_ids(v).contains(id) <==> validate_steps::keyed(
            v.entries_at("workflows"@),
            id,
        ) || validate_steps::keyed(v.entries_at("skills"@), id) || validate_steps::keyed(
            v.entries_at("scripts"@),
            id,
        ) || validate_steps::keyed(v.entries_at("connections"@), id),
{
    let (a, b, c, d) = (
        validate::keys(v.entries_at("workflows"@)),
        validate::keys(v.entries_at("skills"@)),
        validate::keys(v.entries_at("scripts"@)),
        validate::keys(v.entries_at("connections"@)),
    );
    lemma_contains_sum(a, b, id);
    lemma_contains_sum(a + b, c, id);
    lemma_contains_sum(a + b + c, d, id);
    validate_steps::lemma_keyed(v.entries_at("workflows"@), id);
    validate_steps::lemma_keyed(v.entries_at("skills"@), id);
    validate_steps::lemma_keyed(v.entries_at("scripts"@), id);
    validate_steps::lemma_keyed(v.entries_at("connections"@), id);
}

/// What repositories provide is what any of them defines.
pub proof fn law_provided_ids(repos: Seq<RepoView>, n: int, id: Seq<char>)
    requires
        0 <= n <= repos.len(),
    ensures
        config_repos::provided_ids(repos, n).contains(id) <==> exists|i: int|
            0 <= i < n && config_repos::definition_ids((#[trigger] repos[i]).value).contains(id),
    decreases n,
{
    if n > 0 {
        law_provided_ids(repos, n - 1, id);
        lemma_contains_sum(
            config_repos::provided_ids(repos, n - 1),
            config_repos::definition_ids(repos[n - 1].value),
            id,
        );
        if config_repos::definition_ids(repos[n - 1].value).contains(id) {
            assert(config_repos::definition_ids(repos[n - 1].value).contains(id));
        }
    }
}

proof fn lemma_unknown_entries(e: Seq<(Seq<char>, Json)>, known: Seq<Seq<char>>, i: int)
    requires
        0 <= i <= e.len(),
    ensures
        config_repos::unknown_in_entries(e, known, i) is None <==> forall|k: int|
            i <= k < e.len() ==> config_repos::unknown_ref((#[trigger] e[k]).1, known) is None,
    decreases e.len() - i,
{
    if i < e.len() && config_repos::unknown_ref(e[i].1, known) is None {
        lemma_unknown_entries(e, known, i + 1);
    }
}

proof fn lemma_unknown_items(s: Seq<Json>, known: Seq<Seq<char>>, i: int)
    requires
        0 <= i <= s.len(),
    ensures
        config_repos::unknown_in_items(s, known, i) is None <==> forall|k: int|
            i <= k < s.len() ==> config_repos::unknown_ref(#[trigger] s[k], known) is None,
    decreases s.len() - i,
{
    if i < s.len() && config_repos::unknown_ref(s[i], known) is None {
        lemma_unknown_items(s, known, i + 1);
    }
}

/// Nothing inside a value runs an unknown workflow exactly where it does not itself, and
/// nothing inside what it holds does.
pub proof fn law_references_are_looked_for_everywhere(v: Json, known: Seq<Seq<char>>)
    ensures
        config_repos::unknown_ref(v, known) is None <==> {
            &&& v is Object && v.str_at("kind"@) == Some("workflow"@) ==> (v.str_at(
                "definitionId"@,
            ) matches Some(id) ==> known.contains(id))
            &&& v matches Json::Object(e) ==> forall|k: int|
                0 <= k < e.len() ==> config_repos::unknown_ref((#[trigger] e[k]).1, known) is None
            &&& v matches Json::Array(s) ==> forall|k: int|
                0 <= k < s.len() ==> config_repos::unknown_ref(#[trigger] s[k], known) is None
        },
{
    match v {
        Json::Object(e) => {
            lemma_unknown_entries(e, known, 0);
        },
        Json::Array(s) => {
            lemma_unknown_items(s, known, 0);
        },
        _ => {},
    }
}

/// The references of a configuration hold exactly where those of each of its workflows do.
pub proof fn law_every_workflow_refers_to_known_ones(config: Json)
    ensures
        ({
            let e = config.entries_at("workflows"@);
            config_repos::refs_fault(config) is None <==> forall|i: int|
                0 <= i < e.len() ==> config_repos::unknown_ref(
                    (#[trigger] e[i]).1,
                    validate::keys(e),
                ) is None
        }),
{
    let e = config.entries_at("workflows"@);
    lemma_first_fault(e, 0, config_repos::unresolved(validate::keys(e)));
    let f = config_repos::unresolved(validate::keys(e));
    assert forall|i: int| 0 <= i < e.len() implies (f((#[trigger] e[i]).0, e[i].1) is None)
        == (config_repos::unknown_ref(e[i].1, validate::keys(e)) is None) by {}
}

/// A search for faults finds none exactly where no entry has one.
pub proof fn lemma_first_fault(
    e: Seq<(Seq<char>, Json)>,
    i: int,
    f: spec_fn(Seq<char>, Json) -> Option<Seq<char>>,
)
    requires
        0 <= i <= e.len(),
    ensures
        config_check::first_fault(e, i, f) is None <==> forall|k: int|
            i <= k < e.len() ==> f((#[trigger] e[k]).0, e[k].1) is None,
    decreases e.len() - i,
{
    if i < e.len() && f(e[i].0, e[i].1) is None {
        lemma_first_fault(e, i + 1, f);
    }
}

// ---------------------------------------------------------------------------
// Manifests
// ---------------------------------------------------------------------------

proof fn lemma_name_fault(names: Seq<Seq<char>>, layout: bool, i: int)
    requires
        0 <= i <= names.len(),
    ensures
        repo::name_fault(names, layout, i) is None <==> forall|k: int|
            i <= k < names.len() ==> (if layout {
                repo::layout_field(#[trigger] names[k])
            } else {
                repo::manifest_field(names[k])
            }) && !names.take(k).contains(names[k]),
    decreases names.len() - i,
{
    if i < names.len() {
        let ok = (if layout {
            repo::layout_field(names[i])
        } else {
            repo::manifest_field(names[i])
        }) && !names.take(i).contains(names[i]);
        if ok {
            lemma_name_fault(names, layout, i + 1);
        }
    }
}

/// A manifest says what its fields say: the texts that it must have, the description that it
/// may have, and directories that have their own names where they are left out.
pub proof fn law_manifests_say_what_their_fields_say(f: Seq<(Seq<char>, FieldView)>, m: ManifestView)
    requires
        repo::manifest_of(f) == Ok::<ManifestView, Seq<char>>(m),
    ensures
        json::find(f, "schema"@) == Some(FieldView::Text(m.schema)),
        json::find(f, "name"@) == Some(FieldView::Text(m.name)),
        json::find(f, "namespace"@) == Some(FieldView::Text(m.namespace)),
        json::find(f, "version"@) == Some(FieldView::Text(m.version)),
        m.description matches Some(d) ==> json::find(f, "description"@) == Some(FieldView::Text(d)),
        m.description is None ==> json::find(f, "description"@) is None,
        json::find(f, "layout"@) is None ==> m.layout == repo::default_layout(),
        json::find(f, "layout"@) matches Some(FieldView::Mapping(l)) ==> (json::find(l, "skills"@)
            matches Some(s) ==> m.layout.skills == s) && (json::find(l, "skills"@) is None
            ==> m.layout.skills == "skills"@) && (json::find(l, "scripts"@) matches Some(s)
            ==> m.layout.scripts == s) && (json::find(l, "scripts"@) is None ==> m.layout.scripts
            == "scripts"@) && (json::find(l, "capabilities"@) matches Some(s)
            ==> m.layout.capabilities == s) && (json::find(l, "capabilities"@) is None
            ==> m.layout.capabilities == "capabilities"@) && (json::find(l, "orchestrators"@)
            matches Some(s) ==> m.layout.orchestrators == s) && (json::find(l, "orchestrators"@)
            is None ==> m.layout.orchestrators == "orchestrators"@) && (json::find(
            l,
            "connections"@,
        ) matches Some(s) ==> m.layout.connections == s) && (json::find(l, "connections"@) is None
            ==> m.layout.connections == "connections"@),
        forall|k: int|
            0 <= k < f.len() ==> ((#[trigger] f[k]).0 == "schema"@ || f[k].0 == "name"@ || f[k].0
                == "namespace"@ || f[k].0 == "version"@ || f[k].0 == "description"@ || f[k].0
                == "layout"@),
{
    let names = repo::names(f);
    lemma_name_fault(names, false, 0);
    assert forall|k: int| 0 <= k < f.len() implies ((#[trigger] f[k]).0 == "schema"@ || f[k].0
        == "name"@ || f[k].0 == "namespace"@ || f[k].0 == "version"@ || f[k].0 == "description"@
        || f[k].0 == "layout"@) by {
        assert(names[k] == f[k].0);
        assert(repo::manifest_field(names[k]));
    }
}

/// A manifest that was read is taken exactly where it is one and of the known schema.
pub proof fn law_only_the_known_schema_is_loaded(path: Seq<char>, f: Seq<(Seq<char>, FieldView)>)
    ensures
        repo::loaded(path, f) is Ok <==> (repo::manifest_of(f) matches Ok(m) && m.schema
            == repo::REPO_MANIFEST_SCHEMA_V1@),
        repo::loaded(path, f) matches Ok(m) ==> repo::manifest_of(f) == Ok::<
            ManifestView,
            Seq<char>,
        >(m),
{
}

// ---------------------------------------------------------------------------
// Scripts
// ---------------------------------------------------------------------------

proof fn lemma_last_halves(a: Seq<char>, c: char, b: Seq<char>)
    requires
        !b.contains(c),
    ensures
        config_fetch::last_halves(a + seq![c] + b, c) == Some((a, b)),
    decreases b.len(),
{
    let s = a + seq![c] + b;
    if b.len() == 0 {
        assert(s.last() == c);
        assert(s.drop_last() =~= a);
    } else {
        let q = b.drop_last();
        assert(!q.contains(c)) by {
            if q.contains(c) {
                let i = choose|i: int| 0 <= i < q.len() && q[i] == c;
                assert(b[i] == c);
            }
        }
        lemma_last_halves(a, c, q);
        assert(b[b.len() - 1] == b.last());
        assert(s.last() == b.last());
        assert(s.drop_last() =~= a + seq![c] + q);
        assert(q.push(b.last()) =~= b);
    }
}

/// The first occurrence of a character divides a text in two.
pub proof fn lemma_halves(a: Seq<char>, c: char, b: Seq<char>)
    requires
        !a.contains(c),
    ensures
        text::halves(a + seq![c] + b, c) == Some((a, b)),
{
    let s = a + seq![c] + b;
    let p = a.len() as int;
    text::lemma_first_pos(s, c);
    let q = text::first_pos(s, c);
    assert(s[p] == c);
    assert(q == p) by {
        if q < p {
            assert(s[q] == a[q]);
            assert(a.contains(c));
        }
    }
    assert(s.take(p) =~= a);
    assert(s.skip(p + 1) =~= b);
}

/// A script comes from where its uri says: a file from its path, a page from the uri itself,
/// and a file in a repository from the repository, the revision after the last `@` and the
/// path after the first `#`. Any other scheme is refused.
pub proof fn law_scripts_come_from_their_uri(
    uri: Seq<char>,
    subject: Seq<char>,
    path: Seq<char>,
    repository: Seq<char>,
    revision: Seq<char>,
)
    ensures
        uri == "file://"@ + path ==> config_fetch::source(uri, subject) == Ok::<
            SourceView,
            Seq<char>,
        >(SourceView::File(path)),
        uri == "https://"@ + path ==> config_fetch::source(uri, subject) == Ok::<
            SourceView,
            Seq<char>,
        >(SourceView::Https(uri)),
        uri == "git+https://"@ + (repository + seq!['@'] + revision + seq!['#'] + path)
            && !repository.contains('#') && !revision.contains('#') && !revision.contains('@')
            ==> config_fetch::source(uri, subject) == Ok::<SourceView, Seq<char>>(
            SourceView::Git { repository: "https://"@ + repository, revision, path },
        ),
        !"file://"@.is_prefix_of(uri) && !"https://"@.is_prefix_of(uri)
            && !"git+https://"@.is_prefix_of(uri) ==> config_fetch::source(uri, subject) is Err,
{
    reveal_strlit("file://");
    reveal_strlit("https://");
    reveal_strlit("git+https://");
    let (f, h, g) = ("file://"@, "https://"@, "git+https://"@);
    assert(f.len() == 7 && f[0] == 'f' && h.len() == 8 && h[0] == 'h' && g.len() == 12 && g[0]
        == 'g');
    assert(f.is_prefix_of(uri) ==> uri.len() > 0 && uri[0] == 'f') by {
        if f.is_prefix_of(uri) {
            assert(uri.take(7)[0] == 'f');
        }
    }
    assert(h.is_prefix_of(uri) ==> uri.len() > 0 && uri[0] == 'h') by {
        if h.is_prefix_of(uri) {
            assert(uri.take(8)[0] == 'h');
        }
    }
    if uri == f + path {
        assert(uri.take(7) =~= f);
        assert(uri.skip(7) =~= path);
    }
    if uri == h + path {
        assert(uri[0] == 'h');
        assert(uri.take(8) =~= h);
    }
    let rest = repository + seq!['@'] + revision + seq!['#'] + path;
    if uri == g + rest && !repository.contains('#') && !revision.contains('#')
        && !revision.contains('@') {
        assert(uri[0] == 'g');
        assert(uri.take(12) =~= g);
        assert(uri.skip(12) =~= rest);
        let front = repository + seq!['@'] + revision;
        assert(!front.contains('#')) by {
            if front.contains('#') {
                let i = choose|i: int| 0 <= i < front.len() && front[i] == '#';
                if i < repository.len() {
                    assert(repository[i] == '#');
                } else if i > repository.len() {
                    assert(revision[i - repository.len() - 1] == '#');
                }
            }
        }
        lemma_halves(front, '#', path);
        lemma_last_halves(repository, '@', revision);
    }
}

/// A script that was fetched is good exactly where every step succeeded and there is a body;
/// a page where its status says so.
pub proof fn law_fetched_scripts(
    subject: Seq<char>,
    uri: Seq<char>,
    repository: Seq<char>,
    revision: Seq<char>,
    path: Seq<char>,
    archive: Exit,
    extract: Exit,
    body: Seq<char>,
    status: u16,
)
    ensures
        config_fetch::git_fetch_fault(
            subject,
            uri,
            repository,
            revision,
            path,
            archive,
            extract,
            body,
        ) is None <==> archive.success && extract.success && body.len() > 0,
        config_fetch::https_fetch_fault(subject, uri, status) is None <==> 200 <= status <= 299,
{
}

} // verus!
