//! Repositories that a configuration declares, and what it may override of them.
use crate::config_capabilities;
use crate::config_check;
use crate::config_merge;
use crate::json;
use crate::json::{Json, Value};
use crate::text;
use crate::validate;
use vstd::prelude::*;

verus! {

// ---------------------------------------------------------------------------
// What is declared
// ---------------------------------------------------------------------------

/// The path that an entry of the list of repositories names.
pub open spec fn repo_path(index: int, entry: Json) -> Result<Seq<char>, Seq<char>> {
    match entry.str_at("path"@) {
        Some(p) => Ok(p),
        None => Err(
            "INVALID_REPO_ENTRY: `repos["@ + text::decimal(index as nat)
                + "]` must be an object with a `path` field, e.g. `- path: ~/repos/swe-core`"@,
        ),
    }
}

/// The paths that the first `n` entries name.
pub open spec fn repo_paths(items: Seq<Json>, n: int) -> Result<Seq<Seq<char>>, Seq<char>>
    decreases n,
{
    if n <= 0 {
        Ok(Seq::empty())
    } else {
        match repo_paths(items, n - 1) {
            Err(m) => Err(m),
            Ok(done) => match repo_path(n - 1, items[n - 1]) {
                Err(m) => Err(m),
                Ok(p) => Ok(done.push(p)),
            },
        }
    }
}

/// The id that an entry of the list of overrides names.
pub open spec fn override_id(entry: Json) -> Result<Seq<char>, Seq<char>> {
    match entry {
        Json::String(s) => if s.len() > 0 {
            Ok(s)
        } else {
            Err("INVALID_OVERRIDE_ENTRY: `overrides:` entries MUST be non-empty strings"@)
        },
        other => Err(
            "INVALID_OVERRIDE_ENTRY: `overrides:` entries MUST be strings ("@
                + config_check::kind_name(other) + ")"@,
        ),
    }
}

/// The ids that the first `n` entries name.
pub open spec fn override_ids(items: Seq<Json>, n: int) -> Result<Seq<Seq<char>>, Seq<char>>
    decreases n,
{
    if n <= 0 {
        Ok(Seq::empty())
    } else {
        match override_ids(items, n - 1) {
            Err(m) => Err(m),
            Ok(done) => match override_id(items[n - 1]) {
                Err(m) => Err(m),
                Ok(p) => Ok(done.push(p)),
            },
        }
    }
}

/// The repositories that a configuration declares.
pub open spec fn declared_repos(host: Json) -> Result<Seq<Seq<char>>, Seq<char>> {
    match host.get("repos"@) {
        None => Ok(Seq::empty()),
        Some(Json::Array(items)) => repo_paths(items, items.len() as int),
        Some(other) => Err(
            "INVALID_REPOS_SHAPE: top-level `repos:` must be an array of `{ path: <dir> }` objects ("@
                + config_check::kind_name(other) + ")"@,
        ),
    }
}

/// The overrides that a configuration declares.
pub open spec fn declared_overrides(host: Json) -> Result<Seq<Seq<char>>, Seq<char>> {
    match host.get("overrides"@) {
        None => Ok(Seq::empty()),
        Some(Json::Array(items)) => override_ids(items, items.len() as int),
        Some(other) => Err(
            "INVALID_OVERRIDES_SHAPE: top-level `overrides:` must be an array of fully-qualified id strings ("@
                + config_check::kind_name(other) + ")"@,
        ),
    }
}

/// What a configuration declares of repositories, and the rest of it.
#[derive(Debug, PartialEq)]
pub struct Declared {
    pub host: Value,
    pub repos: Vec<String>,
    pub overrides: Vec<String>,
}

/// What a configuration declares of repositories, as mathematical values.
pub struct DeclaredView {
    pub host: Json,
    pub repos: Seq<Seq<char>>,
    pub overrides: Seq<Seq<char>>,
}

impl View for Declared {
    type V = DeclaredView;

    open spec fn view(&self) -> DeclaredView {
        DeclaredView {
            host: self.host@,
            repos: text::texts(self.repos@),
            overrides: text::texts(self.overrides@),
        }
    }
}

/// What a configuration declares of repositories, and the rest of it.
pub open spec fn declared(host: Json) -> Result<DeclaredView, Seq<char>> {
    match declared_repos(host) {
        Err(m) => Err(m),
        Ok(repos) => match declared_overrides(host) {
            Err(m) => Err(m),
            Ok(overrides) => Ok(
                DeclaredView {
                    host: host.minus("repos"@).minus("overrides"@),
                    repos,
                    overrides,
                },
            ),
        },
    }
}

/// The outcome of reading a list of texts.
pub open spec fn list_result(r: Result<Vec<String>, String>) -> Result<Seq<Seq<char>>, Seq<char>> {
    match r {
        Ok(v) => Ok(text::texts(v@)),
        Err(m) => Err(m@),
    }
}

fn parse_repo_entry(index: usize, entry: &Value) -> (r: Result<String, String>)
    ensures
        match r {
            Ok(s) => repo_path(index as int, entry@) == Ok::<Seq<char>, Seq<char>>(s@),
            Err(m) => repo_path(index as int, entry@) == Err::<Seq<char>, Seq<char>>(m@),
        },
{
    match entry.str_at("path") {
        Some(p) => Ok(p.to_owned()),
        None => {
            let n = text::decimal_of(index as u64);
            Err(
                text::join3(
                    "INVALID_REPO_ENTRY: `repos[",
                    n.as_str(),
                    "]` must be an object with a `path` field, e.g. `- path: ~/repos/swe-core`",
                ),
            )
        },
    }
}

proof fn lemma_repo_paths_err(items: Seq<Json>, k: int, n: int)
    requires
        k <= n,
        repo_paths(items, k) is Err,
    ensures
        repo_paths(items, n) == repo_paths(items, k),
    decreases n - k,
{
    if k < n {
        lemma_repo_paths_err(items, k, n - 1);
    }
}

proof fn lemma_override_ids_err(items: Seq<Json>, k: int, n: int)
    requires
        k <= n,
        override_ids(items, k) is Err,
    ensures
        override_ids(items, n) == override_ids(items, k),
    decreases n - k,
{
    if k < n {
        lemma_override_ids_err(items, k, n - 1);
    }
}

fn take_repos(host: &Value) -> (r: Result<Vec<String>, String>)
    ensures
        list_result(r) == declared_repos(host@),
{
    let mut out: Vec<String> = Vec::new();
    assert(text::texts(out@) =~= Seq::empty());
    match host.get("repos") {
        None => Ok(out),
        Some(Value::Array(items)) => {
            let ghost js = json::views(items@);
            let mut i: usize = 0;
            while i < items.len()
                invariant
                    i <= items.len(),
                    js == json::views(items@),
                    host@.get("repos"@) == Some(Json::Array(js)),
                    repo_paths(js, i as int) == Ok::<Seq<Seq<char>>, Seq<char>>(
                        text::texts(out@),
                    ),
                decreases items.len() - i,
            {
                assert(js[i as int] == items@[i as int]@);
                match parse_repo_entry(i, &items[i]) {
                    Err(m) => {
                        proof {
                            lemma_repo_paths_err(js, i + 1, js.len() as int);
                        }
                        return Err(m);
                    },
                    Ok(p) => {
                        proof {
                            text::lemma_texts_push(out@, p);
                        }
                        out.push(p);
                    },
                }
                i = i + 1;
            }
            Ok(out)
        },
        Some(other) => Err(
            text::join3(
                "INVALID_REPOS_SHAPE: top-level `repos:` must be an array of `{ path: <dir> }` objects (",
                config_check::short_value_kind(other),
                ")",
            ),
        ),
    }
}

fn parse_override(entry: &Value) -> (r: Result<String, String>)
    ensures
        match r {
            Ok(s) => override_id(entry@) == Ok::<Seq<char>, Seq<char>>(s@),
            Err(m) => override_id(entry@) == Err::<Seq<char>, Seq<char>>(m@),
        },
{
    match entry {
        Value::String(s) => {
            if s.as_str().unicode_len() > 0 {
                Ok(s.clone())
            } else {
                Err(
                    "INVALID_OVERRIDE_ENTRY: `overrides:` entries MUST be non-empty strings".to_owned(),
                )
            }
        },
        other => Err(
            text::join3(
                "INVALID_OVERRIDE_ENTRY: `overrides:` entries MUST be strings (",
                config_check::short_value_kind(other),
                ")",
            ),
        ),
    }
}

fn take_overrides(host: &Value) -> (r: Result<Vec<String>, String>)
    ensures
        list_result(r) == declared_overrides(host@),
{
    let mut out: Vec<String> = Vec::new();
    assert(text::texts(out@) =~= Seq::empty());
    match host.get("overrides") {
        None => Ok(out),
        Some(Value::Array(items)) => {
            let ghost js = json::views(items@);
            let mut i: usize = 0;
            while i < items.len()
                invariant
                    i <= items.len(),
                    js == json::views(items@),
                    host@.get("overrides"@) == Some(Json::Array(js)),
                    override_ids(js, i as int) == Ok::<Seq<Seq<char>>, Seq<char>>(
                        text::texts(out@),
                    ),
                decreases items.len() - i,
            {
                assert(js[i as int] == items@[i as int]@);
                match parse_override(&items[i]) {
                    Err(m) => {
                        proof {
                            lemma_override_ids_err(js, i + 1, js.len() as int);
                        }
                        return Err(m);
                    },
                    Ok(p) => {
                        proof {
                            text::lemma_texts_push(out@, p);
                        }
                        out.push(p);
                    },
                }
                i = i + 1;
            }
            Ok(out)
        },
        Some(other) => Err(
            text::join3(
                "INVALID_OVERRIDES_SHAPE: top-level `overrides:` must be an array of fully-qualified id strings (",
                config_check::short_value_kind(other),
                ")",
            ),
        ),
    }
}

/// The outcome of reading what is declared.
pub open spec fn declared_result(r: Result<Declared, String>) -> Result<DeclaredView, Seq<char>> {
    match r {
        Ok(d) => Ok(d@),
        Err(m) => Err(m@),
    }
}

/// Takes what a configuration declares of repositories out of it.
pub fn take_repos_and_overrides(host: Value) -> (r: Result<Declared, String>)
    ensures
        declared_result(r) == declared(host@),
{
    let repos = match take_repos(&host) {
        Err(m) => {
            return Err(m);
        },
        Ok(v) => v,
    };
    let overrides = match take_overrides(&host) {
        Err(m) => {
            return Err(m);
        },
        Ok(v) => v,
    };
    let mut h = host;
    h.unset("repos");
    h.unset("overrides");
    Ok(Declared { host: h, repos, overrides })
}

// ---------------------------------------------------------------------------
// What is provided
// ---------------------------------------------------------------------------

/// The ids of the definitions of a configuration: workflows, skills, scripts and
/// connections.
pub open spec fn definition_ids(v: Json) -> Seq<Seq<char>> {
    validate::keys(v.entries_at("workflows"@)) + validate::keys(v.entries_at("skills"@))
        + validate::keys(v.entries_at("scripts"@)) + validate::keys(
        v.entries_at("connections"@),
    )
}

fn keys_at(v: &Value, key: &str) -> (r: Vec<String>)
    ensures
        text::texts(r@) == validate::keys(v@.entries_at(key@)),
{
    match v.object_at(key) {
        Some(e) => validate::keys_of(e),
        None => {
            let out: Vec<String> = Vec::new();
            assert(text::texts(out@) =~= validate::keys(v@.entries_at(key@)));
            out
        },
    }
}

/// The ids of the definitions of a configuration.
pub fn host_definition_ids(v: &Value) -> (r: Vec<String>)
    ensures
        text::texts(r@) == definition_ids(v@),
{
    let mut out = keys_at(v, "workflows");
    let skills = keys_at(v, "skills");
    validate::append_texts(&mut out, &skills);
    let scripts = keys_at(v, "scripts");
    validate::append_texts(&mut out, &scripts);
    let connections = keys_at(v, "connections");
    validate::append_texts(&mut out, &connections);
    out
}

/// A repository that was read.
#[derive(Debug, PartialEq)]
pub struct LoadedRepo {
    pub name: String,
    pub namespace: String,
    /// Its definitions, with the namespace in front of every id.
    pub value: Value,
}

/// A repository that was read, as mathematical values.
pub struct RepoView {
    pub name: Seq<char>,
    pub namespace: Seq<char>,
    pub value: Json,
}

impl View for LoadedRepo {
    type V = RepoView;

    open spec fn view(&self) -> RepoView {
        RepoView { name: self.name@, namespace: self.namespace@, value: self.value@ }
    }
}

/// The repositories, in order.
pub open spec fn repo_views(v: Seq<LoadedRepo>) -> Seq<RepoView> {
    Seq::new(v.len(), |i: int| v[i]@)
}

/// The last of the first `n` repositories with the namespace.
pub open spec fn last_with(repos: Seq<RepoView>, namespace: Seq<char>, n: int) -> Option<RepoView>
    decreases n,
{
    if n <= 0 {
        None
    } else if repos[n - 1].namespace == namespace {
        Some(repos[n - 1])
    } else {
        last_with(repos, namespace, n - 1)
    }
}

/// What is wrong with the namespaces of the first `n` repositories: no two may have the
/// same.
pub open spec fn namespace_fault(repos: Seq<RepoView>, n: int) -> Option<Seq<char>>
    decreases n,
{
    if n <= 0 {
        None
    } else {
        match namespace_fault(repos, n - 1) {
            Some(m) => Some(m),
            None => match last_with(repos, repos[n - 1].namespace, n - 1) {
                Some(prev) => Some(
                    "DUPLICATE_REPO_NAMESPACE: namespace '"@ + repos[n - 1].namespace
                        + "' is declared by repos '"@ + prev.name + "' and '"@ + repos[n - 1].name
                        + "'. Each repo MUST declare a unique namespace."@,
                ),
                None => None,
            },
        }
    }
}

/// Repositories without a namespace fault have different namespaces.
pub proof fn law_namespaces_are_unique(repos: Seq<RepoView>, n: int, i: int, j: int)
    requires
        namespace_fault(repos, n) is None,
        0 <= i < j < n <= repos.len(),
    ensures
        repos[i].namespace != repos[j].namespace,
    decreases n,
{
    if j < n - 1 {
        law_namespaces_are_unique(repos, n - 1, i, j);
    } else {
        lemma_last_with(repos, repos[j].namespace, j, i);
    }
}

proof fn lemma_last_with(repos: Seq<RepoView>, namespace: Seq<char>, n: int, i: int)
    requires
        0 <= i < n <= repos.len(),
        last_with(repos, namespace, n) is None,
    ensures
        repos[i].namespace != namespace,
    decreases n,
{
    if i < n - 1 {
        lemma_last_with(repos, namespace, n - 1, i);
    }
}

/// The definitions of the first `n` repositories, merged in order.
pub open spec fn aggregate(repos: Seq<RepoView>, n: int) -> Json
    decreases n,
{
    if n <= 0 {
        Json::empty()
    } else {
        config_merge::merged(aggregate(repos, n - 1), repos[n - 1].value)
    }
}

/// The ids that the first `n` repositories provide.
pub open spec fn provided_ids(repos: Seq<RepoView>, n: int) -> Seq<Seq<char>>
    decreases n,
{
    if n <= 0 {
        Seq::empty()
    } else {
        provided_ids(repos, n - 1) + definition_ids(repos[n - 1].value)
    }
}

/// The first id from `i` on that a repository provides and that is not declared as
/// overridden.
pub open spec fn anonymous_override(
    ids: Seq<Seq<char>>,
    provided: Seq<Seq<char>>,
    overrides: Seq<Seq<char>>,
    i: int,
) -> Option<Seq<char>>
    decreases ids.len() - i,
{
    if i >= ids.len() {
        None
    } else if provided.contains(ids[i]) && !overrides.contains(ids[i]) {
        Some(
            "ANONYMOUS_OVERRIDE: '"@ + ids[i]
                + "' is provided by a declared repo and shadowed by the host config without an explicit `overrides:` entry. Add `"@
                + ids[i]
                + "` to the top-level `overrides:` array to make the shadowing intentional."@,
        )
    } else {
        anonymous_override(ids, provided, overrides, i + 1)
    }
}

/// The first override from `i` on that no repository provides.
pub open spec fn stale_override(
    overrides: Seq<Seq<char>>,
    provided: Seq<Seq<char>>,
    i: int,
) -> Option<Seq<char>>
    decreases overrides.len() - i,
{
    if i >= overrides.len() {
        None
    } else if !provided.contains(overrides[i]) {
        Some(
            "STALE_OVERRIDE: `overrides:` lists '"@ + overrides[i]
                + "', but no declared repo provides that id. Remove it or correct the namespace prefix."@,
        )
    } else {
        stale_override(overrides, provided, i + 1)
    }
}

/// Where nothing is overridden without being declared, every definition that the host
/// shares with a repository is declared as an override.
pub proof fn law_overrides_are_declared(
    ids: Seq<Seq<char>>,
    provided: Seq<Seq<char>>,
    overrides: Seq<Seq<char>>,
    i: int,
    k: int,
)
    requires
        0 <= i <= k < ids.len(),
        anonymous_override(ids, provided, overrides, i) is None,
        provided.contains(ids[k]),
    ensures
        overrides.contains(ids[k]),
    decreases ids.len() - i,
{
    if i < k {
        law_overrides_are_declared(ids, provided, overrides, i + 1, k);
    }
}

// ---------------------------------------------------------------------------
// References
// ---------------------------------------------------------------------------

/// The workflow that a value runs, where it is the executor of one and the workflow is
/// not known.
pub open spec fn own_unknown(v: Json, known: Seq<Seq<char>>) -> Option<Seq<char>> {
    match (v.str_at("kind"@), v.str_at("definitionId"@)) {
        (Some(kind), Some(id)) => if kind == "workflow"@ && !known.contains(id) {
            Some(id)
        } else {
            None
        },
        _ => None,
    }
}

/// The first unknown workflow that something inside a value runs.
pub open spec fn unknown_ref(v: Json, known: Seq<Seq<char>>) -> Option<Seq<char>>
    decreases v, 0int,
{
    match v {
        Json::Object(e) => match own_unknown(v, known) {
            Some(id) => Some(id),
            None => unknown_in_entries(e, known, 0),
        },
        Json::Array(s) => unknown_in_items(s, known, 0),
        _ => None,
    }
}

/// The first unknown workflow that an entry from `i` on runs.
pub open spec fn unknown_in_entries(
    e: Seq<(Seq<char>, Json)>,
    known: Seq<Seq<char>>,
    i: int,
) -> Option<Seq<char>>
    decreases e, e.len() - i,
{
    if i < 0 || i >= e.len() {
        None
    } else {
        match unknown_ref(e[i].1, known) {
            Some(id) => Some(id),
            None => unknown_in_entries(e, known, i + 1),
        }
    }
}

/// The first unknown workflow that an item from `i` on runs.
pub open spec fn unknown_in_items(s: Seq<Json>, known: Seq<Seq<char>>, i: int) -> Option<Seq<char>>
    decreases s, s.len() - i,
{
    if i < 0 || i >= s.len() {
        None
    } else {
        match unknown_ref(s[i], known) {
            Some(id) => Some(id),
            None => unknown_in_items(s, known, i + 1),
        }
    }
}

/// Looks for an unknown workflow that something inside a value runs.
fn find_unknown_ref(value: &Value, known: &Vec<String>) -> (r: Option<String>)
    ensures
        text::opt_text(r) == unknown_ref(value@, text::texts(known@)),
    decreases value@,
{
    let ghost ks = text::texts(known@);
    match value {
        Value::Object(map) => {
            if text::opt_is(value.str_at("kind"), "workflow") {
                if let Some(id) = value.str_at("definitionId") {
                    if !text::has_text(known, id) {
                        return Some(id.to_owned());
                    }
                }
            }
            let ghost e = json::entries(map@);
            let mut i: usize = 0;
            while i < map.len()
                invariant
                    i <= map.len(),
                    e == json::entries(map@),
                    ks == text::texts(known@),
                    value@ == Json::Object(e),
                    unknown_in_entries(e, ks, i as int) == unknown_ref(value@, ks),
                decreases map.len() - i,
            {
                assert(e[i as int] == (map@[i as int].0@, map@[i as int].1@));
                proof {
                    assert(decreases_to!(value@ => value@->Object_0));
                    assert(decreases_to!(e => e[i as int]));
                    assert(decreases_to!(e[i as int] => e[i as int].1));
                }
                if let Some(id) = find_unknown_ref(&map[i].1, known) {
                    return Some(id);
                }
                i = i + 1;
            }
            None
        },
        Value::Array(arr) => {
            let ghost s = json::views(arr@);
            let mut i: usize = 0;
            while i < arr.len()
                invariant
                    i <= arr.len(),
                    s == json::views(arr@),
                    ks == text::texts(known@),
                    value@ == Json::Array(s),
                    unknown_in_items(s, ks, i as int) == unknown_ref(value@, ks),
                decreases arr.len() - i,
            {
                assert(s[i as int] == arr@[i as int]@);
                proof {
                    assert(decreases_to!(value@ => value@->Array_0));
                    assert(decreases_to!(s => s[i as int]));
                }
                if let Some(id) = find_unknown_ref(&arr[i], known) {
                    return Some(id);
                }
                i = i + 1;
            }
            None
        },
        _ => None,
    }
}

/// The fault of a workflow that runs an unknown one.
pub open spec fn unresolved(known: Seq<Seq<char>>) -> spec_fn(Seq<char>, Json) -> Option<Seq<char>> {
    |id: Seq<char>, def: Json|
        match unknown_ref(def, known) {
            None => None,
            Some(target) => Some(
                "UNRESOLVED_WORKFLOW_REF: workflow '"@ + id + "' references definitionId '"@
                    + target
                    + "' via a `kind: workflow` executor, but no workflow with that id is loaded. Unprefixed names resolve in the workflow's OWN namespace; to call into another repo, fully qualify the id as `<namespace>/"@
                    + target + "`."@,
            ),
        }
}

/// What is wrong with the references between the workflows of a configuration: each
/// must lead to a workflow.
pub open spec fn refs_fault(config: Json) -> Option<Seq<char>> {
    let e = config.entries_at("workflows"@);
    config_check::first_fault(e, 0, unresolved(validate::keys(e)))
}

/// Checks that the references between the workflows of a configuration lead to
/// workflows.
pub fn validate_workflow_refs_resolve(config: &Value) -> (r: Result<(), String>)
    ensures
        config_check::fault(r) == refs_fault(config@),
{
    if let Some(workflows) = config.object_at("workflows") {
        let known = validate::keys_of(workflows);
        let ghost e = json::entries(workflows@);
        let ghost f = unresolved(validate::keys(e));
        let mut i: usize = 0;
        while i < workflows.len()
            invariant
                i <= workflows.len(),
                e == json::entries(workflows@),
                text::texts(known@) == validate::keys(e),
                f == unresolved(validate::keys(e)),
                config_check::first_fault(e, i as int, f) == refs_fault(config@),
            decreases workflows.len() - i,
        {
            assert(e[i as int] == (workflows@[i as int].0@, workflows@[i as int].1@));
            if let Some(target) = find_unknown_ref(&workflows[i].1, &known) {
                return Err(
                    text::join7(
                        "UNRESOLVED_WORKFLOW_REF: workflow '",
                        workflows[i].0.as_str(),
                        "' references definitionId '",
                        target.as_str(),
                        "' via a `kind: workflow` executor, but no workflow with that id is loaded. Unprefixed names resolve in the workflow's OWN namespace; to call into another repo, fully qualify the id as `<namespace>/",
                        target.as_str(),
                        "`.",
                    ),
                );
            }
            i = i + 1;
        }
    }
    Ok(())
}

// ---------------------------------------------------------------------------
// Merging
// ---------------------------------------------------------------------------

/// A configuration on top of the definitions of repositories. What it says itself goes
/// first, where it is declared as an override.
#[verifier::opaque]
pub open spec fn on_top(
    host: Json,
    overrides: Seq<Seq<char>>,
    all: Json,
    provided: Seq<Seq<char>>,
) -> Result<Json, Seq<char>> {
    match anonymous_override(definition_ids(host), provided, overrides, 0) {
        Some(m) => Err(m),
        None => match stale_override(overrides, provided, 0) {
            Some(m) => Err(m),
            None => match refs_fault(config_merge::merged(all, host)) {
                Some(m) => Err(m),
                None => Ok(config_merge::merged(all, host)),
            },
        },
    }
}

/// A configuration with the repositories that it declares. Without repositories it
/// stays as it is.
pub open spec fn with_repos(
    host: Json,
    overrides: Seq<Seq<char>>,
    repos: Seq<RepoView>,
) -> Result<Json, Seq<char>> {
    let n = repos.len() as int;
    if n == 0 {
        Ok(host)
    } else {
        match namespace_fault(repos, n) {
            Some(m) => Err(m),
            None => on_top(host, overrides, aggregate(repos, n), provided_ids(repos, n)),
        }
    }
}

/// A configuration that is merged with repositories overrides only what it declares, and
/// every reference between workflows leads to one.
pub proof fn law_merged_configuration_holds_together(
    host: Json,
    overrides: Seq<Seq<char>>,
    repos: Seq<RepoView>,
    merged: Json,
    k: int,
)
    requires
        repos.len() > 0,
        with_repos(host, overrides, repos) == Ok::<Json, Seq<char>>(merged),
    ensures
        refs_fault(merged) is None,
        0 <= k < definition_ids(host).len() && provided_ids(repos, repos.len() as int).contains(
            definition_ids(host)[k],
        ) ==> overrides.contains(definition_ids(host)[k]),
{
    reveal(on_top);
    let provided = provided_ids(repos, repos.len() as int);
    if 0 <= k < definition_ids(host).len() && provided.contains(definition_ids(host)[k]) {
        law_overrides_are_declared(definition_ids(host), provided, overrides, 0, k);
    }
}

/// Checks that a repository has a namespace of its own among the first `n`.
fn claim_namespace(repos: &Vec<LoadedRepo>, n: usize) -> (r: Result<(), String>)
    requires
        n < repos.len(),
    ensures
        config_check::fault(r) == (match last_with(
            repo_views(repos@),
            repos@[n as int]@.namespace,
            n as int,
        ) {
            Some(prev) => Some(
                "DUPLICATE_REPO_NAMESPACE: namespace '"@ + repos@[n as int]@.namespace
                    + "' is declared by repos '"@ + prev.name + "' and '"@
                    + repos@[n as int]@.name
                    + "'. Each repo MUST declare a unique namespace."@,
            ),
            None => None,
        }),
{
    let ghost rs = repo_views(repos@);
    let mut i: usize = n;
    while i > 0
        invariant
            i <= n < repos.len(),
            rs == repo_views(repos@),
            last_with(rs, repos@[n as int]@.namespace, i as int) == last_with(
                rs,
                repos@[n as int]@.namespace,
                n as int,
            ),
        decreases i,
    {
        assert(rs[i - 1] == repos@[i - 1]@);
        if text::str_eq(repos[i - 1].namespace.as_str(), repos[n].namespace.as_str()) {
            return Err(
                text::join7(
                    "DUPLICATE_REPO_NAMESPACE: namespace '",
                    repos[n].namespace.as_str(),
                    "' is declared by repos '",
                    repos[i - 1].name.as_str(),
                    "' and '",
                    repos[n].name.as_str(),
                    "'. Each repo MUST declare a unique namespace.",
                ),
            );
        }
        i = i - 1;
    }
    Ok(())
}

proof fn lemma_namespace_fault(repos: Seq<RepoView>, k: int, n: int)
    requires
        k <= n,
        namespace_fault(repos, k) is Some,
    ensures
        namespace_fault(repos, n) == namespace_fault(repos, k),
    decreases n - k,
{
    if k < n {
        lemma_namespace_fault(repos, k, n - 1);
    }
}

/// Checks that the repositories have different namespaces.
pub fn check_namespaces(repos: &Vec<LoadedRepo>) -> (r: Result<(), String>)
    ensures
        config_check::fault(r) == namespace_fault(repo_views(repos@), repos@.len() as int),
{
    let ghost rs = repo_views(repos@);
    let mut i: usize = 0;
    while i < repos.len()
        invariant
            i <= repos.len(),
            rs == repo_views(repos@),
            namespace_fault(rs, i as int) is None,
        decreases repos.len() - i,
    {
        assert(rs[i as int] == repos@[i as int]@);
        match claim_namespace(repos, i) {
            Err(m) => {
                proof {
                    lemma_namespace_fault(rs, i + 1, rs.len() as int);
                }
                return Err(m);
            },
            Ok(_) => {},
        }
        i = i + 1;
    }
    Ok(())
}

fn check_overrides(ids: &Vec<String>, provided: &Vec<String>, overrides: &Vec<String>) -> (r: Result<
    (),
    String,
>)
    ensures
        config_check::fault(r) == (match anonymous_override(
            text::texts(ids@),
            text::texts(provided@),
            text::texts(overrides@),
            0,
        ) {
            Some(m) => Some(m),
            None => stale_override(text::texts(overrides@), text::texts(provided@), 0),
        }),
{
    let ghost xs = text::texts(ids@);
    let ghost ps = text::texts(provided@);
    let ghost os = text::texts(overrides@);
    let mut i: usize = 0;
    while i < ids.len()
        invariant
            i <= ids.len(),
            xs == text::texts(ids@),
            ps == text::texts(provided@),
            os == text::texts(overrides@),
            anonymous_override(xs, ps, os, i as int) == anonymous_override(xs, ps, os, 0),
        decreases ids.len() - i,
    {
        assert(xs[i as int] == ids@[i as int]@);
        let id = ids[i].as_str();
        if text::has_text(provided, id) && !text::has_text(overrides, id) {
            return Err(
                text::join5(
                    "ANONYMOUS_OVERRIDE: '",
                    id,
                    "' is provided by a declared repo and shadowed by the host config without an explicit `overrides:` entry. Add `",
                    id,
                    "` to the top-level `overrides:` array to make the shadowing intentional.",
                ),
            );
        }
        i = i + 1;
    }
    let mut j: usize = 0;
    while j < overrides.len()
        invariant
            j <= overrides.len(),
            ps == text::texts(provided@),
            os == text::texts(overrides@),
            anonymous_override(xs, ps, os, 0) is None,
            xs == text::texts(ids@),
            stale_override(os, ps, j as int) == stale_override(os, ps, 0),
        decreases overrides.len() - j,
    {
        assert(os[j as int] == overrides@[j as int]@);
        if !text::has_text(provided, overrides[j].as_str()) {
            return Err(
                text::join3(
                    "STALE_OVERRIDE: `overrides:` lists '",
                    overrides[j].as_str(),
                    "', but no declared repo provides that id. Remove it or correct the namespace prefix.",
                ),
            );
        }
        j = j + 1;
    }
    Ok(())
}

fn put_on_top(
    host: Value,
    overrides: &Vec<String>,
    all: Value,
    provided: &Vec<String>,
) -> (r: Result<Value, String>)
    ensures
        config_capabilities::value_result(r) == on_top(
            host@,
            text::texts(overrides@),
            all@,
            text::texts(provided@),
        ),
{
    proof {
        reveal(on_top);
    }
    let ids = host_definition_ids(&host);
    match check_overrides(&ids, provided, overrides) {
        Err(m) => {
            return Err(m);
        },
        Ok(_) => {},
    }
    let whole = config_merge::deep_merge(all, host);
    match validate_workflow_refs_resolve(&whole) {
        Err(m) => Err(m),
        Ok(_) => Ok(whole),
    }
}

/// Merges a configuration with the repositories that it declares.
pub fn merge_declared_repos(host: Value, overrides: &Vec<String>, repos: &Vec<LoadedRepo>) -> (r:
    Result<Value, String>)
    ensures
        config_capabilities::value_result(r) == with_repos(
            host@,
            text::texts(overrides@),
            repo_views(repos@),
        ),
{
    if repos.len() == 0 {
        return Ok(host);
    }
    match check_namespaces(repos) {
        Err(m) => {
            return Err(m);
        },
        Ok(_) => {},
    }
    let ghost rs = repo_views(repos@);
    let mut all = Value::object();
    let mut provided: Vec<String> = Vec::new();
    assert(text::texts(provided@) =~= Seq::empty());
    let mut i: usize = 0;
    while i < repos.len()
        invariant
            i <= repos.len(),
            rs == repo_views(repos@),
            all@ == aggregate(rs, i as int),
            text::texts(provided@) == provided_ids(rs, i as int),
        decreases repos.len() - i,
    {
        assert(rs[i as int] == repos@[i as int]@);
        let ids = host_definition_ids(&repos[i].value);
        validate::append_texts(&mut provided, &ids);
        all = config_merge::deep_merge(all, repos[i].value.dup());
        i = i + 1;
    }
    put_on_top(host, overrides, all, &provided)
}

} // verus!
