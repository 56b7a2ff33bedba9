//! The manifest of a repository of definitions.
use crate::config_check;
use crate::json;
use crate::text;
use vstd::prelude::*;

verus! {

/// The schema that a manifest must declare.
pub const REPO_MANIFEST_SCHEMA_V1: &'static str = "flowgate.repo/v1";

/// Where a repository keeps its definitions.
#[derive(Debug, Clone, PartialEq, Eq)]
pub struct RepoLayout {
    pub capabilities: String,
    pub orchestrators: String,
    pub skills: String,
    pub scripts: String,
    pub connections: String,
}

/// Where a repository keeps its definitions, as mathematical values.
pub struct LayoutView {
    pub capabilities: Seq<char>,
    pub orchestrators: Seq<char>,
    pub skills: Seq<char>,
    pub scripts: Seq<char>,
    pub connections: Seq<char>,
}

impl View for RepoLayout {
    type V = LayoutView;

    open spec fn view(&self) -> LayoutView {
        LayoutView {
            capabilities: self.capabilities@,
            orchestrators: self.orchestrators@,
            skills: self.skills@,
            scripts: self.scripts@,
            connections: self.connections@,
        }
    }
}

/// Every directory has the name of what it holds.
pub open spec fn default_layout() -> LayoutView {
    LayoutView {
        capabilities: "capabilities"@,
        orchestrators: "orchestrators"@,
        skills: "skills"@,
        scripts: "scripts"@,
        connections: "connections"@,
    }
}

/// The directory of the capabilities.
pub fn default_capabilities_dir() -> (r: String)
    ensures
        r@ == "capabilities"@,
{
    "capabilities".to_owned()
}

/// The directory of the orchestrators.
pub fn default_orchestrators_dir() -> (r: String)
    ensures
        r@ == "orchestrators"@,
{
    "orchestrators".to_owned()
}

/// The directory of the skills.
pub fn default_skills_dir() -> (r: String)
    ensures
        r@ == "skills"@,
{
    "skills".to_owned()
}

/// The directory of the scripts.
pub fn default_scripts_dir() -> (r: String)
    ensures
        r@ == "scripts"@,
{
    "scripts".to_owned()
}

/// The directory of the connections.
pub fn default_connections_dir() -> (r: String)
    ensures
        r@ == "connections"@,
{
    "connections".to_owned()
}

impl Default for RepoLayout {
    fn default() -> (r: Self)
        ensures
            r@ == default_layout(),
    {
        RepoLayout {
            capabilities: default_capabilities_dir(),
            orchestrators: default_orchestrators_dir(),
            skills: default_skills_dir(),
            scripts: default_scripts_dir(),
            connections: default_connections_dir(),
        }
    }
}

/// The manifest of a repository.
#[derive(Debug, Clone, PartialEq, Eq)]
pub struct RepoManifest {
    pub schema: String,
    pub name: String,
    /// What goes in front of the id of every definition of the repository.
    pub namespace: String,
    pub version: String,
    pub description: Option<String>,
    pub layout: RepoLayout,
}

/// The manifest of a repository, as mathematical values.
pub struct ManifestView {
    pub schema: Seq<char>,
    pub name: Seq<char>,
    pub namespace: Seq<char>,
    pub version: Seq<char>,
    pub description: Option<Seq<char>>,
    pub layout: LayoutView,
}

impl View for RepoManifest {
    type V = ManifestView;

    open spec fn view(&self) -> ManifestView {
        ManifestView {
            schema: self.schema@,
            name: self.name@,
            namespace: self.namespace@,
            version: self.version@,
            description: text::opt_text(self.description),
            layout: self.layout@,
        }
    }
}

/// What a manifest says of a field: a text, which is how a scalar is written whatever
/// it looks like, or texts by name.
#[derive(Debug, Clone, PartialEq, Eq)]
pub enum Field {
    Text(String),
    Mapping(Vec<(String, String)>),
}

/// What a manifest says of a field, as mathematical values.
pub enum FieldView {
    Text(Seq<char>),
    Mapping(Seq<(Seq<char>, Seq<char>)>),
}

/// Texts by name.
pub open spec fn named_texts(v: Seq<(String, String)>) -> Seq<(Seq<char>, Seq<char>)> {
    Seq::new(v.len(), |i: int| (v[i].0@, v[i].1@))
}

impl View for Field {
    type V = FieldView;

    open spec fn view(&self) -> FieldView {
        match self {
            Field::Text(s) => FieldView::Text(s@),
            Field::Mapping(m) => FieldView::Mapping(named_texts(m@)),
        }
    }
}

/// Fields by name, in the order in which they are written.
pub open spec fn named_fields(v: Seq<(String, Field)>) -> Seq<(Seq<char>, FieldView)> {
    Seq::new(v.len(), |i: int| (v[i].0@, v[i].1@))
}

/// The fields of a manifest.
pub open spec fn manifest_field(k: Seq<char>) -> bool {
    k == "schema"@ || k == "name"@ || k == "namespace"@ || k == "version"@ || k == "description"@
        || k == "layout"@
}

/// The fields of a layout.
pub open spec fn layout_field(k: Seq<char>) -> bool {
    k == "capabilities"@ || k == "orchestrators"@ || k == "skills"@ || k == "scripts"@ || k
        == "connections"@
}

/// The names of what is given by name.
pub open spec fn names<V>(f: Seq<(Seq<char>, V)>) -> Seq<Seq<char>> {
    Seq::new(f.len(), |i: int| f[i].0)
}

/// The first name from `i` on that is none of a field, or that was there before.
pub open spec fn name_fault(names: Seq<Seq<char>>, layout: bool, i: int) -> Option<Seq<char>>
    decreases names.len() - i,
{
    if i < 0 || i >= names.len() {
        None
    } else if !(if layout {
        layout_field(names[i])
    } else {
        manifest_field(names[i])
    }) {
        Some("unknown field `"@ + names[i] + "`"@)
    } else if names.take(i).contains(names[i]) {
        Some("duplicate field `"@ + names[i] + "`"@)
    } else {
        name_fault(names, layout, i + 1)
    }
}

/// A text that must be there.
pub open spec fn required(f: Seq<(Seq<char>, FieldView)>, key: Seq<char>) -> Result<
    Seq<char>,
    Seq<char>,
> {
    match json::find(f, key) {
        None => Err("missing field `"@ + key + "`"@),
        Some(FieldView::Text(s)) => Ok(s),
        Some(FieldView::Mapping(_)) => Err("field `"@ + key + "` must be a text"@),
    }
}

/// A text that may be missing.
pub open spec fn optional(f: Seq<(Seq<char>, FieldView)>, key: Seq<char>) -> Result<
    Option<Seq<char>>,
    Seq<char>,
> {
    match json::find(f, key) {
        None => Ok(None),
        Some(FieldView::Text(s)) => Ok(Some(s)),
        Some(FieldView::Mapping(_)) => Err("field `"@ + key + "` must be a text"@),
    }
}

/// A directory, which has its own name where it is left out.
pub open spec fn directory(m: Seq<(Seq<char>, Seq<char>)>, key: Seq<char>) -> Seq<char> {
    match json::find(m, key) {
        Some(s) => s,
        None => key,
    }
}

/// The outcome of reading a text.
pub open spec fn text_result(r: Result<String, String>) -> Result<Seq<char>, Seq<char>> {
    match r {
        Ok(s) => Ok(s@),
        Err(m) => Err(m@),
    }
}

/// The layout that the fields describe. What they leave out is as by default.
pub open spec fn layout_of(m: Seq<(Seq<char>, Seq<char>)>) -> Result<LayoutView, Seq<char>> {
    match name_fault(names(m), true, 0) {
        Some(fault) => Err(fault),
        None => Ok(
            LayoutView {
                capabilities: directory(m, "capabilities"@),
                orchestrators: directory(m, "orchestrators"@),
                skills: directory(m, "skills"@),
                scripts: directory(m, "scripts"@),
                connections: directory(m, "connections"@),
            },
        ),
    }
}

/// The layout of a manifest.
pub open spec fn manifest_layout(f: Seq<(Seq<char>, FieldView)>) -> Result<LayoutView, Seq<char>> {
    match json::find(f, "layout"@) {
        None => Ok(default_layout()),
        Some(FieldView::Mapping(m)) => layout_of(m),
        Some(FieldView::Text(_)) => Err("field `layout` must be a mapping"@),
    }
}

/// The manifest that the fields describe. There may be no field that a manifest does
/// not have.
pub open spec fn manifest_of(f: Seq<(Seq<char>, FieldView)>) -> Result<ManifestView, Seq<char>> {
    match name_fault(names(f), false, 0) {
        Some(m) => Err(m),
        None => match (
            required(f, "schema"@),
            required(f, "name"@),
            required(f, "namespace"@),
            required(f, "version"@),
            optional(f, "description"@),
            manifest_layout(f),
        ) {
            (Err(m), _, _, _, _, _) => Err(m),
            (_, Err(m), _, _, _, _) => Err(m),
            (_, _, Err(m), _, _, _) => Err(m),
            (_, _, _, Err(m), _, _) => Err(m),
            (_, _, _, _, Err(m), _) => Err(m),
            (_, _, _, _, _, Err(m)) => Err(m),
            (Ok(schema), Ok(name), Ok(namespace), Ok(version), Ok(description), Ok(layout)) => Ok(
                ManifestView { schema, name, namespace, version, description, layout },
            ),
        },
    }
}

fn find_field<'a>(f: &'a Vec<(String, Field)>, key: &str) -> (r: Option<&'a Field>)
    ensures
        match r {
            Some(x) => json::find(named_fields(f@), key@) == Some(x@),
            None => json::find(named_fields(f@), key@) is None,
        },
{
    let ghost e = named_fields(f@);
    let mut i: usize = 0;
    assert(e.skip(0) =~= e);
    while i < f.len()
        invariant
            i <= f.len(),
            e == named_fields(f@),
            json::find(e.skip(i as int), key@) == json::find(e, key@),
        decreases f.len() - i,
    {
        if text::str_eq(f[i].0.as_str(), key) {
            return Some(&f[i].1);
        }
        assert(e.skip(i as int).skip(1) =~= e.skip(i + 1));
        i = i + 1;
    }
    None
}

fn directory_of(m: &Vec<(String, String)>, key: &str) -> (r: String)
    ensures
        r@ == directory(named_texts(m@), key@),
{
    let ghost e = named_texts(m@);
    let mut i: usize = 0;
    assert(e.skip(0) =~= e);
    while i < m.len()
        invariant
            i <= m.len(),
            e == named_texts(m@),
            json::find(e.skip(i as int), key@) == json::find(e, key@),
        decreases m.len() - i,
    {
        if text::str_eq(m[i].0.as_str(), key) {
            return m[i].1.clone();
        }
        assert(e.skip(i as int).skip(1) =~= e.skip(i + 1));
        i = i + 1;
    }
    key.to_owned()
}

fn required_of(f: &Vec<(String, Field)>, key: &str) -> (r: Result<String, String>)
    ensures
        text_result(r) == required(named_fields(f@), key@),
{
    match find_field(f, key) {
        None => Err(text::join3("missing field `", key, "`")),
        Some(Field::Text(s)) => Ok(s.clone()),
        Some(Field::Mapping(_)) => Err(text::join3("field `", key, "` must be a text")),
    }
}

fn optional_of(f: &Vec<(String, Field)>, key: &str) -> (r: Result<Option<String>, String>)
    ensures
        match r {
            Ok(s) => optional(named_fields(f@), key@) == Ok::<Option<Seq<char>>, Seq<char>>(
                text::opt_text(s),
            ),
            Err(m) => optional(named_fields(f@), key@) == Err::<Option<Seq<char>>, Seq<char>>(m@),
        },
{
    match find_field(f, key) {
        None => Ok(None),
        Some(Field::Text(s)) => Ok(Some(s.clone())),
        Some(Field::Mapping(_)) => Err(text::join3("field `", key, "` must be a text")),
    }
}

fn check_names(names: &Vec<String>, layout: bool) -> (r: Result<(), String>)
    ensures
        config_check::fault(r) == name_fault(text::texts(names@), layout, 0),
{
    let ghost ns = text::texts(names@);
    let mut seen: Vec<String> = Vec::new();
    let mut i: usize = 0;
    assert(text::texts(seen@) =~= ns.take(0));
    while i < names.len()
        invariant
            i <= names.len(),
            ns == text::texts(names@),
            text::texts(seen@) == ns.take(i as int),
            name_fault(ns, layout, i as int) == name_fault(ns, layout, 0),
        decreases names.len() - i,
    {
        let k = names[i].as_str();
        assert(ns[i as int] == k@);
        let known = if layout {
            text::str_eq(k, "capabilities") || text::str_eq(k, "orchestrators") || text::str_eq(
                k,
                "skills",
            ) || text::str_eq(k, "scripts") || text::str_eq(k, "connections")
        } else {
            text::str_eq(k, "schema") || text::str_eq(k, "name") || text::str_eq(k, "namespace")
                || text::str_eq(k, "version") || text::str_eq(k, "description") || text::str_eq(
                k,
                "layout",
            )
        };
        if !known {
            return Err(text::join3("unknown field `", k, "`"));
        }
        if text::has_text(&seen, k) {
            return Err(text::join3("duplicate field `", k, "`"));
        }
        let own = k.to_owned();
        proof {
            text::lemma_texts_push(seen@, own);
            assert(ns.take(i + 1) =~= ns.take(i as int).push(k@));
        }
        seen.push(own);
        i = i + 1;
    }
    Ok(())
}

impl RepoLayout {
    /// The layout that the fields describe.
    pub fn from_fields(m: &Vec<(String, String)>) -> (r: Result<RepoLayout, String>)
        ensures
            match r {
                Ok(l) => layout_of(named_texts(m@)) == Ok::<LayoutView, Seq<char>>(l@),
                Err(e) => layout_of(named_texts(m@)) == Err::<LayoutView, Seq<char>>(e@),
            },
    {
        let ghost all = names(named_texts(m@));
        let mut keys: Vec<String> = Vec::new();
        let mut i: usize = 0;
        assert(text::texts(keys@) =~= all.take(0));
        while i < m.len()
            invariant
                i <= m.len(),
                all == names(named_texts(m@)),
                text::texts(keys@) == all.take(i as int),
            decreases m.len() - i,
        {
            let k = m[i].0.clone();
            proof {
                text::lemma_texts_push(keys@, k);
                assert(all.take(i + 1) =~= all.take(i as int).push(k@));
            }
            keys.push(k);
            i = i + 1;
        }
        assert(all.take(i as int) =~= all);
        match check_names(&keys, true) {
            Err(e) => Err(e),
            Ok(_) => Ok(
                RepoLayout {
                    capabilities: directory_of(m, "capabilities"),
                    orchestrators: directory_of(m, "orchestrators"),
                    skills: directory_of(m, "skills"),
                    scripts: directory_of(m, "scripts"),
                    connections: directory_of(m, "connections"),
                },
            ),
        }
    }
}

impl RepoManifest {
    /// The manifest that the fields describe.
    pub fn from_fields(f: &Vec<(String, Field)>) -> (r: Result<RepoManifest, String>)
        ensures
            match r {
                Ok(m) => manifest_of(named_fields(f@)) == Ok::<ManifestView, Seq<char>>(m@),
                Err(m) => manifest_of(named_fields(f@)) == Err::<ManifestView, Seq<char>>(m@),
            },
    {
        let ghost all = names(named_fields(f@));
        let mut keys: Vec<String> = Vec::new();
        let mut i: usize = 0;
        assert(text::texts(keys@) =~= all.take(0));
        while i < f.len()
            invariant
                i <= f.len(),
                all == names(named_fields(f@)),
                text::texts(keys@) == all.take(i as int),
            decreases f.len() - i,
        {
            let k = f[i].0.clone();
            proof {
                text::lemma_texts_push(keys@, k);
                assert(all.take(i + 1) =~= all.take(i as int).push(k@));
            }
            keys.push(k);
            i = i + 1;
        }
        assert(all.take(i as int) =~= all);
        match check_names(&keys, false) {
            Err(m) => {
                return Err(m);
            },
            Ok(_) => {},
        }
        let schema = match required_of(f, "schema") {
            Err(m) => {
                return Err(m);
            },
            Ok(s) => s,
        };
        let name = match required_of(f, "name") {
            Err(m) => {
                return Err(m);
            },
            Ok(s) => s,
        };
        let namespace = match required_of(f, "namespace") {
            Err(m) => {
                return Err(m);
            },
            Ok(s) => s,
        };
        let version = match required_of(f, "version") {
            Err(m) => {
                return Err(m);
            },
            Ok(s) => s,
        };
        let description = match optional_of(f, "description") {
            Err(m) => {
                return Err(m);
            },
            Ok(s) => s,
        };
        let layout = match find_field(f, "layout") {
            None => RepoLayout::default(),
            Some(Field::Mapping(l)) => match RepoLayout::from_fields(l) {
                Err(m) => {
                    return Err(m);
                },
                Ok(l) => l,
            },
            Some(Field::Text(_)) => {
                return Err("field `layout` must be a mapping".to_owned());
            },
        };
        Ok(RepoManifest { schema, name, namespace, version, description, layout })
    }
}

/// The outcome of reading a manifest.
pub open spec fn manifest_result(r: Result<RepoManifest, String>) -> Result<
    ManifestView,
    Seq<char>,
> {
    match r {
        Ok(m) => Ok(m@),
        Err(m) => Err(m@),
    }
}

/// The manifest that was read at a path: it must be one, and of the known schema.
pub open spec fn loaded(path: Seq<char>, f: Seq<(Seq<char>, FieldView)>) -> Result<
    ManifestView,
    Seq<char>,
> {
    match manifest_of(f) {
        Err(m) => Err("parsing repo manifest "@ + path + ": "@ + m),
        Ok(m) => if m.schema == REPO_MANIFEST_SCHEMA_V1@ {
            Ok(m)
        } else {
            Err(
                "repo manifest "@ + path + " declares schema `"@ + m.schema + "`; expected `"@
                    + REPO_MANIFEST_SCHEMA_V1@ + "`"@,
            )
        },
    }
}

/// The manifest that the fields read at a path describe.
pub fn load_manifest(path: &str, fields: &Vec<(String, Field)>) -> (r: Result<
    RepoManifest,
    String,
>)
    ensures
        manifest_result(r) == loaded(path@, named_fields(fields@)),
{
    match RepoManifest::from_fields(fields) {
        Err(m) => Err(text::join4("parsing repo manifest ", path, ": ", m.as_str())),
        Ok(m) => {
            if text::str_eq(m.schema.as_str(), REPO_MANIFEST_SCHEMA_V1) {
                Ok(m)
            } else {
                Err(
                    text::join7(
                        "repo manifest ",
                        path,
                        " declares schema `",
                        m.schema.as_str(),
                        "`; expected `",
                        REPO_MANIFEST_SCHEMA_V1,
                        "`",
                    ),
                )
            }
        },
    }
}

} // verus!
