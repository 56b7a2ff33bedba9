//! Discovery of workflows, capabilities and guidance, and lexical search over them.
use crate::json;
use crate::json::{Json, Number, Value};
use crate::text;
use vstd::prelude::*;

verus! {

/// What can be discovered.
#[derive(Debug, Clone, Copy, PartialEq, Eq, Structural)]
pub enum DiscoveryKind {
    Workflow,
    Capability,
    Connection,
    /// A reusable guidance fragment, found by its subject.
    Guidance,
}

impl DiscoveryKind {
    /// The name of the kind.
    pub open spec fn name(self) -> Seq<char> {
        match self {
            DiscoveryKind::Workflow => "workflow"@,
            DiscoveryKind::Capability => "capability"@,
            DiscoveryKind::Connection => "connection"@,
            DiscoveryKind::Guidance => "guidance"@,
        }
    }

    /// The name of the kind.
    pub fn as_str(self) -> (r: &'static str)
        ensures
            r@ == self.name(),
    {
        match self {
            DiscoveryKind::Workflow => "workflow",
            DiscoveryKind::Capability => "capability",
            DiscoveryKind::Connection => "connection",
            DiscoveryKind::Guidance => "guidance",
        }
    }
}

/// The operation that a guidance fragment primes. The set is closed.
#[derive(Debug, Clone, Copy, PartialEq, Eq, Structural)]
pub enum Verb {
    /// Classify, prioritize, route.
    Triage,
    /// Find root cause.
    Diagnose,
    /// Design approach before acting.
    Plan,
    /// Produce / generate the artifact.
    Implement,
    /// Evaluate against criteria.
    Review,
    /// Restructure preserving behavior.
    Refactor,
    /// Build understanding (self-explain or teach others).
    Explain,
    /// Assemble parts into a whole.
    Compose,
}

impl Verb {
    /// The tokens, in order.
    pub const ALL_TOKENS: [&'static str; 8] = ["triage", "diagnose", "plan", "implement", "review", "refactor", "explain", "compose"];

    /// The token.
    pub open spec fn token(self) -> Seq<char> {
        match self {
            Verb::Triage => "triage"@,
            Verb::Diagnose => "diagnose"@,
            Verb::Plan => "plan"@,
            Verb::Implement => "implement"@,
            Verb::Review => "review"@,
            Verb::Refactor => "refactor"@,
            Verb::Explain => "explain"@,
            Verb::Compose => "compose"@,
        }
    }

    /// The token.
    pub fn as_token(self) -> (r: &'static str)
        ensures
            r@ == self.token(),
    {
        match self {
            Verb::Triage => "triage",
            Verb::Diagnose => "diagnose",
            Verb::Plan => "plan",
            Verb::Implement => "implement",
            Verb::Review => "review",
            Verb::Refactor => "refactor",
            Verb::Explain => "explain",
            Verb::Compose => "compose",
        }
    }

    /// What a token stands for. Anything but one of the tokens, as it is written,
    /// stands for nothing.
    pub fn from_token(token: &str) -> (r: Option<Self>)
        ensures
            r matches Some(v) ==> v.token() == token@,
            r is None ==> forall|v: Verb| #[trigger] v.token() != token@,
    {
        if text::str_eq(token, "triage") {
            return Some(Verb::Triage);
        }
        if text::str_eq(token, "diagnose") {
            return Some(Verb::Diagnose);
        }
        if text::str_eq(token, "plan") {
            return Some(Verb::Plan);
        }
        if text::str_eq(token, "implement") {
            return Some(Verb::Implement);
        }
        if text::str_eq(token, "review") {
            return Some(Verb::Review);
        }
        if text::str_eq(token, "refactor") {
            return Some(Verb::Refactor);
        }
        if text::str_eq(token, "explain") {
            return Some(Verb::Explain);
        }
        if text::str_eq(token, "compose") {
            return Some(Verb::Compose);
        }
        None
    }
}

/// Different values have different tokens, so that a token reads back as the
/// value that was written.
pub proof fn law_verb_tokens_differ(a: Verb, b: Verb)
    requires
        a.token() == b.token(),
    ensures
        a == b,
{
    reveal_strlit("triage");
    reveal_strlit("diagnose");
    reveal_strlit("plan");
    reveal_strlit("implement");
    reveal_strlit("review");
    reveal_strlit("refactor");
    reveal_strlit("explain");
    reveal_strlit("compose");
    if a != b {
        let x = a.token();
        let y = b.token();
        assert(x.len() != y.len() || x[0] != y[0] || x[2] != y[2]);
    }
}

/// Every listed token is the token of a value, and the other way round.
pub proof fn law_verb_tokens_listed(s: Seq<char>)
    ensures
        (exists|v: Verb| #[trigger] v.token() == s) == (exists|i: int|
            0 <= i < 8 && (#[trigger] Verb::ALL_TOKENS@[i])@ == s),
{
    if exists|v: Verb| #[trigger] v.token() == s {
        let v = choose|v: Verb| #[trigger] v.token() == s;
        match v {
            Verb::Triage => {
                assert(Verb::ALL_TOKENS@[0]@ == s);
            },
            Verb::Diagnose => {
                assert(Verb::ALL_TOKENS@[1]@ == s);
            },
            Verb::Plan => {
                assert(Verb::ALL_TOKENS@[2]@ == s);
            },
            Verb::Implement => {
                assert(Verb::ALL_TOKENS@[3]@ == s);
            },
            Verb::Review => {
                assert(Verb::ALL_TOKENS@[4]@ == s);
            },
            Verb::Refactor => {
                assert(Verb::ALL_TOKENS@[5]@ == s);
            },
            Verb::Explain => {
                assert(Verb::ALL_TOKENS@[6]@ == s);
            },
            Verb::Compose => {
                assert(Verb::ALL_TOKENS@[7]@ == s);
            },
        }
    }
    if exists|i: int| 0 <= i < 8 && (#[trigger] Verb::ALL_TOKENS@[i])@ == s {
        assert(Verb::Triage.token() == "triage"@);
        assert(Verb::Diagnose.token() == "diagnose"@);
        assert(Verb::Plan.token() == "plan"@);
        assert(Verb::Implement.token() == "implement"@);
        assert(Verb::Review.token() == "review"@);
        assert(Verb::Refactor.token() == "refactor"@);
        assert(Verb::Explain.token() == "explain"@);
        assert(Verb::Compose.token() == "compose"@);
    }
}

/// The action that a script performs. The set is closed.
#[derive(Debug, Clone, Copy, PartialEq, Eq, Structural)]
pub enum ScriptVerb {
    Build,
    Test,
    Deploy,
    Format,
    Lint,
    Install,
    Verify,
    Run,
}

impl ScriptVerb {
    /// The tokens, in order.
    pub const ALL_TOKENS: [&'static str; 8] = ["build", "test", "deploy", "format", "lint", "install", "verify", "run"];

    /// The token.
    pub open spec fn token(self) -> Seq<char> {
        match self {
            ScriptVerb::Build => "build"@,
            ScriptVerb::Test => "test"@,
            ScriptVerb::Deploy => "deploy"@,
            ScriptVerb::Format => "format"@,
            ScriptVerb::Lint => "lint"@,
            ScriptVerb::Install => "install"@,
            ScriptVerb::Verify => "verify"@,
            ScriptVerb::Run => "run"@,
        }
    }

    /// The token.
    pub fn as_token(self) -> (r: &'static str)
        ensures
            r@ == self.token(),
    {
        match self {
            ScriptVerb::Build => "build",
            ScriptVerb::Test => "test",
            ScriptVerb::Deploy => "deploy",
            ScriptVerb::Format => "format",
            ScriptVerb::Lint => "lint",
            ScriptVerb::Install => "install",
            ScriptVerb::Verify => "verify",
            ScriptVerb::Run => "run",
        }
    }

    /// What a token stands for. Anything but one of the tokens, as it is written,
    /// stands for nothing.
    pub fn from_token(token: &str) -> (r: Option<Self>)
        ensures
            r matches Some(v) ==> v.token() == token@,
            r is None ==> forall|v: ScriptVerb| #[trigger] v.token() != token@,
    {
        if text::str_eq(token, "build") {
            return Some(ScriptVerb::Build);
        }
        if text::str_eq(token, "test") {
            return Some(ScriptVerb::Test);
        }
        if text::str_eq(token, "deploy") {
            return Some(ScriptVerb::Deploy);
        }
        if text::str_eq(token, "format") {
            return Some(ScriptVerb::Format);
        }
        if text::str_eq(token, "lint") {
            return Some(ScriptVerb::Lint);
        }
        if text::str_eq(token, "install") {
            return Some(ScriptVerb::Install);
        }
        if text::str_eq(token, "verify") {
            return Some(ScriptVerb::Verify);
        }
        if text::str_eq(token, "run") {
            return Some(ScriptVerb::Run);
        }
        None
    }
}

/// Different values have different tokens, so that a token reads back as the
/// value that was written.
pub proof fn law_scriptverb_tokens_differ(a: ScriptVerb, b: ScriptVerb)
    requires
        a.token() == b.token(),
    ensures
        a == b,
{
    reveal_strlit("build");
    reveal_strlit("test");
    reveal_strlit("deploy");
    reveal_strlit("format");
    reveal_strlit("lint");
    reveal_strlit("install");
    reveal_strlit("verify");
    reveal_strlit("run");
    if a != b {
        let x = a.token();
        let y = b.token();
        assert(x.len() != y.len() || x[0] != y[0] || x[2] != y[2]);
    }
}

/// Every listed token is the token of a value, and the other way round.
pub proof fn law_scriptverb_tokens_listed(s: Seq<char>)
    ensures
        (exists|v: ScriptVerb| #[trigger] v.token() == s) == (exists|i: int|
            0 <= i < 8 && (#[trigger] ScriptVerb::ALL_TOKENS@[i])@ == s),
{
    if exists|v: ScriptVerb| #[trigger] v.token() == s {
        let v = choose|v: ScriptVerb| #[trigger] v.token() == s;
        match v {
            ScriptVerb::Build => {
                assert(ScriptVerb::ALL_TOKENS@[0]@ == s);
            },
            ScriptVerb::Test => {
                assert(ScriptVerb::ALL_TOKENS@[1]@ == s);
            },
            ScriptVerb::Deploy => {
                assert(ScriptVerb::ALL_TOKENS@[2]@ == s);
            },
            ScriptVerb::Format => {
                assert(ScriptVerb::ALL_TOKENS@[3]@ == s);
            },
            ScriptVerb::Lint => {
                assert(ScriptVerb::ALL_TOKENS@[4]@ == s);
            },
            ScriptVerb::Install => {
                assert(ScriptVerb::ALL_TOKENS@[5]@ == s);
            },
            ScriptVerb::Verify => {
                assert(ScriptVerb::ALL_TOKENS@[6]@ == s);
            },
            ScriptVerb::Run => {
                assert(ScriptVerb::ALL_TOKENS@[7]@ == s);
            },
        }
    }
    if exists|i: int| 0 <= i < 8 && (#[trigger] ScriptVerb::ALL_TOKENS@[i])@ == s {
        assert(ScriptVerb::Build.token() == "build"@);
        assert(ScriptVerb::Test.token() == "test"@);
        assert(ScriptVerb::Deploy.token() == "deploy"@);
        assert(ScriptVerb::Format.token() == "format"@);
        assert(ScriptVerb::Lint.token() == "lint"@);
        assert(ScriptVerb::Install.token() == "install"@);
        assert(ScriptVerb::Verify.token() == "verify"@);
        assert(ScriptVerb::Run.token() == "run"@);
    }
}

/// How settled a fragment is. The set is closed.
#[derive(Debug, Clone, Copy, PartialEq, Eq, Structural)]
pub enum Lifecycle {
    Experimental,
    Stable,
    Deprecated,
}

impl Lifecycle {
    /// The tokens, in order.
    pub const ALL_TOKENS: [&'static str; 3] = ["experimental", "stable", "deprecated"];

    /// The token.
    pub open spec fn token(self) -> Seq<char> {
        match self {
            Lifecycle::Experimental => "experimental"@,
            Lifecycle::Stable => "stable"@,
            Lifecycle::Deprecated => "deprecated"@,
        }
    }

    /// The token.
    pub fn as_token(self) -> (r: &'static str)
        ensures
            r@ == self.token(),
    {
        match self {
            Lifecycle::Experimental => "experimental",
            Lifecycle::Stable => "stable",
            Lifecycle::Deprecated => "deprecated",
        }
    }

    /// What a token stands for. Anything but one of the tokens, as it is written,
    /// stands for nothing.
    pub fn from_token(token: &str) -> (r: Option<Self>)
        ensures
            r matches Some(v) ==> v.token() == token@,
            r is None ==> forall|v: Lifecycle| #[trigger] v.token() != token@,
    {
        if text::str_eq(token, "experimental") {
            return Some(Lifecycle::Experimental);
        }
        if text::str_eq(token, "stable") {
            return Some(Lifecycle::Stable);
        }
        if text::str_eq(token, "deprecated") {
            return Some(Lifecycle::Deprecated);
        }
        None
    }
}

/// Different values have different tokens, so that a token reads back as the
/// value that was written.
pub proof fn law_lifecycle_tokens_differ(a: Lifecycle, b: Lifecycle)
    requires
        a.token() == b.token(),
    ensures
        a == b,
{
    reveal_strlit("experimental");
    reveal_strlit("stable");
    reveal_strlit("deprecated");
    if a != b {
        let x = a.token();
        let y = b.token();
        assert(x.len() != y.len() || x[0] != y[0] || x[2] != y[2]);
    }
}

/// Every listed token is the token of a value, and the other way round.
pub proof fn law_lifecycle_tokens_listed(s: Seq<char>)
    ensures
        (exists|v: Lifecycle| #[trigger] v.token() == s) == (exists|i: int|
            0 <= i < 3 && (#[trigger] Lifecycle::ALL_TOKENS@[i])@ == s),
{
    if exists|v: Lifecycle| #[trigger] v.token() == s {
        let v = choose|v: Lifecycle| #[trigger] v.token() == s;
        match v {
            Lifecycle::Experimental => {
                assert(Lifecycle::ALL_TOKENS@[0]@ == s);
            },
            Lifecycle::Stable => {
                assert(Lifecycle::ALL_TOKENS@[1]@ == s);
            },
            Lifecycle::Deprecated => {
                assert(Lifecycle::ALL_TOKENS@[2]@ == s);
            },
        }
    }
    if exists|i: int| 0 <= i < 3 && (#[trigger] Lifecycle::ALL_TOKENS@[i])@ == s {
        assert(Lifecycle::Experimental.token() == "experimental"@);
        assert(Lifecycle::Stable.token() == "stable"@);
        assert(Lifecycle::Deprecated.token() == "deprecated"@);
    }
}

/// The first segments that the subject of a guidance fragment may have: topics, and
/// one for each verb.
pub const BLESSED_SUBJECT_ROOTS: [&'static str; 13] = [
    "authoring",
    "debug",
    "deploy",
    "import",
    "lifecycle",
    "triage",
    "diagnose",
    "plan",
    "implement",
    "review",
    "refactor",
    "explain",
    "compose",
];

/// The first segments that the subject of a guidance fragment may have.
pub open spec fn blessed_roots() -> Seq<Seq<char>> {
    Seq::new(13, |i: int| BLESSED_SUBJECT_ROOTS@[i]@)
}

/// The first segments that the subject of a guidance fragment may have.
pub fn blessed_subject_roots() -> (r: Vec<String>)
    ensures
        text::texts(r@) == blessed_roots(),
{
    let mut out: Vec<String> = Vec::new();
    let mut i: usize = 0;
    while i < 13
        invariant
            i <= 13,
            text::texts(out@) == blessed_roots().take(i as int),
        decreases 13 - i,
    {
        let s = BLESSED_SUBJECT_ROOTS[i].to_owned();
        proof {
            text::lemma_texts_push(out@, s);
        }
        out.push(s);
        i = i + 1;
    }
    assert(blessed_roots().take(i as int) =~= blessed_roots());
    out
}

// ---------------------------------------------------------------------------
// Items
// ---------------------------------------------------------------------------

/// What to do next with an item.
#[derive(Debug, PartialEq)]
pub struct DiscoveryLink {
    pub rel: String,
    pub title: Option<String>,
    pub description: Option<String>,
    pub method: String,
    pub args: Value,
    pub input_schema: Option<Value>,
}

/// What to do next with an item, as mathematical values.
pub struct LinkView {
    pub rel: Seq<char>,
    pub title: Option<Seq<char>>,
    pub description: Option<Seq<char>>,
    pub method: Seq<char>,
    pub args: Json,
    pub input_schema: Option<Json>,
}

impl View for DiscoveryLink {
    type V = LinkView;

    open spec fn view(&self) -> LinkView {
        LinkView {
            rel: self.rel@,
            title: text::opt_text(self.title),
            description: text::opt_text(self.description),
            method: self.method@,
            args: self.args@,
            input_schema: json::opt_owned_view(self.input_schema),
        }
    }
}

impl DiscoveryLink {
    /// A copy of the link.
    pub fn dup(&self) -> (r: DiscoveryLink)
        ensures
            r@ == self@,
    {
        DiscoveryLink {
            rel: self.rel.clone(),
            title: text::opt_copy(&self.title),
            description: text::opt_copy(&self.description),
            method: self.method.clone(),
            args: self.args.dup(),
            input_schema: match &self.input_schema {
                Some(v) => Some(v.dup()),
                None => None,
            },
        }
    }
}

/// Something that can be discovered.
#[derive(Debug, PartialEq)]
pub struct DiscoveryItem {
    pub id: String,
    pub kind: DiscoveryKind,
    pub title: String,
    pub description: String,
    pub tags: Vec<String>,
    pub examples: Vec<String>,
    /// Synonyms, found like tags.
    pub aliases: Vec<String>,
    /// Further text to search.
    pub text: String,
    pub links: Vec<DiscoveryLink>,
    /// The verb of a guidance fragment.
    pub verb: Option<String>,
    /// The body of a guidance fragment.
    pub body: Option<String>,
    /// Where a guidance fragment comes from.
    pub source: Option<String>,
}

/// Something that can be discovered, as mathematical values.
pub struct ItemView {
    pub id: Seq<char>,
    pub kind: DiscoveryKind,
    pub title: Seq<char>,
    pub description: Seq<char>,
    pub tags: Seq<Seq<char>>,
    pub examples: Seq<Seq<char>>,
    pub aliases: Seq<Seq<char>>,
    pub text: Seq<char>,
    pub links: Seq<LinkView>,
    pub verb: Option<Seq<char>>,
    pub body: Option<Seq<char>>,
    pub source: Option<Seq<char>>,
}

/// The links of an item.
pub open spec fn link_views(s: Seq<DiscoveryLink>) -> Seq<LinkView> {
    Seq::new(s.len(), |i: int| s[i]@)
}

impl View for DiscoveryItem {
    type V = ItemView;

    open spec fn view(&self) -> ItemView {
        ItemView {
            id: self.id@,
            kind: self.kind,
            title: self.title@,
            description: self.description@,
            tags: text::texts(self.tags@),
            examples: text::texts(self.examples@),
            aliases: text::texts(self.aliases@),
            text: self.text@,
            links: link_views(self.links@),
            verb: text::opt_text(self.verb),
            body: text::opt_text(self.body),
            source: text::opt_text(self.source),
        }
    }
}

fn copy_links(v: &Vec<DiscoveryLink>) -> (r: Vec<DiscoveryLink>)
    ensures
        link_views(r@) == link_views(v@),
{
    let mut out: Vec<DiscoveryLink> = Vec::new();
    let mut i: usize = 0;
    while i < v.len()
        invariant
            i <= v.len(),
            link_views(out@) == link_views(v@).take(i as int),
        decreases v.len() - i,
    {
        let x = v[i].dup();
        assert(link_views(out@.push(x)) =~= link_views(out@).push(x@));
        out.push(x);
        i = i + 1;
    }
    assert(link_views(v@).take(i as int) =~= link_views(v@));
    out
}

impl DiscoveryItem {
    /// A copy of the item.
    pub fn dup(&self) -> (r: DiscoveryItem)
        ensures
            r@ == self@,
    {
        DiscoveryItem {
            id: self.id.clone(),
            kind: self.kind,
            title: self.title.clone(),
            description: self.description.clone(),
            tags: text::copy_texts(&self.tags),
            examples: text::copy_texts(&self.examples),
            aliases: text::copy_texts(&self.aliases),
            text: self.text.clone(),
            links: copy_links(&self.links),
            verb: text::opt_copy(&self.verb),
            body: text::opt_copy(&self.body),
            source: text::opt_copy(&self.source),
        }
    }
}

/// The items, in order.
pub open spec fn items(s: Seq<DiscoveryItem>) -> Seq<ItemView> {
    Seq::new(s.len(), |i: int| s[i]@)
}

/// A found item. The score is held as the bits of a number that is not negative, so
/// that a greater score has greater bits.
#[derive(Debug, PartialEq)]
pub struct SearchHit {
    pub score: u32,
    pub item: DiscoveryItem,
}

/// A found item, as mathematical values.
pub struct HitView {
    pub score: u32,
    pub item: ItemView,
}

impl View for SearchHit {
    type V = HitView;

    open spec fn view(&self) -> HitView {
        HitView { score: self.score, item: self.item@ }
    }
}

/// The hits, in order.
pub open spec fn hits(s: Seq<SearchHit>) -> Seq<HitView> {
    Seq::new(s.len(), |i: int| s[i]@)
}

/// What to search for.
#[derive(Debug, Clone, PartialEq, Eq)]
pub struct SearchRequest {
    pub query: String,
    pub kind: Option<DiscoveryKind>,
    /// How many items to return at most; zero stands for ten.
    pub limit: usize,
}

// ---------------------------------------------------------------------------
// Terms and matches
// ---------------------------------------------------------------------------

/// The longest runs of letters and digits in a text.
pub open spec fn tokens(s: Seq<char>) -> Seq<Seq<char>>
    decreases s.len(),
{
    if s.len() == 0 {
        Seq::empty()
    } else {
        let before = tokens(s.drop_last());
        if !text::char_is_alphanumeric(s.last()) {
            before
        } else if s.len() >= 2 && text::char_is_alphanumeric(s[s.len() - 2]) {
            before.drop_last().push(before.last().push(s.last()))
        } else {
            before.push(seq![s.last()])
        }
    }
}

/// The longest runs of letters and digits in a text.
fn tokens_of(s: &str) -> (r: Vec<String>)
    ensures
        text::texts(r@) == tokens(s@),
{
    let cs = text::chars_of(s);
    let mut out: Vec<String> = Vec::new();
    let mut cur: String = String::new();
    let mut open: bool = false;
    let mut i: usize = 0;
    assert(s@.take(0) =~= Seq::empty());
    assert(text::texts(out@) =~= tokens(s@.take(0)));
    while i < cs.len()
        invariant
            i <= cs.len(),
            cs@ == s@,
            open == (i > 0 && text::char_is_alphanumeric(s@[i - 1])),
            open ==> text::texts(out@).push(cur@) == tokens(s@.take(i as int)),
            !open ==> text::texts(out@) == tokens(s@.take(i as int)) && cur@.len() == 0,
        decreases cs.len() - i,
    {
        let c = cs[i];
        let ghost pre = s@.take(i as int);
        let ghost next = s@.take(i + 1);
        proof {
            assert(next.drop_last() =~= pre);
            assert(next.last() == c);
            if i > 0 {
                assert(next[next.len() - 2] == s@[i - 1]);
            }
        }
        if c.is_alphanumeric() {
            let ghost before = cur@;
            cur.push(c);
            proof {
                if open {
                    let all = text::texts(out@).push(before);
                    assert(all.drop_last() =~= text::texts(out@));
                    assert(all.last() == before);
                } else {
                    assert(cur@ =~= seq![c]);
                }
            }
            open = true;
        } else {
            if open {
                proof {
                    text::lemma_texts_push(out@, cur);
                }
                out.push(cur);
                cur = String::new();
            }
            open = false;
        }
        i = i + 1;
    }
    assert(s@.take(i as int) =~= s@);
    if open {
        proof {
            text::lemma_texts_push(out@, cur);
        }
        out.push(cur);
    }
    out
}

/// The search terms of a query.
pub fn tokenize(s: &str) -> (r: Vec<String>)
    ensures
        text::texts(r@) == tokens(text::lowercase_text(s@)),
{
    let low = s.to_lowercase();
    tokens_of(low.as_str())
}

/// The order of three bytes.
pub open spec fn triple_lt(a: (u8, u8, u8), b: (u8, u8, u8)) -> bool {
    a.0 < b.0 || a.0 == b.0 && (a.1 < b.1 || a.1 == b.1 && a.2 < b.2)
}

/// Three bytes in a row, at some position.
pub open spec fn has_trigram(bytes: Seq<u8>, t: (u8, u8, u8)) -> bool {
    exists|i: int|
        0 <= i < bytes.len() - 2 && (#[trigger] bytes[i], bytes[i + 1], bytes[i + 2]) == t
}

/// The list holds each in strictly increasing order.
pub open spec fn increasing(s: Seq<(u8, u8, u8)>) -> bool {
    forall|i: int, j: int| 0 <= i < j < s.len() ==> triple_lt(#[trigger] s[i], #[trigger] s[j])
}

fn lt(a: (u8, u8, u8), b: (u8, u8, u8)) -> (r: bool)
    ensures
        r == triple_lt(a, b),
{
    a.0 < b.0 || (a.0 == b.0 && (a.1 < b.1 || (a.1 == b.1 && a.2 < b.2)))
}

/// An increasing list with a triple added, unless it is there.
pub open spec fn added(s: Seq<(u8, u8, u8)>, t: (u8, u8, u8)) -> Seq<(u8, u8, u8)>
    decreases s.len(),
{
    if s.len() == 0 {
        seq![t]
    } else if s[0] == t {
        s
    } else if triple_lt(t, s[0]) {
        seq![t] + s
    } else {
        seq![s[0]] + added(s.skip(1), t)
    }
}

/// Adding a triple adds that member and keeps the order.
pub proof fn lemma_added(s: Seq<(u8, u8, u8)>, t: (u8, u8, u8))
    ensures
        forall|x: (u8, u8, u8)| #[trigger] added(s, t).contains(x) == (s.contains(x) || x == t),
        increasing(s) ==> increasing(added(s, t)),
    decreases s.len(),
{
    let a = added(s, t);
    if s.len() == 0 {
        assert(a[0] == t);
        assert(a.contains(t));
    } else if s[0] == t {
        assert(s.contains(t));
    } else if triple_lt(t, s[0]) {
        assert(a[0] == t);
        assert forall|x: (u8, u8, u8)| #[trigger] a.contains(x) == (s.contains(x) || x == t) by {
            if s.contains(x) {
                let k = choose|k: int| 0 <= k < s.len() && s[k] == x;
                assert(a[k + 1] == x);
            }
            if a.contains(x) && x != t {
                let k = choose|k: int| 0 <= k < a.len() && a[k] == x;
                assert(s[k - 1] == x);
            }
        }
        if increasing(s) {
            assert forall|i: int, j: int| 0 <= i < j < a.len() implies triple_lt(
                #[trigger] a[i],
                #[trigger] a[j],
            ) by {
                assert(a[j] == s[j - 1]);
                if i > 0 {
                    assert(a[i] == s[i - 1]);
                } else if j > 1 {
                    assert(triple_lt(s[0], s[j - 1]));
                }
            }
        }
    } else {
        let rest = s.skip(1);
        let r = added(rest, t);
        lemma_added(rest, t);
        assert forall|x: (u8, u8, u8)| #[trigger] a.contains(x) == (s.contains(x) || x == t) by {
            if s.contains(x) {
                let k = choose|k: int| 0 <= k < s.len() && s[k] == x;
                if k == 0 {
                    assert(a[0] == x);
                } else {
                    assert(rest[k - 1] == x);
                    assert(r.contains(x));
                    let m = choose|m: int| 0 <= m < r.len() && r[m] == x;
                    assert(a[m + 1] == x);
                }
            }
            if x == t {
                assert(r.contains(x));
                let m = choose|m: int| 0 <= m < r.len() && r[m] == x;
                assert(a[m + 1] == x);
            }
            if a.contains(x) && x != t {
                let k = choose|k: int| 0 <= k < a.len() && a[k] == x;
                if k == 0 {
                    assert(s[0] == x);
                } else {
                    assert(r[k - 1] == x);
                    assert(r.contains(x));
                    let m = choose|m: int| 0 <= m < rest.len() && rest[m] == x;
                    assert(s[m + 1] == x);
                }
            }
        }
        if increasing(s) {
            assert forall|i: int, j: int| 0 <= i < j < rest.len() implies triple_lt(
                #[trigger] rest[i],
                #[trigger] rest[j],
            ) by {
                assert(rest[i] == s[i + 1] && rest[j] == s[j + 1]);
            }
            assert forall|i: int, j: int| 0 <= i < j < a.len() implies triple_lt(
                #[trigger] a[i],
                #[trigger] a[j],
            ) by {
                assert(a[j] == r[j - 1]);
                if i > 0 {
                    assert(a[i] == r[i - 1]);
                } else {
                    assert(r.contains(r[j - 1]));
                    if r[j - 1] != t {
                        let m = choose|m: int| 0 <= m < rest.len() && rest[m] == r[j - 1];
                        assert(s[m + 1] == r[j - 1]);
                    }
                }
            }
        }
    }
}

/// Adds a triple to an increasing list, unless it is there.
fn add_triple(v: &mut Vec<(u8, u8, u8)>, t: (u8, u8, u8))
    ensures
        final(v)@ == added(old(v)@, t),
{
    let ghost e = v@;
    let mut i: usize = 0;
    assert(e.skip(0) =~= e);
    assert(e.take(0) + added(e, t) =~= added(e, t));
    while i < v.len()
        invariant
            i <= v.len(),
            v@ == e,
            e == old(v)@,
            e.take(i as int) + added(e.skip(i as int), t) == added(e, t),
        decreases v.len() - i,
    {
        let ghost rest = e.skip(i as int);
        if v[i].0 == t.0 && v[i].1 == t.1 && v[i].2 == t.2 {
            assert(e.take(i as int) + rest =~= e);
            return;
        }
        if lt(t, v[i]) {
            v.insert(i, t);
            assert(v@ =~= e.take(i as int) + (seq![t] + rest));
            return;
        }
        assert(rest.skip(1) =~= e.skip(i + 1));
        assert(e.take(i as int) + (seq![rest[0]] + added(e.skip(i + 1), t)) =~= e.take(i + 1)
            + added(e.skip(i + 1), t));
        i = i + 1;
    }
    v.push(t);
    assert(v@ =~= e.take(i as int) + seq![t]);
}

/// The distinct runs of three bytes among the first `n`, in increasing order.
pub open spec fn trigrams_upto(bytes: Seq<u8>, n: int) -> Seq<(u8, u8, u8)>
    decreases n,
{
    if n <= 0 {
        Seq::empty()
    } else {
        added(trigrams_upto(bytes, n - 1), (bytes[n - 1], bytes[n], bytes[n + 1]))
    }
}

/// The distinct runs of three bytes in a text, in increasing order.
pub open spec fn trigram_list(s: Seq<char>) -> Seq<(u8, u8, u8)> {
    let bytes = vstd::utf8::encode_utf8(s);
    trigrams_upto(bytes, bytes.len() - 2)
}

/// The runs of three bytes are all listed, once each and in order.
pub proof fn law_trigrams(s: Seq<char>, t: (u8, u8, u8))
    ensures
        increasing(trigram_list(s)),
        trigram_list(s).contains(t) == has_trigram(vstd::utf8::encode_utf8(s), t),
{
    let b = vstd::utf8::encode_utf8(s);
    lemma_trigrams_upto(b, b.len() - 2, t);
}

proof fn lemma_trigrams_upto(b: Seq<u8>, n: int, t: (u8, u8, u8))
    ensures
        increasing(trigrams_upto(b, n)),
        trigrams_upto(b, n).contains(t) == (exists|k: int|
            0 <= k < n && (#[trigger] b[k], b[k + 1], b[k + 2]) == t),
    decreases n,
{
    if n > 0 {
        lemma_trigrams_upto(b, n - 1, t);
        lemma_added(trigrams_upto(b, n - 1), (b[n - 1], b[n], b[n + 1]));
        if (b[n - 1], b[n], b[n + 1]) == t {
            assert((b[n - 1], b[n - 1 + 1], b[n - 1 + 2]) == t);
        }
    }
}

/// A strictly increasing list of triples of bytes has at most 256 * 256 * 256
/// members.
proof fn lemma_increasing_len(s: Seq<(u8, u8, u8)>, n: int)
    requires
        increasing(s),
        0 <= n < s.len(),
    ensures
        s[n].0 as int * 65536 + s[n].1 as int * 256 + s[n].2 as int >= n,
    decreases n,
{
    if n > 0 {
        lemma_increasing_len(s, n - 1);
        assert(triple_lt(s[n - 1], s[n]));
    }
}

/// A strictly increasing list of triples of bytes is not longer than there are
/// triples.
proof fn lemma_increasing_bound(t: Seq<(u8, u8, u8)>)
    requires
        increasing(t),
    ensures
        t.len() <= 16777216,
{
    if t.len() > 0 {
        let n = t.len() - 1;
        lemma_increasing_len(t, n);
        let (x, y, z) = t[n];
        assert(x as int * 65536 + y as int * 256 + z as int <= 255 * 65536 + 255 * 256 + 255);
    }
}

/// The distinct runs of three bytes in a text, in increasing order.
pub fn trigrams(s: &str) -> (r: Vec<(u8, u8, u8)>)
    ensures
        r@ == trigram_list(s@),
{
    let bytes = s.as_bytes();
    let mut out: Vec<(u8, u8, u8)> = Vec::new();
    if bytes.len() < 3 {
        return out;
    }
    let n: usize = bytes.len() - 2;
    let mut i: usize = 0;
    while i < n
        invariant
            i <= n,
            n == bytes.len() - 2,
            out@ == trigrams_upto(bytes@, i as int),
        decreases n - i,
    {
        add_triple(&mut out, (bytes[i], bytes[i + 1], bytes[i + 2]));
        i = i + 1;
    }
    out
}

/// How many of the first `n` members of `a` are members of `b`.
pub open spec fn shared(a: Seq<(u8, u8, u8)>, b: Seq<(u8, u8, u8)>, n: int) -> int
    decreases n,
{
    if n <= 0 {
        0
    } else {
        shared(a, b, n - 1) + (if b.contains(a[n - 1]) {
            1int
        } else {
            0
        })
    }
}

/// How alike two texts are, as a fraction: the runs of three bytes that they share,
/// out of all that either has. Two texts without any are alike; one without any is
/// unlike one with some.
pub open spec fn likeness(a: Seq<char>, b: Seq<char>) -> (int, int) {
    let ta = trigram_list(a);
    let tb = trigram_list(b);
    if ta.len() == 0 && tb.len() == 0 {
        (1, 1)
    } else if ta.len() == 0 || tb.len() == 0 {
        (0, 1)
    } else {
        let i = shared(ta, tb, ta.len() as int);
        (i, ta.len() + tb.len() - i)
    }
}

fn has_triple(v: &Vec<(u8, u8, u8)>, t: (u8, u8, u8)) -> (r: bool)
    ensures
        r == v@.contains(t),
{
    let mut i: usize = 0;
    while i < v.len()
        invariant
            i <= v.len(),
            forall|j: int| 0 <= j < i ==> #[trigger] v@[j] != t,
        decreases v.len() - i,
    {
        if v[i].0 == t.0 && v[i].1 == t.1 && v[i].2 == t.2 {
            assert(v@[i as int] == t);
            return true;
        }
        i = i + 1;
    }
    false
}

/// How alike two texts are, as a fraction.
pub fn trigram_similarity(a: &str, b: &str) -> (r: (usize, usize))
    ensures
        (r.0 as int, r.1 as int) == likeness(a@, b@),
        r.1 > 0,
{
    let ta = trigrams(a);
    let tb = trigrams(b);
    if ta.len() == 0 && tb.len() == 0 {
        return (1, 1);
    }
    if ta.len() == 0 || tb.len() == 0 {
        return (0, 1);
    }
    let mut both: usize = 0;
    let mut i: usize = 0;
    while i < ta.len()
        invariant
            i <= ta.len(),
            both <= i,
            both == shared(ta@, tb@, i as int),
        decreases ta.len() - i,
    {
        if has_triple(&tb, ta[i]) {
            both = both + 1;
        }
        i = i + 1;
    }
    proof {
        lemma_trigrams_upto(vstd::utf8::encode_utf8(a@), vstd::utf8::encode_utf8(a@).len() - 2, (0, 0, 0));
        lemma_trigrams_upto(vstd::utf8::encode_utf8(b@), vstd::utf8::encode_utf8(b@).len() - 2, (0, 0, 0));
        lemma_increasing_bound(ta@);
        lemma_increasing_bound(tb@);
    }
    (both, (ta.len() - both) + tb.len())
}

/// How a term matches a field.
#[derive(Debug, PartialEq, Eq)]
pub enum FieldMatch {
    /// The field contains the term.
    Contains,
    /// A word of the field begins with the term.
    Prefix,
    /// How alike the term is to each word of the field, as fractions.
    Similar(Vec<(usize, usize)>),
    Nothing,
}

/// How a term matches a field, as mathematical values.
pub enum MatchView {
    Contains,
    Prefix,
    Similar(Seq<(int, int)>),
    Nothing,
}

/// Fractions as pairs of numbers.
pub open spec fn fractions(s: Seq<(usize, usize)>) -> Seq<(int, int)> {
    Seq::new(s.len(), |i: int| (s[i].0 as int, s[i].1 as int))
}

impl View for FieldMatch {
    type V = MatchView;

    open spec fn view(&self) -> MatchView {
        match self {
            FieldMatch::Contains => MatchView::Contains,
            FieldMatch::Prefix => MatchView::Prefix,
            FieldMatch::Similar(v) => MatchView::Similar(fractions(v@)),
            FieldMatch::Nothing => MatchView::Nothing,
        }
    }
}

/// How alike a term is to each word.
pub open spec fn likenesses(term: Seq<char>, words: Seq<Seq<char>>) -> Seq<(int, int)> {
    Seq::new(words.len(), |i: int| likeness(term, words[i]))
}

/// How a term matches a field. Likeness counts for terms of four bytes or more.
pub open spec fn field_match(field: Seq<char>, term: Seq<char>) -> MatchView {
    let n = vstd::utf8::encode_utf8(term).len();
    let words = tokens(field);
    if text::has_sub(field, term) {
        MatchView::Contains
    } else if n >= 2 && exists|i: int|
        0 <= i < words.len() && term.is_prefix_of(#[trigger] words[i]) {
        MatchView::Prefix
    } else if n >= 4 {
        MatchView::Similar(likenesses(term, words))
    } else {
        MatchView::Nothing
    }
}

/// How a term matches a field.
pub fn match_field(field: &str, term: &str) -> (r: FieldMatch)
    ensures
        r@ == field_match(field@, term@),
{
    if text::contains_text(field, term) {
        return FieldMatch::Contains;
    }
    let words = tokens_of(field);
    let ghost ws = text::texts(words@);
    let n: usize = term.as_bytes().len();
    if n >= 2 {
        let mut i: usize = 0;
        while i < words.len()
            invariant
                i <= words.len(),
                ws == text::texts(words@),
                ws == tokens(field@),
                n == vstd::utf8::encode_utf8(term@).len(),
                n >= 2,
                !text::has_sub(field@, term@),
                forall|j: int| 0 <= j < i ==> !term@.is_prefix_of(#[trigger] ws[j]),
            decreases words.len() - i,
        {
            assert(ws[i as int] == words@[i as int]@);
            if text::starts_with(words[i].as_str(), term) {
                return FieldMatch::Prefix;
            }
            i = i + 1;
        }
    }
    if n >= 4 {
        let mut out: Vec<(usize, usize)> = Vec::new();
        let mut i: usize = 0;
        while i < words.len()
            invariant
                i <= words.len(),
                ws == text::texts(words@),
                fractions(out@) == likenesses(term@, ws).take(i as int),
            decreases words.len() - i,
        {
            assert(ws[i as int] == words@[i as int]@);
            let f = trigram_similarity(term, words[i].as_str());
            assert(fractions(out@.push(f)) =~= fractions(out@).push((f.0 as int, f.1 as int)));
            out.push(f);
            i = i + 1;
        }
        assert(likenesses(term@, ws).take(i as int) =~= likenesses(term@, ws));
        return FieldMatch::Similar(out);
    }
    FieldMatch::Nothing
}

/// How a term matches the fields of an item.
#[derive(Debug, PartialEq, Eq)]
pub struct TermMatch {
    pub title: FieldMatch,
    pub id: FieldMatch,
    pub tags: FieldMatch,
    pub aliases: FieldMatch,
    pub description: FieldMatch,
    pub text: FieldMatch,
}

/// How a term matches the fields of an item, as mathematical values.
pub struct TermView {
    pub title: MatchView,
    pub id: MatchView,
    pub tags: MatchView,
    pub aliases: MatchView,
    pub description: MatchView,
    pub text: MatchView,
}

impl View for TermMatch {
    type V = TermView;

    open spec fn view(&self) -> TermView {
        TermView {
            title: self.title@,
            id: self.id@,
            tags: self.tags@,
            aliases: self.aliases@,
            description: self.description@,
            text: self.text@,
        }
    }
}

/// How a term matches an item, case aside. Tags and aliases count as one text each.
pub open spec fn term_match(d: ItemView, term: Seq<char>) -> TermView {
    TermView {
        title: field_match(text::lowercase_text(d.title), term),
        id: field_match(text::lowercase_text(d.id), term),
        tags: field_match(text::lowercase_text(text::spaced(d.tags)), term),
        aliases: field_match(text::lowercase_text(text::spaced(d.aliases)), term),
        description: field_match(text::lowercase_text(d.description), term),
        text: field_match(text::lowercase_text(d.text), term),
    }
}

/// How each term matches an item.
pub open spec fn term_matches(d: ItemView, terms: Seq<Seq<char>>) -> Seq<TermView> {
    Seq::new(terms.len(), |i: int| term_match(d, terms[i]))
}

/// The matches of the terms, in order.
pub open spec fn matches_of(s: Seq<TermMatch>) -> Seq<TermView> {
    Seq::new(s.len(), |i: int| s[i]@)
}

/// How each term matches an item: what its score is made of.
pub fn match_doc(doc: &DiscoveryItem, terms: &Vec<String>) -> (r: Vec<TermMatch>)
    ensures
        matches_of(r@) == term_matches(doc@, text::texts(terms@)),
{
    let title = doc.title.to_lowercase();
    let id = doc.id.to_lowercase();
    let description = doc.description.to_lowercase();
    let more = doc.text.to_lowercase();
    let all_tags = text::join_spaced(&doc.tags);
    let tags = all_tags.to_lowercase();
    let all_aliases = text::join_spaced(&doc.aliases);
    let aliases = all_aliases.to_lowercase();
    let ghost ts = text::texts(terms@);
    let ghost want = term_matches(doc@, ts);
    let mut out: Vec<TermMatch> = Vec::new();
    let mut i: usize = 0;
    while i < terms.len()
        invariant
            i <= terms.len(),
            ts == text::texts(terms@),
            want == term_matches(doc@, ts),
            title@ == text::lowercase_text(doc@.title),
            id@ == text::lowercase_text(doc@.id),
            tags@ == text::lowercase_text(text::spaced(doc@.tags)),
            aliases@ == text::lowercase_text(text::spaced(doc@.aliases)),
            description@ == text::lowercase_text(doc@.description),
            more@ == text::lowercase_text(doc@.text),
            matches_of(out@) == want.take(i as int),
        decreases terms.len() - i,
    {
        let term = terms[i].as_str();
        assert(ts[i as int] == terms@[i as int]@);
        let m = TermMatch {
            title: match_field(title.as_str(), term),
            id: match_field(id.as_str(), term),
            tags: match_field(tags.as_str(), term),
            aliases: match_field(aliases.as_str(), term),
            description: match_field(description.as_str(), term),
            text: match_field(more.as_str(), term),
        };
        assert(m@ == want[i as int]);
        assert(matches_of(out@.push(m)) =~= matches_of(out@).push(m@));
        out.push(m);
        i = i + 1;
    }
    assert(want.take(i as int) =~= want);
    out
}

// ---------------------------------------------------------------------------
// The index
// ---------------------------------------------------------------------------

/// Whether an item is of the kind that is asked for. Guidance is found only where it
/// is asked for.
pub open spec fn wanted(kind: Option<DiscoveryKind>, k: DiscoveryKind) -> bool {
    match kind {
        Some(w) => w == k,
        None => k != DiscoveryKind::Guidance,
    }
}

fn is_wanted(kind: Option<DiscoveryKind>, k: DiscoveryKind) -> (r: bool)
    ensures
        r == wanted(kind, k),
{
    match kind {
        Some(w) => w == k,
        None => k != DiscoveryKind::Guidance,
    }
}

/// The score of one, as bits.
pub const FULL_SCORE: u32 = 0x3f80_0000;

/// The items of the first `n` that a search finds, with their scores. A search
/// without terms finds every item of the kind, each with a score of one; another
/// finds those with a score above zero.
pub open spec fn found(
    docs: Seq<ItemView>,
    kind: Option<DiscoveryKind>,
    all: bool,
    scores: Seq<u32>,
    n: int,
) -> Seq<HitView>
    decreases n,
{
    if n <= 0 {
        Seq::empty()
    } else {
        let before = found(docs, kind, all, scores, n - 1);
        let d = docs[n - 1];
        if wanted(kind, d.kind) && (all || scores[n - 1] > 0) {
            before.push(
                HitView {
                    score: if all {
                        FULL_SCORE
                    } else {
                        scores[n - 1]
                    },
                    item: d,
                },
            )
        } else {
            before
        }
    }
}

/// A hit that comes before another: by greater score, then by lesser id.
pub open spec fn ahead(a: HitView, b: HitView) -> bool {
    a.score > b.score || a.score == b.score && text::text_lt(a.item.id, b.item.id)
}

/// A ranked list with a hit placed before the first one that it is ahead of.
pub open spec fn placed(s: Seq<HitView>, x: HitView) -> Seq<HitView>
    decreases s.len(),
{
    if s.len() == 0 {
        seq![x]
    } else if ahead(x, s[0]) {
        seq![x] + s
    } else {
        seq![s[0]] + placed(s.skip(1), x)
    }
}

/// The first `n` hits in order of rank. Hits of equal rank stay as they were.
pub open spec fn ranked(s: Seq<HitView>, n: int) -> Seq<HitView>
    decreases n,
{
    if n <= 0 {
        Seq::empty()
    } else {
        placed(ranked(s, n - 1), s[n - 1])
    }
}

/// The first `limit` hits; ten for a limit of zero.
pub open spec fn limited(s: Seq<HitView>, limit: usize) -> Seq<HitView> {
    let n = if limit == 0 {
        10
    } else {
        limit as int
    };
    if s.len() <= n {
        s
    } else {
        s.take(n)
    }
}

/// No hit is ahead of one that stands before it.
pub open spec fn in_rank_order(s: Seq<HitView>) -> bool {
    forall|i: int, j: int| 0 <= i < j < s.len() ==> !ahead(#[trigger] s[j], #[trigger] s[i])
}

/// Being behind is transitive.
proof fn lemma_ahead(a: HitView, b: HitView, c: HitView)
    requires
        !ahead(b, a),
        !ahead(c, b),
    ensures
        !ahead(c, a),
{
    text::lemma_text_lt_total(a.item.id, b.item.id, 0);
    text::lemma_text_lt_total(b.item.id, c.item.id, 0);
    text::lemma_text_lt_total(a.item.id, c.item.id, 0);
    if a.score == b.score && b.score == c.score && text::text_lt(c.item.id, a.item.id) {
        if text::text_lt(a.item.id, b.item.id) {
            text::lemma_text_lt_trans(c.item.id, a.item.id, b.item.id, 0);
        } else {
            assert(a.item.id == b.item.id);
        }
    }
}

/// Of two hits at most one is ahead of the other.
proof fn lemma_ahead_one_way(a: HitView, b: HitView)
    requires
        ahead(a, b),
    ensures
        !ahead(b, a),
{
    text::lemma_text_lt_total(a.item.id, b.item.id, 0);
}

/// Placing a hit keeps the ranking and adds exactly that hit.
proof fn lemma_placed(s: Seq<HitView>, x: HitView)
    requires
        in_rank_order(s),
    ensures
        in_rank_order(placed(s, x)),
        placed(s, x).to_multiset() == s.to_multiset().insert(x),
        forall|i: int|
            0 <= i < placed(s, x).len() ==> (#[trigger] placed(s, x)[i]) == x || s.contains(
                placed(s, x)[i],
            ),
    decreases s.len(),
{
    broadcast use vstd::seq_lib::group_to_multiset_ensures;

    let p = placed(s, x);
    if s.len() == 0 {
        assert(p =~= s.push(x));
    } else if ahead(x, s[0]) {
        assert(p =~= s.insert(0, x));
        assert(s.insert(0, x).to_multiset() =~= s.to_multiset().insert(x));
        assert forall|i: int, j: int| 0 <= i < j < p.len() implies !ahead(
            #[trigger] p[j],
            #[trigger] p[i],
        ) by {
            assert(p[j] == s[j - 1]);
            lemma_ahead_one_way(x, s[0]);
            if i > 0 {
                assert(p[i] == s[i - 1]);
            } else if j > 1 {
                lemma_ahead(x, s[0], s[j - 1]);
            }
        }
        assert forall|i: int| 0 <= i < p.len() implies (#[trigger] p[i]) == x || s.contains(
            p[i],
        ) by {
            if i > 0 {
                assert(p[i] == s[i - 1]);
            }
        }
    } else {
        let rest = s.skip(1);
        let q = placed(rest, x);
        assert forall|i: int, j: int| 0 <= i < j < rest.len() implies !ahead(
            #[trigger] rest[j],
            #[trigger] rest[i],
        ) by {
            assert(rest[i] == s[i + 1] && rest[j] == s[j + 1]);
        }
        lemma_placed(rest, x);
        assert(p =~= q.insert(0, s[0]));
        assert(s =~= rest.insert(0, s[0]));
        assert(q.insert(0, s[0]).to_multiset() =~= q.to_multiset().insert(s[0]));
        assert(rest.insert(0, s[0]).to_multiset() =~= rest.to_multiset().insert(s[0]));
        assert(p.to_multiset() =~= s.to_multiset().insert(x));
        assert forall|i: int| 0 <= i < p.len() implies (#[trigger] p[i]) == x || s.contains(
            p[i],
        ) by {
            if i == 0 {
                assert(p[0] == s[0]);
            } else {
                assert(p[i] == q[i - 1]);
                if q[i - 1] != x {
                    let k = choose|k: int| 0 <= k < rest.len() && rest[k] == q[i - 1];
                    assert(s[k + 1] == p[i]);
                }
            }
        }
        assert forall|i: int, j: int| 0 <= i < j < p.len() implies !ahead(
            #[trigger] p[j],
            #[trigger] p[i],
        ) by {
            assert(p[j] == q[j - 1]);
            if i > 0 {
                assert(p[i] == q[i - 1]);
            } else {
                assert(p[0] == s[0]);
                if q[j - 1] != x {
                    let k = choose|k: int| 0 <= k < rest.len() && rest[k] == q[j - 1];
                    assert(s[k + 1] == q[j - 1]);
                }
            }
        }
    }
}

/// Ranking puts the hits in order of rank, and neither adds nor loses one.
pub proof fn law_ranked(s: Seq<HitView>, n: int)
    requires
        0 <= n <= s.len(),
    ensures
        in_rank_order(ranked(s, n)),
        ranked(s, n).to_multiset() == s.take(n).to_multiset(),
    decreases n,
{
    broadcast use vstd::seq_lib::group_to_multiset_ensures;

    if n > 0 {
        law_ranked(s, n - 1);
        lemma_placed(ranked(s, n - 1), s[n - 1]);
        assert(s.take(n) =~= s.take(n - 1).push(s[n - 1]));
    } else {
        assert(s.take(0) =~= Seq::<HitView>::empty());
        assert(ranked(s, 0) =~= s.take(0));
    }
}

/// An index that is searched by words.
#[derive(Debug, PartialEq)]
pub struct InMemoryDiscoveryIndex {
    pub docs: Vec<DiscoveryItem>,
}

impl View for InMemoryDiscoveryIndex {
    type V = Seq<ItemView>;

    open spec fn view(&self) -> Seq<ItemView> {
        items(self.docs@)
    }
}

fn place(v: &mut Vec<SearchHit>, x: SearchHit)
    ensures
        hits(final(v)@) == placed(hits(old(v)@), x@),
{
    let ghost e = hits(v@);
    let ghost j = x@;
    let mut i: usize = 0;
    assert(e.skip(0) =~= e);
    assert(e.take(0) + placed(e, j) =~= placed(e, j));
    while i < v.len()
        invariant
            i <= v.len(),
            v@ == old(v)@,
            e == hits(v@),
            x@ == j,
            e.take(i as int) + placed(e.skip(i as int), j) == placed(e, j),
        decreases v.len() - i,
    {
        let ghost rest = e.skip(i as int);
        assert(rest[0] == v@[i as int]@);
        if x.score > v[i].score || (x.score == v[i].score && text::str_lt(
            x.item.id.as_str(),
            v[i].item.id.as_str(),
        )) {
            v.insert(i, x);
            assert(hits(v@) =~= e.take(i as int) + (seq![j] + rest));
            return;
        }
        assert(rest.skip(1) =~= e.skip(i + 1));
        assert(e.take(i as int) + (seq![rest[0]] + placed(e.skip(i + 1), j)) =~= e.take(i + 1)
            + placed(e.skip(i + 1), j));
        i = i + 1;
    }
    v.push(x);
    assert(e.take(i as int) =~= e);
    assert(hits(v@) =~= e + seq![j]);
}

impl Default for InMemoryDiscoveryIndex {
    /// An index without items.
    fn default() -> (r: Self)
        ensures
            r@ == Seq::<ItemView>::empty(),
    {
        let r = InMemoryDiscoveryIndex { docs: Vec::new() };
        assert(r@ =~= Seq::empty());
        r
    }
}

impl InMemoryDiscoveryIndex {
    /// An index of the items.
    pub fn new(items: Vec<DiscoveryItem>) -> (r: Self)
        ensures
            r@ == self::items(items@),
    {
        InMemoryDiscoveryIndex { docs: items }
    }

    /// Adds items.
    pub fn extend(&mut self, items: Vec<DiscoveryItem>)
        ensures
            final(self)@ == old(self)@ + self::items(items@),
    {
        let ghost a = self.docs@;
        let ghost b = items@;
        let mut more = items;
        self.docs.append(&mut more);
        assert(self::items(a + b) =~= self::items(a) + self::items(b));
    }

    /// How many items there are.
    pub fn len(&self) -> (r: usize)
        ensures
            r == self@.len(),
    {
        self.docs.len()
    }

    /// Whether there are no items.
    pub fn is_empty(&self) -> (r: bool)
        ensures
            r == (self@.len() == 0),
    {
        self.docs.len() == 0
    }

    /// The items that a request finds, in order of rank, as many as it asks for.
    /// `scores` holds the score of each item for the terms of the request.
    pub fn search(&self, request: &SearchRequest, scores: &Vec<u32>) -> (r: Vec<SearchHit>)
        requires
            scores.len() == self@.len(),
        ensures
            ({
                let all = tokens(text::lowercase_text(request.query@)).len() == 0;
                let f = found(self@, request.kind, all, scores@, self@.len() as int);
                hits(r@) == limited(ranked(f, f.len() as int), request.limit)
            }),
    {
        let terms = tokenize(request.query.as_str());
        let all = terms.len() == 0;
        let ghost f = found(self@, request.kind, all, scores@, self@.len() as int);
        let mut out: Vec<SearchHit> = Vec::new();
        let mut i: usize = 0;
        assert(hits(out@) =~= Seq::empty());
        while i < self.docs.len()
            invariant
                i <= self.docs.len(),
                scores.len() == self@.len(),
                hits(out@) == ranked(
                    found(self@, request.kind, all, scores@, i as int),
                    found(self@, request.kind, all, scores@, i as int).len() as int,
                ),
            decreases self.docs.len() - i,
        {
            let d = &self.docs[i];
            assert(self@[i as int] == d@);
            let ghost before = found(self@, request.kind, all, scores@, i as int);
            if is_wanted(request.kind, d.kind) && (all || scores[i] > 0) {
                let hit = SearchHit {
                    score: if all {
                        FULL_SCORE
                    } else {
                        scores[i]
                    },
                    item: d.dup(),
                };
                proof {
                    lemma_ranked_push(before, hit@);
                }
                place(&mut out, hit);
            }
            i = i + 1;
        }
        let limit: usize = if request.limit == 0 {
            10
        } else {
            request.limit
        };
        if out.len() > limit {
            out.truncate(limit);
            assert(hits(out@) =~= ranked(f, f.len() as int).take(limit as int));
        }
        out
    }

    /// The first item with the id.
    pub fn describe(&self, id: &str) -> (r: Option<DiscoveryItem>)
        ensures
            match r {
                Some(d) => exists|i: int|
                    0 <= i < self@.len() && (#[trigger] self@[i]) == d@ && d@.id == id@ && forall|
                        j: int,
                    |
                        0 <= j < i ==> (#[trigger] self@[j]).id != id@,
                None => forall|j: int| 0 <= j < self@.len() ==> (#[trigger] self@[j]).id != id@,
            },
    {
        let mut i: usize = 0;
        while i < self.docs.len()
            invariant
                i <= self.docs.len(),
                forall|j: int| 0 <= j < i ==> (#[trigger] self@[j]).id != id@,
            decreases self.docs.len() - i,
        {
            assert(self@[i as int] == self.docs@[i as int]@);
            if text::str_eq(self.docs[i].id.as_str(), id) {
                return Some(self.docs[i].dup());
            }
            i = i + 1;
        }
        None
    }

    /// The items of a kind, in order.
    pub fn list(&self, kind: Option<DiscoveryKind>) -> (r: Vec<DiscoveryItem>)
        ensures
            items(r@) == of_kind(self@, kind, self@.len() as int),
    {
        let mut out: Vec<DiscoveryItem> = Vec::new();
        let mut i: usize = 0;
        assert(items(out@) =~= Seq::empty());
        while i < self.docs.len()
            invariant
                i <= self.docs.len(),
                items(out@) == of_kind(self@, kind, i as int),
            decreases self.docs.len() - i,
        {
            let d = &self.docs[i];
            assert(self@[i as int] == d@);
            if is_wanted(kind, d.kind) {
                let c = d.dup();
                assert(items(out@.push(c)) =~= items(out@).push(c@));
                out.push(c);
            }
            i = i + 1;
        }
        out
    }
}

/// The items of a kind among the first `n`, in order.
pub open spec fn of_kind(docs: Seq<ItemView>, kind: Option<DiscoveryKind>, n: int) -> Seq<ItemView>
    decreases n,
{
    if n <= 0 {
        Seq::empty()
    } else if wanted(kind, docs[n - 1].kind) {
        of_kind(docs, kind, n - 1).push(docs[n - 1])
    } else {
        of_kind(docs, kind, n - 1)
    }
}

/// Ranking one hit more is placing it.
proof fn lemma_ranked_push(s: Seq<HitView>, x: HitView)
    ensures
        ranked(s.push(x), s.len() as int + 1) == placed(ranked(s, s.len() as int), x),
{
    lemma_ranked_prefix(s, x, s.len() as int);
}

proof fn lemma_ranked_prefix(s: Seq<HitView>, x: HitView, n: int)
    requires
        0 <= n <= s.len(),
    ensures
        ranked(s.push(x), n) == ranked(s, n),
    decreases n,
{
    if n > 0 {
        lemma_ranked_prefix(s, x, n - 1);
    }
}

// ---------------------------------------------------------------------------
// Home
// ---------------------------------------------------------------------------

/// What a search takes.
pub open spec fn search_schema() -> Json {
    Json::empty().with("type"@, Json::String("object"@)).with("required"@, Json::Array(seq![Json::String("query"@)])).with("properties"@, Json::empty().with("query"@, Json::empty().with("type"@, Json::String("string"@))).with("kind"@, Json::empty().with("type"@, Json::String("string"@)).with("enum"@, Json::Array(seq![Json::String("workflow"@), Json::String("capability"@), Json::String("connection"@)]))).with("limit"@, Json::empty().with("type"@, Json::String("integer"@)).with("default"@, Json::Number(Number::PosInt(10))))).with("additionalProperties"@, Json::Bool(false))
}

fn search_schema_value() -> (r: Value)
    ensures
        r@ == search_schema(),
{
    Value::object().and("type", Value::text("object")).and("required", json::list1(Value::text("query"))).and("properties", Value::object().and("query", Value::object().and("type", Value::text("string"))).and("kind", Value::object().and("type", Value::text("string")).and("enum", json::list3(Value::text("workflow"), Value::text("capability"), Value::text("connection")))).and("limit", Value::object().and("type", Value::text("integer")).and("default", Value::uint(10)))).and("additionalProperties", Value::Bool(false))
}

/// The link to a search.
pub open spec fn search_link() -> Json {
    Json::empty().with("rel"@, Json::String("search"@)).with("title"@, Json::String("Search workflows and capabilities"@)).with("method"@, Json::String("gateway.search"@)).with("args"@, Json::empty().with("query"@, Json::String(""@))).with("inputSchema"@, search_schema())
}

fn search_link_value() -> (r: Value)
    ensures
        r@ == search_link(),
{
    Value::object().and("rel", Value::text("search")).and("title", Value::text("Search workflows and capabilities")).and("method", Value::text("gateway.search")).and("args", Value::object().and("query", Value::text(""))).and("inputSchema", search_schema_value())
}

/// The link to the configured workflows.
pub open spec fn list_workflows_link() -> Json {
    Json::empty().with("rel"@, Json::String("list_workflows"@)).with("title"@, Json::String("List configured workflows"@)).with("method"@, Json::String("gateway.search"@)).with("args"@, Json::empty().with("query"@, Json::String(""@)).with("kind"@, Json::String("workflow"@)))
}

fn list_workflows_link_value() -> (r: Value)
    ensures
        r@ == list_workflows_link(),
{
    Value::object().and("rel", Value::text("list_workflows")).and("title", Value::text("List configured workflows")).and("method", Value::text("gateway.search")).and("args", Value::object().and("query", Value::text("")).and("kind", Value::text("workflow")))
}

/// The link to the proxy capabilities.
pub open spec fn list_capabilities_link() -> Json {
    Json::empty().with("rel"@, Json::String("list_capabilities"@)).with("title"@, Json::String("List proxy capabilities"@)).with("method"@, Json::String("gateway.search"@)).with("args"@, Json::empty().with("query"@, Json::String(""@)).with("kind"@, Json::String("capability"@)))
}

fn list_capabilities_link_value() -> (r: Value)
    ensures
        r@ == list_capabilities_link(),
{
    Value::object().and("rel", Value::text("list_capabilities")).and("title", Value::text("List proxy capabilities")).and("method", Value::text("gateway.search")).and("args", Value::object().and("query", Value::text("")).and("kind", Value::text("capability")))
}

/// Where discovery starts.
pub open spec fn home() -> Json {
    Json::empty().with("resource"@, Json::empty().with("type"@, Json::String("gateway"@)).with("id"@, Json::String("home"@))).with("result"@, Json::empty().with("status"@, Json::String("ready"@)).with("message"@, Json::String("Available workflows and proxy capabilities can be discovered here."@))).with("links"@, Json::Array(seq![search_link(), list_workflows_link(), list_capabilities_link()]))
}

/// Where discovery starts.
pub fn default_home() -> (r: Value)
    ensures
        r@ == home(),
{
    Value::object().and("resource", Value::object().and("type", Value::text("gateway")).and("id", Value::text("home"))).and("result", Value::object().and("status", Value::text("ready")).and("message", Value::text("Available workflows and proxy capabilities can be discovered here."))).and("links", json::list3(search_link_value(), list_workflows_link_value(), list_capabilities_link_value()))
}

} // verus!
