//! Checks of a configuration: its skills and scripts, and what may stand inside its
//! workflows.
use crate::config_capabilities;
use crate::config_hash;
use crate::config_stamp;
use crate::discovery;
use crate::discovery::{Lifecycle, ScriptVerb, Verb};
use crate::json;
use crate::json::{Json, Value};
use crate::text;
use vstd::prelude::*;

verus! {

// ---------------------------------------------------------------------------
// Findings
// ---------------------------------------------------------------------------

/// How serious a finding is.
#[derive(Debug, Clone, Copy, PartialEq, Eq, Structural)]
pub enum DiagnosticSeverity {
    Warn,
    Error,
}

/// A soft finding of the resolution of a configuration.
#[derive(Debug, Clone, PartialEq, Eq)]
pub struct Diagnostic {
    pub severity: DiagnosticSeverity,
    pub code: String,
    pub message: String,
    /// The path to the place, where there is one.
    pub location: Option<String>,
    /// What to do about it.
    pub suggestion: Option<String>,
}

/// A soft finding, as mathematical values.
pub struct FindingView {
    pub severity: DiagnosticSeverity,
    pub code: Seq<char>,
    pub message: Seq<char>,
    pub location: Option<Seq<char>>,
    pub suggestion: Option<Seq<char>>,
}

impl View for Diagnostic {
    type V = FindingView;

    open spec fn view(&self) -> FindingView {
        FindingView {
            severity: self.severity,
            code: self.code@,
            message: self.message@,
            location: text::opt_text(self.location),
            suggestion: text::opt_text(self.suggestion),
        }
    }
}

/// The findings, in order.
pub open spec fn findings(s: Seq<Diagnostic>) -> Seq<FindingView> {
    Seq::new(s.len(), |i: int| s[i]@)
}

/// The outcome of a check: soft findings, or what is wrong.
pub type Outcome = Result<Seq<FindingView>, Seq<char>>;

/// The outcome of a check.
pub open spec fn outcome(r: Result<Vec<Diagnostic>, String>) -> Outcome {
    match r {
        Ok(v) => Ok(findings(v@)),
        Err(m) => Err(m@),
    }
}

/// The outcome of checking the first `n` entries one after another: all findings, or
/// the first fault.
pub open spec fn gathered(
    e: Seq<(Seq<char>, Json)>,
    n: int,
    f: spec_fn(Seq<char>, Json) -> Outcome,
) -> Outcome
    decreases n,
{
    if n <= 0 {
        Ok(Seq::empty())
    } else {
        match gathered(e, n - 1, f) {
            Err(m) => Err(m),
            Ok(before) => match f(e[n - 1].0, e[n - 1].1) {
                Err(m) => Err(m),
                Ok(more) => Ok(before + more),
            },
        }
    }
}

/// A fault among the first entries is the fault of all.
pub proof fn lemma_gathered_err(
    e: Seq<(Seq<char>, Json)>,
    k: int,
    n: int,
    f: spec_fn(Seq<char>, Json) -> Outcome,
)
    requires
        k <= n,
        gathered(e, k, f) is Err,
    ensures
        gathered(e, n, f) == gathered(e, k, f),
    decreases n - k,
{
    if k < n {
        lemma_gathered_err(e, k, n - 1, f);
    }
}

/// Appends findings.
pub fn append_findings(out: &mut Vec<Diagnostic>, more: Vec<Diagnostic>)
    ensures
        findings(final(out)@) == findings(old(out)@) + findings(more@),
{
    let ghost a = out@;
    let ghost b = more@;
    let mut m = more;
    out.append(&mut m);
    assert(findings(a + b) =~= findings(a) + findings(b));
}

/// The first fault among the entries from `i` on.
pub open spec fn first_fault(
    e: Seq<(Seq<char>, Json)>,
    i: int,
    f: spec_fn(Seq<char>, Json) -> Option<Seq<char>>,
) -> Option<Seq<char>>
    decreases e.len() - i,
{
    if i >= e.len() {
        None
    } else {
        match f(e[i].0, e[i].1) {
            Some(m) => Some(m),
            None => first_fault(e, i + 1, f),
        }
    }
}

/// What is wrong, if anything.
pub open spec fn fault(r: Result<(), String>) -> Option<Seq<char>> {
    match r {
        Ok(_) => None,
        Err(m) => Some(m@),
    }
}

// ---------------------------------------------------------------------------
// Names
// ---------------------------------------------------------------------------

/// A lowercase letter, then lowercase letters, digits and hyphens.
pub open spec fn kebab(s: Seq<char>) -> bool {
    s.len() > 0 && text::is_lower(s[0]) && forall|i: int|
        1 <= i < s.len() ==> kebab_char(#[trigger] s[i])
}

/// A lowercase letter, a digit or a hyphen.
pub open spec fn kebab_char(c: char) -> bool {
    text::is_lower(c) || text::is_digit(c) || c == '-'
}

/// Whether the text is a kebab token.
pub fn is_kebab_token(s: &str) -> (r: bool)
    ensures
        r == kebab(s@),
{
    let cs = text::chars_of(s);
    if cs.len() == 0 || !text::lower(cs[0]) {
        return false;
    }
    let mut i: usize = 1;
    while i < cs.len()
        invariant
            1 <= i <= cs.len(),
            cs@ == s@,
            forall|j: int| 1 <= j < i ==> kebab_char(#[trigger] s@[j]),
        decreases cs.len() - i,
    {
        if !(text::lower(cs[i]) || text::digit(cs[i]) || cs[i] == '-') {
            assert(!kebab_char(s@[i as int]));
            return false;
        }
        i = i + 1;
    }
    true
}

/// The subject without the namespace that it may have in front.
pub open spec fn bare_subject(s: Seq<char>) -> Seq<char> {
    match text::halves(s, '/') {
        Some(p) => if kebab(p.0) {
            p.1
        } else {
            s
        },
        None => s,
    }
}

/// The subject without the namespace that it may have in front.
pub fn strip_namespace_prefix(s: &str) -> (r: String)
    ensures
        r@ == bare_subject(s@),
{
    match text::split_once(s, '/') {
        Some((ns, rest)) => {
            if is_kebab_token(ns.as_str()) {
                rest
            } else {
                s.to_owned()
            }
        },
        None => s.to_owned(),
    }
}

/// A subject: two or more kebab tokens with dots between them, after the namespace
/// that it may have in front.
pub open spec fn subject_form(s: Seq<char>) -> bool {
    let parts = text::split(bare_subject(s), '.');
    parts.len() >= 2 && forall|i: int| 0 <= i < parts.len() ==> kebab(#[trigger] parts[i])
}

/// Whether the text has the form of a subject.
pub fn is_subject_pattern(s: &str) -> (r: bool)
    ensures
        r == subject_form(s@),
{
    let body = strip_namespace_prefix(s);
    let parts = text::split_on(body.as_str(), '.');
    let ghost ps = text::texts(parts@);
    if parts.len() < 2 {
        return false;
    }
    let mut i: usize = 0;
    while i < parts.len()
        invariant
            i <= parts.len(),
            ps == text::texts(parts@),
            ps == text::split(bare_subject(s@), '.'),
            forall|j: int| 0 <= j < i ==> kebab(#[trigger] ps[j]),
        decreases parts.len() - i,
    {
        assert(ps[i as int] == parts@[i as int]@);
        if !is_kebab_token(parts[i].as_str()) {
            return false;
        }
        i = i + 1;
    }
    true
}

/// The first segment of a subject.
pub open spec fn root_of(subject: Seq<char>) -> Seq<char> {
    text::split(bare_subject(subject), '.')[0]
}

fn subject_root(subject: &str) -> (r: String)
    ensures
        r@ == root_of(subject@),
{
    let body = strip_namespace_prefix(subject);
    let parts = text::split_on(body.as_str(), '.');
    assert(text::texts(parts@)[0] == parts@[0]@);
    parts[0].clone()
}

/// The length of the longest common beginning of two texts.
pub open spec fn common_len(a: Seq<char>, b: Seq<char>) -> nat
    decreases a.len(),
{
    if a.len() == 0 || b.len() == 0 || a[0] != b[0] {
        0
    } else {
        1 + common_len(a.skip(1), b.skip(1))
    }
}

fn common_prefix_len(a: &str, b: &str) -> (r: usize)
    ensures
        r == common_len(a@, b@),
{
    let x = text::chars_of(a);
    let y = text::chars_of(b);
    let mut i: usize = 0;
    assert(a@.skip(0) =~= a@ && b@.skip(0) =~= b@);
    while i < x.len() && i < y.len() && x[i] == y[i]
        invariant
            i <= x.len(),
            i <= y.len(),
            x@ == a@,
            y@ == b@,
            common_len(a@, b@) == i + common_len(a@.skip(i as int), b@.skip(i as int)),
        decreases x.len() - i,
    {
        assert(a@.skip(i as int).skip(1) =~= a@.skip(i + 1));
        assert(b@.skip(i as int).skip(1) =~= b@.skip(i + 1));
        i = i + 1;
    }
    i
}

/// Of the first `n` roots the one that shares the longest beginning with the
/// candidate, with the length of that beginning. The first of several counts; one
/// without a common beginning does not.
pub open spec fn closest(candidate: Seq<char>, roots: Seq<Seq<char>>, n: int) -> Option<
    (nat, Seq<char>),
>
    decreases n,
{
    if n <= 0 {
        None
    } else {
        let before = closest(candidate, roots, n - 1);
        let k = common_len(candidate, roots[n - 1]);
        match before {
            Some(b) => if k > b.0 {
                Some((k, roots[n - 1]))
            } else {
                before
            },
            None => if k > 0 {
                Some((k, roots[n - 1]))
            } else {
                None
            },
        }
    }
}

/// The root that a candidate was probably meant to be.
pub open spec fn closest_root_text(candidate: Seq<char>, roots: Seq<Seq<char>>) -> Option<
    Seq<char>,
> {
    match closest(candidate, roots, roots.len() as int) {
        Some(b) => Some(b.1),
        None => None,
    }
}

/// The closest root has a common beginning with the candidate, and no other root has a
/// longer one.
pub proof fn law_closest_root(candidate: Seq<char>, roots: Seq<Seq<char>>, n: int, i: int)
    requires
        0 <= i < n <= roots.len(),
    ensures
        match closest(candidate, roots, n) {
            Some(b) => b.0 > 0 && b.0 == common_len(candidate, b.1) && roots.contains(b.1)
                && common_len(candidate, roots[i]) <= b.0,
            None => common_len(candidate, roots[i]) == 0,
        },
    decreases n,
{
    if n > 1 {
        if i < n - 1 {
            law_closest_root(candidate, roots, n - 1, i);
        } else {
            law_closest_root(candidate, roots, n - 1, 0);
        }
    } else {
        assert(closest(candidate, roots, 0) is None);
    }
    assert(roots.contains(roots[n - 1]));
}

fn closest_root(candidate: &str, roots: &Vec<String>) -> (r: Option<String>)
    ensures
        text::opt_text(r) == closest_root_text(candidate@, text::texts(roots@)),
{
    let ghost rs = text::texts(roots@);
    let mut best: Option<usize> = None;
    let mut best_len: usize = 0;
    let mut i: usize = 0;
    while i < roots.len()
        invariant
            i <= roots.len(),
            rs == text::texts(roots@),
            match best {
                Some(b) => b < i && closest(candidate@, rs, i as int) == Some(
                    (best_len as nat, rs[b as int]),
                ),
                None => closest(candidate@, rs, i as int) is None && best_len == 0,
            },
        decreases roots.len() - i,
    {
        assert(rs[i as int] == roots@[i as int]@);
        let k = common_prefix_len(candidate, roots[i].as_str());
        if k > best_len {
            best = Some(i);
            best_len = k;
        }
        i = i + 1;
    }
    match best {
        Some(b) => {
            assert(rs[b as int] == roots@[b as int]@);
            Some(roots[b].clone())
        },
        None => None,
    }
}

/// The blessed root that a candidate was probably meant to be.
pub fn closest_blessed_root(candidate: &str) -> (r: Option<String>)
    ensures
        text::opt_text(r) == closest_root_text(candidate@, discovery::blessed_roots()),
{
    let roots = discovery::blessed_subject_roots();
    closest_root(candidate, &roots)
}

/// The script root that a candidate was probably meant to be.
pub fn closest_blessed_script_root(candidate: &str, roots: &Vec<String>) -> (r: Option<String>)
    ensures
        text::opt_text(r) == closest_root_text(candidate@, text::texts(roots@)),
{
    closest_root(candidate, roots)
}

/// The name of the kind of a value.
pub open spec fn kind_name(v: Json) -> Seq<char> {
    match v {
        Json::Null => "null"@,
        Json::Bool(_) => "boolean"@,
        Json::Number(_) => "number"@,
        Json::String(_) => "string"@,
        Json::Array(_) => "array"@,
        Json::Object(_) => "object"@,
    }
}

/// The name of the kind of a value.
pub fn short_value_kind(v: &Value) -> (r: &'static str)
    ensures
        r@ == kind_name(v@),
{
    match v {
        Value::Null => "null",
        Value::Bool(_) => "boolean",
        Value::Number(_) => "number",
        Value::String(_) => "string",
        Value::Array(_) => "array",
        Value::Object(_) => "object",
    }
}

/// The value at a key of the object at a key.
pub open spec fn at2(config: Json, a: Seq<char>, b: Seq<char>) -> Option<Json> {
    match config.get(a) {
        Some(v) => v.step(b),
        None => None,
    }
}

/// The value at a key of the object at a key.
pub fn get2<'a>(config: &'a Value, a: &str, b: &str) -> (r: Option<&'a Value>)
    ensures
        json::opt_view(r) == at2(config@, a@, b@),
{
    match config.get(a) {
        Some(v) => v.step(b),
        None => None,
    }
}

/// Unknown roots are faults unless the configuration says otherwise.
pub open spec fn strict(config: Json) -> bool {
    match at2(config, "flowgate"@, "strict_namespacing"@) {
        Some(Json::Bool(b)) => b,
        _ => true,
    }
}

/// Whether unknown roots are faults.
pub fn strict_namespacing(config: &Value) -> (r: bool)
    ensures
        r == strict(config@),
{
    match get2(config, "flowgate", "strict_namespacing") {
        Some(Value::Bool(b)) => *b,
        _ => true,
    }
}

// ---------------------------------------------------------------------------
// Roots
// ---------------------------------------------------------------------------

/// The blessed roots as they are listed in messages.
pub const ROOTS_TEXT: &'static str =
    "[\"authoring\", \"debug\", \"deploy\", \"import\", \"lifecycle\", \"triage\", \"diagnose\", \"plan\", \"implement\", \"review\", \"refactor\", \"explain\", \"compose\"]";

/// The verbs as they are listed in messages.
pub const VERBS_TEXT: &'static str =
    "[\"triage\", \"diagnose\", \"plan\", \"implement\", \"review\", \"refactor\", \"explain\", \"compose\"]";

/// The script verbs as they are listed in messages.
pub const SCRIPT_VERBS_TEXT: &'static str =
    "[\"build\", \"test\", \"deploy\", \"format\", \"lint\", \"install\", \"verify\", \"run\"]";

/// The lifecycles as they are listed in messages.
pub const LIFECYCLES_TEXT: &'static str = "[\"experimental\", \"stable\", \"deprecated\"]";

/// What is said of a subject whose root is not one of the known roots: a fault where
/// roots are checked strictly, otherwise a warning with the root that is closest.
pub open spec fn root_outcome(
    block: Seq<char>,
    code: Seq<char>,
    subject: Seq<char>,
    roots: Seq<Seq<char>>,
    listed: Seq<char>,
    is_strict: bool,
) -> Outcome {
    let root = root_of(subject);
    if roots.contains(root) {
        Ok(Seq::empty())
    } else {
        let what = block + " key '"@ + subject + "' has unblessed root '"@ + root
            + "'; blessed roots are "@ + listed;
        if is_strict {
            Err(
                code + ": "@ + what
                    + ". Disable with `flowgate.strict_namespacing: false`."@,
            )
        } else {
            Ok(
                seq![
                    FindingView {
                        severity: DiagnosticSeverity::Warn,
                        code,
                        message: what,
                        location: Some("/"@ + block + "/"@ + subject),
                        suggestion: match closest_root_text(root, roots) {
                            Some(s) => Some("did you mean '"@ + s + "'?"@),
                            None => None,
                        },
                    },
                ],
            )
        }
    }
}

fn check_root(
    block: &str,
    code: &str,
    subject: &str,
    roots: &Vec<String>,
    listed: &str,
    is_strict: bool,
) -> (r: Result<Vec<Diagnostic>, String>)
    ensures
        outcome(r) == root_outcome(
            block@,
            code@,
            subject@,
            text::texts(roots@),
            listed@,
            is_strict,
        ),
{
    let root = subject_root(subject);
    let mut out: Vec<Diagnostic> = Vec::new();
    if text::has_text(roots, root.as_str()) {
        assert(findings(out@) =~= Seq::empty());
        return Ok(out);
    }
    let what = text::join7(
        block,
        " key '",
        subject,
        "' has unblessed root '",
        root.as_str(),
        "'; blessed roots are ",
        listed,
    );
    if is_strict {
        return Err(
            text::join4(
                code,
                ": ",
                what.as_str(),
                ". Disable with `flowgate.strict_namespacing: false`.",
            ),
        );
    }
    let suggestion = match closest_root(root.as_str(), roots) {
        Some(s) => Some(text::join3("did you mean '", s.as_str(), "'?")),
        None => None,
    };
    let d = Diagnostic {
        severity: DiagnosticSeverity::Warn,
        code: code.to_owned(),
        message: what,
        location: Some(text::join4("/", block, "/", subject)),
        suggestion,
    };
    let ghost dv = d@;
    out.push(d);
    assert(findings(out@) =~= seq![dv]);
    Ok(out)
}

/// What is wrong with the form of a subject.
pub open spec fn subject_fault(
    block: Seq<char>,
    empty_code: Seq<char>,
    subject: Seq<char>,
) -> Option<Seq<char>> {
    if text::trimmed(subject).len() == 0 {
        Some(empty_code + ": "@ + block + " key is empty after trim"@)
    } else if !subject_form(subject) {
        Some(
            block + " key '"@ + subject
                + "' must match ^[a-z][a-z0-9-]+(\\.[a-z][a-z0-9-]+)+$ — lowercase, kebab, dotted, at least two segments, no whitespace"@,
        )
    } else {
        None
    }
}

fn check_subject(block: &str, empty_code: &str, subject: &str) -> (r: Result<(), String>)
    ensures
        fault(r) == subject_fault(block@, empty_code@, subject@),
{
    let t = text::trim(subject);
    if t.as_str().unicode_len() == 0 {
        return Err(text::join4(empty_code, ": ", block, " key is empty after trim"));
    }
    if !is_subject_pattern(subject) {
        return Err(
            text::join4(
                block,
                " key '",
                subject,
                "' must match ^[a-z][a-z0-9-]+(\\.[a-z][a-z0-9-]+)+$ — lowercase, kebab, dotted, at least two segments, no whitespace",
            ),
        );
    }
    Ok(())
}

// ---------------------------------------------------------------------------
// Skills
// ---------------------------------------------------------------------------

/// The text is the token of a verb.
pub open spec fn is_verb(s: Seq<char>) -> bool {
    exists|v: Verb| #[trigger] v.token() == s
}

/// The text is the token of a script verb.
pub open spec fn is_script_verb(s: Seq<char>) -> bool {
    exists|v: ScriptVerb| #[trigger] v.token() == s
}

/// The text is the token of a lifecycle.
pub open spec fn is_lifecycle(s: Seq<char>) -> bool {
    exists|v: Lifecycle| #[trigger] v.token() == s
}

/// What is wrong with the fields of a skill: a verb and a lifecycle, each one of a
/// closed set, a body, and a hash that fits the body where one is given.
pub open spec fn skill_fault(subject: Seq<char>, entry: Json) -> Option<Seq<char>> {
    let at = "skills entry '"@ + subject + "'"@;
    match entry.str_at("verb"@) {
        None => Some("MISSING_VERB: "@ + at + " is missing a `verb`"@),
        Some(verb) => if !is_verb(verb) {
            Some(
                "INVALID_VERB: "@ + at + " has verb '"@ + verb + "'; allowed verbs are "@
                    + VERBS_TEXT@,
            )
        } else {
            match entry.str_at("lifecycle"@) {
                None => Some(
                    "MISSING_LIFECYCLE: "@ + at
                        + " is missing a `lifecycle` field; allowed values are "@
                        + LIFECYCLES_TEXT@,
                ),
                Some(lifecycle) => if !is_lifecycle(lifecycle) {
                    Some(
                        "INVALID_LIFECYCLE: "@ + at + " has lifecycle '"@ + lifecycle
                            + "'; allowed values are "@ + LIFECYCLES_TEXT@,
                    )
                } else {
                    match entry.str_at("body"@) {
                        None => Some("MISSING_BODY: "@ + at + " is missing a `body` string"@),
                        Some(body) => match entry.str_at("hash"@) {
                            Some(h) => if h != config_hash::skill_hash(body) {
                                Some(
                                    "HASH_MISMATCH: "@ + at + " has stored hash '"@ + h
                                        + "' but normalize_for_hash(body) produced '"@
                                        + config_hash::skill_hash(body) + "'"@,
                                )
                            } else {
                                None
                            },
                            None => None,
                        },
                    }
                },
            }
        },
    }
}

fn check_skill(subject: &str, entry: &Value) -> (r: Result<(), String>)
    ensures
        fault(r) == skill_fault(subject@, entry@),
{
    let at = text::join3("skills entry '", subject, "'");
    let verb = match entry.str_at("verb") {
        Some(v) => v,
        None => {
            return Err(text::join3("MISSING_VERB: ", at.as_str(), " is missing a `verb`"));
        },
    };
    if Verb::from_token(verb).is_none() {
        return Err(
            text::join6(
                "INVALID_VERB: ",
                at.as_str(),
                " has verb '",
                verb,
                "'; allowed verbs are ",
                VERBS_TEXT,
            ),
        );
    }
    let lifecycle = match entry.str_at("lifecycle") {
        Some(v) => v,
        None => {
            return Err(
                text::join4(
                    "MISSING_LIFECYCLE: ",
                    at.as_str(),
                    " is missing a `lifecycle` field; allowed values are ",
                    LIFECYCLES_TEXT,
                ),
            );
        },
    };
    if Lifecycle::from_token(lifecycle).is_none() {
        return Err(
            text::join6(
                "INVALID_LIFECYCLE: ",
                at.as_str(),
                " has lifecycle '",
                lifecycle,
                "'; allowed values are ",
                LIFECYCLES_TEXT,
            ),
        );
    }
    let body = match entry.str_at("body") {
        Some(v) => v,
        None => {
            return Err(
                text::join3("MISSING_BODY: ", at.as_str(), " is missing a `body` string"),
            );
        },
    };
    if let Some(h) = entry.str_at("hash") {
        let computed = config_hash::compute_skill_hash(body);
        if !text::str_eq(h, computed.as_str()) {
            return Err(
                text::join7(
                    "HASH_MISMATCH: ",
                    at.as_str(),
                    " has stored hash '",
                    h,
                    "' but normalize_for_hash(body) produced '",
                    computed.as_str(),
                    "'",
                ),
            );
        }
    }
    Ok(())
}

/// The outcome of checking one skill.
pub open spec fn skill_outcome(is_strict: bool) -> spec_fn(Seq<char>, Json) -> Outcome {
    |subject: Seq<char>, entry: Json|
        match subject_fault("skills"@, "EMPTY_SUBJECT"@, subject) {
            Some(m) => Err(m),
            None => match root_outcome(
                "skills"@,
                "INVALID_SUBJECT_ROOT"@,
                subject,
                discovery::blessed_roots(),
                ROOTS_TEXT@,
                is_strict,
            ) {
                Err(m) => Err(m),
                Ok(d) => match skill_fault(subject, entry) {
                    Some(m) => Err(m),
                    None => Ok(d),
                },
            },
        }
}

/// The outcome of checking the skills of a configuration.
pub open spec fn skills_outcome(config: Json) -> Outcome {
    let e = config.entries_at("skills"@);
    gathered(e, e.len() as int, skill_outcome(strict(config)))
}

fn check_one_skill(is_strict: bool, roots: &Vec<String>, subject: &str, entry: &Value) -> (r:
    Result<Vec<Diagnostic>, String>)
    requires
        text::texts(roots@) == discovery::blessed_roots(),
    ensures
        outcome(r) == skill_outcome(is_strict)(subject@, entry@),
{
    match check_subject("skills", "EMPTY_SUBJECT", subject) {
        Err(m) => {
            return Err(m);
        },
        Ok(_) => {},
    }
    let found = match check_root(
        "skills",
        "INVALID_SUBJECT_ROOT",
        subject,
        roots,
        ROOTS_TEXT,
        is_strict,
    ) {
        Err(m) => {
            return Err(m);
        },
        Ok(d) => d,
    };
    match check_skill(subject, entry) {
        Err(m) => Err(m),
        Ok(_) => Ok(found),
    }
}

/// Checks the skills of a configuration.
pub fn validate_skills(config: &Value) -> (r: Result<Vec<Diagnostic>, String>)
    ensures
        outcome(r) == skills_outcome(config@),
{
    let is_strict = strict_namespacing(config);
    let roots = discovery::blessed_subject_roots();
    let mut out: Vec<Diagnostic> = Vec::new();
    assert(findings(out@) =~= Seq::empty());
    let ghost f = skill_outcome(is_strict);
    if let Some(skills) = config.object_at("skills") {
        let ghost e = json::entries(skills@);
        let mut i: usize = 0;
        while i < skills.len()
            invariant
                i <= skills.len(),
                e == json::entries(skills@),
                e == config@.entries_at("skills"@),
                is_strict == strict(config@),
                f == skill_outcome(is_strict),
                text::texts(roots@) == discovery::blessed_roots(),
                gathered(e, i as int, f) == Ok::<Seq<FindingView>, Seq<char>>(findings(out@)),
            decreases skills.len() - i,
        {
            assert(e[i as int] == (skills@[i as int].0@, skills@[i as int].1@));
            match check_one_skill(is_strict, &roots, skills[i].0.as_str(), &skills[i].1) {
                Err(m) => {
                    proof {
                        lemma_gathered_err(e, i + 1, e.len() as int, f);
                    }
                    return Err(m);
                },
                Ok(d) => {
                    append_findings(&mut out, d);
                },
            }
            i = i + 1;
        }
    }
    Ok(out)
}

// ---------------------------------------------------------------------------
// Scripts
// ---------------------------------------------------------------------------

/// The part of a uri before `://`.
pub open spec fn scheme(uri: Seq<char>) -> Seq<char> {
    match text::find_pos(uri, "://"@, 0) {
        Some(i) => uri.take(i),
        None => uri,
    }
}

fn scheme_of(uri: &str) -> (r: String)
    ensures
        r@ == scheme(uri@),
{
    let cs = text::chars_of(uri);
    let pat = text::chars_of("://");
    match text::find_text(&cs, &pat, 0) {
        Some(i) => {
            let s = text::string_of_range(&cs, 0, i);
            assert(s@ =~= uri@.take(i as int));
            s
        },
        None => uri.to_owned(),
    }
}

/// The uri has a scheme that scripts can be fetched by.
pub open spec fn known_scheme(uri: Seq<char>) -> bool {
    "file://"@.is_prefix_of(uri) || "https://"@.is_prefix_of(uri)
        || "git+https://"@.is_prefix_of(uri)
}

/// What is wrong with a uri that names a file in a repository: it must name a
/// revision, and then a path.
pub open spec fn git_fault(at: Seq<char>, uri: Seq<char>) -> Option<Seq<char>> {
    if !"git+https://"@.is_prefix_of(uri) {
        None
    } else {
        match text::halves(uri, '#') {
            None => Some(
                "INVALID_GIT_HTTPS_URI: "@ + at + " uri '"@ + uri
                    + "' is missing the `#<path>` fragment. Required form: git+https://<host>/<repo>(.git)?@<ref>#<path>"@,
            ),
            Some(p) => if p.0.contains('@') {
                None
            } else {
                Some(
                    "INVALID_GIT_HTTPS_URI: "@ + at + " uri '"@ + uri
                        + "' is missing the `@<ref>` revision. Required form: git+https://<host>/<repo>(.git)?@<ref>#<path>. Pinning to a ref is mandatory — branches drift, tags can be re-pointed, only a SHA or signed tag is reproducible."@,
                )
            },
        }
    }
}

fn check_git_uri(at: &str, uri: &str) -> (r: Result<(), String>)
    ensures
        fault(r) == git_fault(at@, uri@),
{
    if !text::starts_with(uri, "git+https://") {
        return Ok(());
    }
    match text::split_once(uri, '#') {
        None => Err(
            text::join5(
                "INVALID_GIT_HTTPS_URI: ",
                at,
                " uri '",
                uri,
                "' is missing the `#<path>` fragment. Required form: git+https://<host>/<repo>(.git)?@<ref>#<path>",
            ),
        ),
        Some((head, _path)) => {
            if text::contains_char(head.as_str(), '@') {
                Ok(())
            } else {
                Err(
                    text::join5(
                        "INVALID_GIT_HTTPS_URI: ",
                        at,
                        " uri '",
                        uri,
                        "' is missing the `@<ref>` revision. Required form: git+https://<host>/<repo>(.git)?@<ref>#<path>. Pinning to a ref is mandatory — branches drift, tags can be re-pointed, only a SHA or signed tag is reproducible.",
                    ),
                )
            }
        },
    }
}

/// What is wrong with a script whose body stands in the configuration: a hash that
/// does not fit the body.
pub open spec fn inline_fault(subject: Seq<char>, entry: Json, body: Seq<char>) -> Option<
    Seq<char>,
> {
    match entry.str_at("hash"@) {
        None => None,
        Some(h) => match config_hash::hash_fault(h, subject) {
            Some(m) => Some(m),
            None => if h != config_hash::script_hash(body) {
                Some(
                    "SCRIPT_HASH_MISMATCH: scripts entry '"@ + subject + "' has stored hash '"@ + h
                        + "' but normalize_for_script_hash(body) produced '"@
                        + config_hash::script_hash(body)
                        + "'. Script hashing collapses trailing newlines only; internal whitespace is preserved."@,
                )
            } else {
                None
            },
        },
    }
}

/// What is wrong with a script whose body is fetched: it must have a hash, and a uri
/// that it can be fetched by.
pub open spec fn remote_fault(subject: Seq<char>, entry: Json, uri: Seq<char>) -> Option<Seq<char>> {
    let at = "scripts entry '"@ + subject + "'"@;
    match entry.str_at("hash"@) {
        None => Some(
            "MISSING_SCRIPT_HASH: "@ + at
                + " uses an external `uri` but has no `hash`. Hash is required for uri-sourced bodies so the runtime can verify content-identity at load time."@,
        ),
        Some(h) => match config_hash::hash_fault(h, subject) {
            Some(m) => Some(m),
            None => if !known_scheme(uri) {
                Some(
                    "UNSUPPORTED_SCRIPT_URI_SCHEME: "@ + at + " uri '"@ + uri
                        + "' uses scheme '"@ + scheme(uri)
                        + "://' — supported schemes are `file://` (relative to config), `https://` (load-time fetch), and `git+https://...@<ref>#<path>` (load-time `git archive` extraction). All non-file URIs require sha256 verification."@,
                )
            } else {
                git_fault(at, uri)
            },
        },
    }
}

/// What is wrong with where the body of a script comes from: either from the
/// configuration or from a uri, not both and not neither.
pub open spec fn source_fault(subject: Seq<char>, entry: Json) -> Option<Seq<char>> {
    let at = "SCRIPT_BODY_SOURCE_AMBIGUOUS: scripts entry '"@ + subject + "' declares "@;
    match (entry.str_at("body"@), entry.str_at("uri"@)) {
        (Some(_), Some(_)) => Some(
            at + "both `body` and `uri` — exactly one is required"@,
        ),
        (None, None) => Some(at + "neither `body` nor `uri` — exactly one is required"@),
        (Some(body), None) => inline_fault(subject, entry, body),
        (None, Some(uri)) => remote_fault(subject, entry, uri),
    }
}

fn check_inline(subject: &str, entry: &Value, body: &str) -> (r: Result<(), String>)
    ensures
        fault(r) == inline_fault(subject@, entry@, body@),
{
    let h = match entry.str_at("hash") {
        None => {
            return Ok(());
        },
        Some(h) => h,
    };
    match config_hash::validate_hash_format(h, subject) {
        Err(m) => {
            return Err(m);
        },
        Ok(_) => {},
    }
    let computed = config_hash::compute_script_hash(body);
    if !text::str_eq(h, computed.as_str()) {
        return Err(
            text::join7(
                "SCRIPT_HASH_MISMATCH: scripts entry '",
                subject,
                "' has stored hash '",
                h,
                "' but normalize_for_script_hash(body) produced '",
                computed.as_str(),
                "'. Script hashing collapses trailing newlines only; internal whitespace is preserved.",
            ),
        );
    }
    Ok(())
}

fn check_remote(subject: &str, entry: &Value, uri: &str) -> (r: Result<(), String>)
    ensures
        fault(r) == remote_fault(subject@, entry@, uri@),
{
    let at = text::join3("scripts entry '", subject, "'");
    let h = match entry.str_at("hash") {
        None => {
            return Err(
                text::join3(
                    "MISSING_SCRIPT_HASH: ",
                    at.as_str(),
                    " uses an external `uri` but has no `hash`. Hash is required for uri-sourced bodies so the runtime can verify content-identity at load time.",
                ),
            );
        },
        Some(h) => h,
    };
    match config_hash::validate_hash_format(h, subject) {
        Err(m) => {
            return Err(m);
        },
        Ok(_) => {},
    }
    if !(text::starts_with(uri, "file://") || text::starts_with(uri, "https://")
        || text::starts_with(uri, "git+https://")) {
        let s = scheme_of(uri);
        return Err(
            text::join7(
                "UNSUPPORTED_SCRIPT_URI_SCHEME: ",
                at.as_str(),
                " uri '",
                uri,
                "' uses scheme '",
                s.as_str(),
                "://' — supported schemes are `file://` (relative to config), `https://` (load-time fetch), and `git+https://...@<ref>#<path>` (load-time `git archive` extraction). All non-file URIs require sha256 verification.",
            ),
        );
    }
    check_git_uri(at.as_str(), uri)
}

fn check_source(subject: &str, entry: &Value) -> (r: Result<(), String>)
    ensures
        fault(r) == source_fault(subject@, entry@),
{
    match (entry.str_at("body"), entry.str_at("uri")) {
        (Some(_), Some(_)) => Err(
            text::join4(
                "SCRIPT_BODY_SOURCE_AMBIGUOUS: scripts entry '",
                subject,
                "' declares ",
                "both `body` and `uri` — exactly one is required",
            ),
        ),
        (None, None) => Err(
            text::join4(
                "SCRIPT_BODY_SOURCE_AMBIGUOUS: scripts entry '",
                subject,
                "' declares ",
                "neither `body` nor `uri` — exactly one is required",
            ),
        ),
        (Some(body), None) => check_inline(subject, entry, body),
        (None, Some(uri)) => check_remote(subject, entry, uri),
    }
}

/// What is wrong with the fields of a script.
pub open spec fn script_fault(subject: Seq<char>, entry: Json) -> Option<Seq<char>> {
    let at = "scripts entry '"@ + subject + "'"@;
    match entry.str_at("verb"@) {
        None => Some("MISSING_SCRIPT_VERB: "@ + at + " is missing a `verb`"@),
        Some(verb) => if !is_script_verb(verb) {
            Some(
                "INVALID_SCRIPT_VERB: "@ + at + " has verb '"@ + verb + "'; allowed verbs are "@
                    + SCRIPT_VERBS_TEXT@,
            )
        } else {
            match entry.str_at("lifecycle"@) {
                None => Some(
                    "MISSING_SCRIPT_LIFECYCLE: "@ + at
                        + " is missing a `lifecycle` field; allowed values are "@
                        + LIFECYCLES_TEXT@,
                ),
                Some(lifecycle) => if !is_lifecycle(lifecycle) {
                    Some(
                        "INVALID_SCRIPT_LIFECYCLE: "@ + at + " has lifecycle '"@ + lifecycle
                            + "'; allowed values are "@ + LIFECYCLES_TEXT@,
                    )
                } else {
                    source_fault(subject, entry)
                },
            }
        },
    }
}

fn check_script(subject: &str, entry: &Value) -> (r: Result<(), String>)
    ensures
        fault(r) == script_fault(subject@, entry@),
{
    let at = text::join3("scripts entry '", subject, "'");
    let verb = match entry.str_at("verb") {
        Some(v) => v,
        None => {
            return Err(
                text::join3("MISSING_SCRIPT_VERB: ", at.as_str(), " is missing a `verb`"),
            );
        },
    };
    if ScriptVerb::from_token(verb).is_none() {
        return Err(
            text::join6(
                "INVALID_SCRIPT_VERB: ",
                at.as_str(),
                " has verb '",
                verb,
                "'; allowed verbs are ",
                SCRIPT_VERBS_TEXT,
            ),
        );
    }
    let lifecycle = match entry.str_at("lifecycle") {
        Some(v) => v,
        None => {
            return Err(
                text::join4(
                    "MISSING_SCRIPT_LIFECYCLE: ",
                    at.as_str(),
                    " is missing a `lifecycle` field; allowed values are ",
                    LIFECYCLES_TEXT,
                ),
            );
        },
    };
    if Lifecycle::from_token(lifecycle).is_none() {
        return Err(
            text::join6(
                "INVALID_SCRIPT_LIFECYCLE: ",
                at.as_str(),
                " has lifecycle '",
                lifecycle,
                "'; allowed values are ",
                LIFECYCLES_TEXT,
            ),
        );
    }
    check_source(subject, entry)
}

/// The outcome of checking one script.
pub open spec fn script_outcome(is_strict: bool, roots: Seq<Seq<char>>) -> spec_fn(
    Seq<char>,
    Json,
) -> Outcome {
    |subject: Seq<char>, entry: Json|
        match subject_fault("scripts"@, "EMPTY_SCRIPT_SUBJECT"@, subject) {
            Some(m) => Err(m),
            None => match root_outcome(
                "scripts"@,
                "INVALID_SCRIPT_SUBJECT_ROOT"@,
                subject,
                roots,
                text::debug_list_text(roots),
                is_strict,
            ) {
                Err(m) => Err(m),
                Ok(d) => match script_fault(subject, entry) {
                    Some(m) => Err(m),
                    None => Ok(d),
                },
            },
        }
}

/// The outcome of checking the scripts of a configuration against the known roots.
pub open spec fn scripts_outcome(config: Json, roots: Seq<Seq<char>>) -> Outcome {
    let e = config.entries_at("scripts"@);
    gathered(e, e.len() as int, script_outcome(strict(config), roots))
}

fn check_one_script(
    is_strict: bool,
    roots: &Vec<String>,
    listed: &str,
    subject: &str,
    entry: &Value,
) -> (r: Result<Vec<Diagnostic>, String>)
    requires
        listed@ == text::debug_list_text(text::texts(roots@)),
    ensures
        outcome(r) == script_outcome(is_strict, text::texts(roots@))(subject@, entry@),
{
    match check_subject("scripts", "EMPTY_SCRIPT_SUBJECT", subject) {
        Err(m) => {
            return Err(m);
        },
        Ok(_) => {},
    }
    let found = match check_root(
        "scripts",
        "INVALID_SCRIPT_SUBJECT_ROOT",
        subject,
        roots,
        listed,
        is_strict,
    ) {
        Err(m) => {
            return Err(m);
        },
        Ok(d) => d,
    };
    match check_script(subject, entry) {
        Err(m) => Err(m),
        Ok(_) => Ok(found),
    }
}

/// Checks the scripts of a configuration against the known roots.
pub fn validate_scripts(config: &Value, roots: &Vec<String>) -> (r: Result<Vec<Diagnostic>, String>)
    ensures
        outcome(r) == scripts_outcome(config@, text::texts(roots@)),
{
    let is_strict = strict_namespacing(config);
    let listed = text::debug_list(roots);
    let mut out: Vec<Diagnostic> = Vec::new();
    assert(findings(out@) =~= Seq::empty());
    let ghost f = script_outcome(is_strict, text::texts(roots@));
    if let Some(scripts) = config.object_at("scripts") {
        let ghost e = json::entries(scripts@);
        let mut i: usize = 0;
        while i < scripts.len()
            invariant
                i <= scripts.len(),
                e == json::entries(scripts@),
                e == config@.entries_at("scripts"@),
                is_strict == strict(config@),
                f == script_outcome(is_strict, text::texts(roots@)),
                listed@ == text::debug_list_text(text::texts(roots@)),
                gathered(e, i as int, f) == Ok::<Seq<FindingView>, Seq<char>>(findings(out@)),
            decreases scripts.len() - i,
        {
            assert(e[i as int] == (scripts@[i as int].0@, scripts@[i as int].1@));
            match check_one_script(
                is_strict,
                roots,
                listed.as_str(),
                scripts[i].0.as_str(),
                &scripts[i].1,
            ) {
                Err(m) => {
                    proof {
                        lemma_gathered_err(e, i + 1, e.len() as int, f);
                    }
                    return Err(m);
                },
                Ok(d) => {
                    append_findings(&mut out, d);
                },
            }
            i = i + 1;
        }
    }
    Ok(out)
}

// ---------------------------------------------------------------------------
// What may stand inside workflows
// ---------------------------------------------------------------------------

/// A key that belongs to the gateway and not to a workflow.
pub open spec fn gateway_key(k: Seq<char>) -> bool {
    k == "flowgate"@ || "flowgate."@.is_prefix_of(k)
}

/// Where a value stands in a definition.
#[derive(Debug, Clone, Copy, PartialEq, Eq, Structural)]
pub enum Place {
    Definition,
    States,
    State,
    Transitions,
    Transition,
    Elsewhere,
}

impl Place {
    /// Where that stands which a value in this place holds under a key.
    pub open spec fn below(self, k: Seq<char>) -> Place {
        match self {
            Place::Definition => if k == "states"@ {
                Place::States
            } else {
                Place::Elsewhere
            },
            Place::States => Place::State,
            Place::State => if k == "transitions"@ {
                Place::Transitions
            } else {
                Place::Elsewhere
            },
            Place::Transitions => Place::Transition,
            _ => Place::Elsewhere,
        }
    }

    fn under(self, k: &str) -> (r: Place)
        ensures
            r == self.below(k@),
    {
        match self {
            Place::Definition => if text::str_eq(k, "states") {
                Place::States
            } else {
                Place::Elsewhere
            },
            Place::States => Place::State,
            Place::State => if text::str_eq(k, "transitions") {
                Place::Transitions
            } else {
                Place::Elsewhere
            },
            Place::Transitions => Place::Transition,
            _ => Place::Elsewhere,
        }
    }
}

/// What resolution itself writes, by key, into what the object in a place holds under a
/// key: in the output mapping of a transition, what a use binding fills the slot with
/// that has the name of the gateway keys.
pub open spec fn spared_below(o: Json, place: Place, k: Seq<char>) -> Json {
    if place == Place::Transition && k == "output"@ {
        config_capabilities::with_some(
            Json::empty(),
            "flowgate"@,
            config_stamp::bound_slot(o, "flowgate"@),
        )
    } else {
        Json::empty()
    }
}

/// The first gateway key inside a value in a place of a definition, as a fault. An entry
/// that is as resolution itself would write it is passed over.
pub open spec fn flag_fault(v: Json, path: Seq<char>, place: Place, spared: Json) -> Option<
    Seq<char>,
>
    decreases v, 0int,
{
    match v {
        Json::Object(e) => flag_in_entries(e, path, 0, place, spared),
        Json::Array(s) => flag_in_items(s, path, 0),
        _ => None,
    }
}

/// The first gateway key among the entries from `i` on.
pub open spec fn flag_in_entries(
    e: Seq<(Seq<char>, Json)>,
    path: Seq<char>,
    i: int,
    place: Place,
    spared: Json,
) -> Option<Seq<char>>
    decreases e, e.len() - i,
{
    if i < 0 || i >= e.len() {
        None
    } else if spared.get(e[i].0) == Some(e[i].1) {
        flag_in_entries(e, path, i + 1, place, spared)
    } else if gateway_key(e[i].0) {
        Some(
            "CONFIG_FLAG_NOT_RUNTIME_MUTABLE: key '"@ + e[i].0 + "' at '"@ + (path + "/"@ + e[i].0)
                + "' — `flowgate.*` flags are read at gateway startup only and MUST NOT appear inside `workflows:`."@,
        )
    } else {
        match flag_fault(
            e[i].1,
            path + "/"@ + e[i].0,
            place.below(e[i].0),
            spared_below(Json::Object(e), place, e[i].0),
        ) {
            Some(m) => Some(m),
            None => flag_in_entries(e, path, i + 1, place, spared),
        }
    }
}

/// The first gateway key among the items from `i` on.
pub open spec fn flag_in_items(s: Seq<Json>, path: Seq<char>, i: int) -> Option<Seq<char>>
    decreases s, s.len() - i,
{
    if i < 0 || i >= s.len() {
        None
    } else {
        match flag_fault(
            s[i],
            path + "/"@ + text::decimal(i as nat),
            Place::Elsewhere,
            Json::empty(),
        ) {
            Some(m) => Some(m),
            None => flag_in_items(s, path, i + 1),
        }
    }
}

/// Looks for a gateway key inside a value in a place of a definition. `spared` holds what
/// resolution itself would write there.
pub fn check_no_flowgate_keys(
    value: &Value,
    path: &str,
    place: Place,
    spared: &Value,
) -> (r: Result<(), String>)
    ensures
        fault(r) == flag_fault(value@, path@, place, spared@),
    decreases value@,
{
    match value {
        Value::Object(map) => {
            let ghost e = json::entries(map@);
            let slot = config_stamp::bound_slot_of(value, "flowgate");
            let mut i: usize = 0;
            while i < map.len()
                invariant
                    i <= map.len(),
                    e == json::entries(map@),
                    value@ == Json::Object(e),
                    json::opt_owned_view(slot) == config_stamp::bound_slot(value@, "flowgate"@),
                    flag_in_entries(e, path@, i as int, place, spared@) == flag_fault(
                        value@,
                        path@,
                        place,
                        spared@,
                    ),
                decreases map.len() - i,
            {
                let k = map[i].0.as_str();
                assert(e[i as int] == (map@[i as int].0@, map@[i as int].1@));
                let own = match spared.get(k) {
                    Some(x) => x.same(&map[i].1),
                    None => false,
                };
                if own {
                    i = i + 1;
                    continue;
                }
                let child = text::join3(path, "/", k);
                if text::str_eq(k, "flowgate") || text::starts_with(k, "flowgate.") {
                    return Err(
                        text::join5(
                            "CONFIG_FLAG_NOT_RUNTIME_MUTABLE: key '",
                            k,
                            "' at '",
                            child.as_str(),
                            "' — `flowgate.*` flags are read at gateway startup only and MUST NOT appear inside `workflows:`.",
                        ),
                    );
                }
                let mut below = Value::object();
                if place == Place::Transition && text::str_eq(k, "output") {
                    if let Some(x) = &slot {
                        below.set("flowgate", x.dup());
                    }
                }
                proof {
                    assert(decreases_to!(value@ => value@->Object_0));
                    assert(decreases_to!(e => e[i as int]));
                    assert(decreases_to!(e[i as int] => e[i as int].1));
                    assert(below@ == spared_below(value@, place, k@));
                }
                match check_no_flowgate_keys(&map[i].1, child.as_str(), place.under(k), &below) {
                    Err(m) => {
                        return Err(m);
                    },
                    Ok(_) => {},
                }
                i = i + 1;
            }
            Ok(())
        },
        Value::Array(arr) => {
            let ghost s = json::views(arr@);
            let none = Value::object();
            let mut i: usize = 0;
            while i < arr.len()
                invariant
                    i <= arr.len(),
                    s == json::views(arr@),
                    value@ == Json::Array(s),
                    none@ == Json::empty(),
                    flag_in_items(s, path@, i as int) == flag_fault(
                        value@,
                        path@,
                        place,
                        spared@,
                    ),
                decreases arr.len() - i,
            {
                assert(s[i as int] == arr@[i as int]@);
                let n = text::decimal_of(i as u64);
                let child = text::join3(path, "/", n.as_str());
                proof {
                    assert(decreases_to!(value@ => value@->Array_0));
                    assert(decreases_to!(s => s[i as int]));
                }
                match check_no_flowgate_keys(&arr[i], child.as_str(), Place::Elsewhere, &none) {
                    Err(m) => {
                        return Err(m);
                    },
                    Ok(_) => {},
                }
                i = i + 1;
            }
            Ok(())
        },
        _ => Ok(()),
    }
}

/// The first gateway key inside one workflow of a configuration.
pub open spec fn workflow_flag_fault(config: Json) -> spec_fn(Seq<char>, Json) -> Option<
    Seq<char>,
> {
    |id: Seq<char>, def: Json|
        flag_fault(
            def,
            "/workflows/"@ + id,
            Place::Definition,
            config_stamp::written(config, def),
        )
}

/// The first gateway key inside the workflows of a configuration.
pub open spec fn flag_scope_fault(config: Json) -> Option<Seq<char>> {
    first_fault(config.entries_at("workflows"@), 0, workflow_flag_fault(config))
}

/// Checks that gateway keys stand outside the workflows.
pub fn validate_workflow_flag_scope(config: &Value) -> (r: Result<(), String>)
    ensures
        fault(r) == flag_scope_fault(config@),
{
    let ghost f = workflow_flag_fault(config@);
    let skills = config_stamp::skills_stamp_of(config);
    if let Some(workflows) = config.object_at("workflows") {
        let ghost e = json::entries(workflows@);
        let mut i: usize = 0;
        while i < workflows.len()
            invariant
                i <= workflows.len(),
                e == json::entries(workflows@),
                f == workflow_flag_fault(config@),
                json::opt_owned_view(skills) == config_stamp::skills_stamp(config@),
                first_fault(e, i as int, f) == flag_scope_fault(config@),
            decreases workflows.len() - i,
        {
            assert(e[i as int] == (workflows@[i as int].0@, workflows@[i as int].1@));
            let base = text::join2("/workflows/", workflows[i].0.as_str());
            let written = config_stamp::written_of(config, &skills, &workflows[i].1);
            match check_no_flowgate_keys(
                &workflows[i].1,
                base.as_str(),
                Place::Definition,
                &written,
            ) {
                Err(m) => {
                    return Err(m);
                },
                Ok(_) => {},
            }
            i = i + 1;
        }
    }
    Ok(())
}

/// What is wrong with the delegate of a state: it must be a text, and not empty.
pub open spec fn delegate_fault(id: Seq<char>) -> spec_fn(Seq<char>, Json) -> Option<Seq<char>> {
    |state: Seq<char>, s: Json|
        {
            let at = "INVALID_DELEGATE: workflow '"@ + id + "' state '"@ + state + "' has "@;
            match s.get("delegate"@) {
                None => None,
                Some(Json::String(d)) => if d.len() > 0 {
                    None
                } else {
                    Some(
                        at
                            + "empty `delegate`. Must be a non-empty agent-config name."@,
                    )
                },
                Some(v) => Some(
                    at + "non-string `delegate` ("@ + kind_name(v)
                        + "). Must be a non-empty string naming an agent config."@,
                ),
            }
        }
}

/// What is wrong with the delegates of one workflow.
pub open spec fn workflow_delegate_fault() -> spec_fn(Seq<char>, Json) -> Option<Seq<char>> {
    |id: Seq<char>, def: Json| first_fault(def.entries_at("states"@), 0, delegate_fault(id))
}

/// What is wrong with the delegates of a configuration.
pub open spec fn delegates_fault(config: Json) -> Option<Seq<char>> {
    first_fault(config.entries_at("workflows"@), 0, workflow_delegate_fault())
}

fn check_delegate(id: &str, state: &str, s: &Value) -> (r: Result<(), String>)
    ensures
        fault(r) == delegate_fault(id@)(state@, s@),
{
    let at = text::join5("INVALID_DELEGATE: workflow '", id, "' state '", state, "' has ");
    match s.get("delegate") {
        None => Ok(()),
        Some(Value::String(d)) => {
            if d.as_str().unicode_len() > 0 {
                Ok(())
            } else {
                Err(
                    text::join2(
                        at.as_str(),
                        "empty `delegate`. Must be a non-empty agent-config name.",
                    ),
                )
            }
        },
        Some(v) => Err(
            text::join4(
                at.as_str(),
                "non-string `delegate` (",
                short_value_kind(v),
                "). Must be a non-empty string naming an agent config.",
            ),
        ),
    }
}

fn check_workflow_delegates(id: &str, def: &Value) -> (r: Result<(), String>)
    ensures
        fault(r) == workflow_delegate_fault()(id@, def@),
{
    let ghost f = delegate_fault(id@);
    if let Some(states) = def.object_at("states") {
        let ghost e = json::entries(states@);
        let mut i: usize = 0;
        while i < states.len()
            invariant
                i <= states.len(),
                e == json::entries(states@),
                f == delegate_fault(id@),
                first_fault(e, i as int, f) == workflow_delegate_fault()(id@, def@),
            decreases states.len() - i,
        {
            assert(e[i as int] == (states@[i as int].0@, states@[i as int].1@));
            match check_delegate(id, states[i].0.as_str(), &states[i].1) {
                Err(m) => {
                    return Err(m);
                },
                Ok(_) => {},
            }
            i = i + 1;
        }
    }
    Ok(())
}

/// Checks the delegates of the states.
pub fn validate_state_delegate(config: &Value) -> (r: Result<(), String>)
    ensures
        fault(r) == delegates_fault(config@),
{
    let ghost f = workflow_delegate_fault();
    if let Some(workflows) = config.object_at("workflows") {
        let ghost e = json::entries(workflows@);
        let mut i: usize = 0;
        while i < workflows.len()
            invariant
                i <= workflows.len(),
                e == json::entries(workflows@),
                f == workflow_delegate_fault(),
                first_fault(e, i as int, f) == delegates_fault(config@),
            decreases workflows.len() - i,
        {
            assert(e[i as int] == (workflows@[i as int].0@, workflows@[i as int].1@));
            match check_workflow_delegates(workflows[i].0.as_str(), &workflows[i].1) {
                Err(m) => {
                    return Err(m);
                },
                Ok(_) => {},
            }
            i = i + 1;
        }
    }
    Ok(())
}

/// What is wrong with the preferences for authoring.
pub open spec fn preferences_fault(config: Json) -> Option<Seq<char>> {
    match at2(config, "flowgate"@, "authoring"@) {
        None => None,
        Some(a) => match a {
            Json::Object(_) => match a.get("preferred_script_language"@) {
                None => None,
                Some(Json::String(s)) => if s.len() > 0 {
                    None
                } else {
                    Some(
                        "INVALID_AUTHORING_PREFERENCE: `flowgate.authoring.preferred_script_language` is empty. Either set a non-empty string (e.g. `bash`, `python3`, `powershell`) or omit the key entirely."@,
                    )
                },
                Some(v) => Some(
                    "INVALID_AUTHORING_PREFERENCE: `flowgate.authoring.preferred_script_language` must be a string ("@
                        + kind_name(v) + ")"@,
                ),
            },
            _ => Some(
                "INVALID_AUTHORING_PREFERENCE: `flowgate.authoring` must be an object ("@
                    + kind_name(a) + ")"@,
            ),
        },
    }
}

/// Checks the preferences for authoring.
pub fn validate_authoring_preferences(config: &Value) -> (r: Result<(), String>)
    ensures
        fault(r) == preferences_fault(config@),
{
    let a = match get2(config, "flowgate", "authoring") {
        None => {
            return Ok(());
        },
        Some(a) => a,
    };
    if !a.is_object() {
        return Err(
            text::join3(
                "INVALID_AUTHORING_PREFERENCE: `flowgate.authoring` must be an object (",
                short_value_kind(a),
                ")",
            ),
        );
    }
    match a.get("preferred_script_language") {
        None => Ok(()),
        Some(Value::String(s)) => {
            if s.as_str().unicode_len() > 0 {
                Ok(())
            } else {
                Err(
                    "INVALID_AUTHORING_PREFERENCE: `flowgate.authoring.preferred_script_language` is empty. Either set a non-empty string (e.g. `bash`, `python3`, `powershell`) or omit the key entirely.".to_owned(),
                )
            }
        },
        Some(v) => Err(
            text::join3(
                "INVALID_AUTHORING_PREFERENCE: `flowgate.authoring.preferred_script_language` must be a string (",
                short_value_kind(v),
                ")",
            ),
        ),
    }
}

} // verus!
