//! Where the bodies of scripts are fetched from, and whether a fetch succeeded.
use crate::text;
use vstd::prelude::*;

verus! {

/// Where the body of a script comes from.
#[derive(Debug, PartialEq)]
pub enum ScriptSource {
    /// A file of this machine.
    File(String),
    /// A page that is fetched.
    Https(String),
    /// A file of a repository at a revision.
    Git { repository: String, revision: String, path: String },
}

/// A source as a mathematical value.
pub enum SourceView {
    File(Seq<char>),
    Https(Seq<char>),
    Git { repository: Seq<char>, revision: Seq<char>, path: Seq<char> },
}

impl View for ScriptSource {
    type V = SourceView;

    open spec fn view(&self) -> SourceView {
        match self {
            ScriptSource::File(p) => SourceView::File(p@),
            ScriptSource::Https(u) => SourceView::Https(u@),
            ScriptSource::Git { repository, revision, path } => SourceView::Git {
                repository: repository@,
                revision: revision@,
                path: path@,
            },
        }
    }
}

/// The two sides of the last `c` in `s`.
pub open spec fn last_halves(s: Seq<char>, c: char) -> Option<(Seq<char>, Seq<char>)>
    decreases s.len(),
{
    if s.len() == 0 {
        None
    } else if s.last() == c {
        Some((s.drop_last(), Seq::empty()))
    } else {
        match last_halves(s.drop_last(), c) {
            Some(p) => Some((p.0, p.1.push(s.last()))),
            None => None,
        }
    }
}

/// The last `c` of a text parts it.
proof fn lemma_last_halves(s: Seq<char>, c: char, i: int)
    requires
        -1 <= i < s.len(),
        i >= 0 ==> s[i] == c,
        forall|j: int| i < j < s.len() ==> s[j] != c,
    ensures
        last_halves(s, c) == (if i >= 0 {
            Some((s.take(i), s.skip(i + 1)))
        } else {
            None
        }),
    decreases s.len(),
{
    if s.len() > 0 {
        if i == s.len() - 1 {
            assert(s.drop_last() =~= s.take(i));
            assert(s.skip(i + 1) =~= Seq::empty());
        } else {
            let t = s.drop_last();
            lemma_last_halves(t, c, i);
            if i >= 0 {
                assert(t.take(i) =~= s.take(i));
                assert(t.skip(i + 1).push(s.last()) =~= s.skip(i + 1));
            }
        }
    }
}

fn split_last(s: &str, c: char) -> (r: Option<(String, String)>)
    ensures
        match r {
            Some(p) => last_halves(s@, c) == Some((p.0@, p.1@)),
            None => last_halves(s@, c) is None,
        },
{
    let cs = text::chars_of(s);
    let mut i: usize = cs.len();
    while i > 0 && cs[i - 1] != c
        invariant
            i <= cs.len(),
            cs@ == s@,
            forall|j: int| i <= j < s@.len() ==> s@[j] != c,
        decreases i,
    {
        i = i - 1;
    }
    proof {
        lemma_last_halves(s@, c, i - 1);
    }
    if i == 0 {
        return None;
    }
    let a = text::string_of_range(&cs, 0, i - 1);
    let b = text::string_of_range(&cs, i, cs.len());
    assert(a@ =~= s@.take(i - 1));
    assert(b@ =~= s@.skip(i as int));
    Some((a, b))
}

/// The repository, the revision and the path in what follows the scheme of a uri.
pub open spec fn git_source(rest: Seq<char>, uri: Seq<char>) -> Result<SourceView, Seq<char>> {
    match text::halves(rest, '#') {
        None => Err("missing #<path> in "@ + uri),
        Some(p) => match last_halves(p.0, '@') {
            None => Err("missing @<ref> in "@ + uri),
            Some(q) => Ok(
                SourceView::Git { repository: "https://"@ + q.0, revision: q.1, path: p.1 },
            ),
        },
    }
}

/// Where the body of a script comes from, by the scheme of its uri.
pub open spec fn source(uri: Seq<char>, subject: Seq<char>) -> Result<SourceView, Seq<char>> {
    match text::after_prefix(uri, "file://"@) {
        Some(path) => Ok(SourceView::File(path)),
        None => if "https://"@.is_prefix_of(uri) {
            Ok(SourceView::Https(uri))
        } else {
            match text::after_prefix(uri, "git+https://"@) {
                Some(rest) => git_source(rest, uri),
                None => Err(
                    "UNSUPPORTED_SCRIPT_URI_SCHEME: scripts entry '"@ + subject + "' uri '"@ + uri
                        + "' reached read_script_uri with an unsupported scheme — validate_scripts should have caught this. Supported: file://, https://, git+https://."@,
                ),
            }
        },
    }
}

/// The outcome of reading a uri.
pub open spec fn source_result(r: Result<ScriptSource, String>) -> Result<SourceView, Seq<char>> {
    match r {
        Ok(s) => Ok(s@),
        Err(m) => Err(m@),
    }
}

/// Where the body of a script comes from.
pub fn read_script_uri(uri: &str, subject: &str) -> (r: Result<ScriptSource, String>)
    ensures
        source_result(r) == source(uri@, subject@),
{
    if let Some(path) = text::strip_prefix(uri, "file://") {
        return Ok(ScriptSource::File(path.to_owned()));
    }
    if text::starts_with(uri, "https://") {
        return Ok(ScriptSource::Https(uri.to_owned()));
    }
    match text::strip_prefix(uri, "git+https://") {
        Some(rest) => match text::split_once(rest, '#') {
            None => Err(text::join2("missing #<path> in ", uri)),
            Some((at, path)) => match split_last(at.as_str(), '@') {
                None => Err(text::join2("missing @<ref> in ", uri)),
                Some((host, revision)) => Ok(
                    ScriptSource::Git {
                        repository: text::join2("https://", host.as_str()),
                        revision,
                        path,
                    },
                ),
            },
        },
        None => Err(
            text::join5(
                "UNSUPPORTED_SCRIPT_URI_SCHEME: scripts entry '",
                subject,
                "' uri '",
                uri,
                "' reached read_script_uri with an unsupported scheme — validate_scripts should have caught this. Supported: file://, https://, git+https://.",
            ),
        ),
    }
}

/// Where a uri was found to be good, its source is known.
pub proof fn law_good_uris_have_a_source(at: Seq<char>, uri: Seq<char>, subject: Seq<char>)
    requires
        crate::config_check::known_scheme(uri),
        crate::config_check::git_fault(at, uri) is None,
    ensures
        source(uri, subject) is Ok,
{
    if "git+https://"@.is_prefix_of(uri) && !"file://"@.is_prefix_of(uri)
        && !"https://"@.is_prefix_of(uri) {
        reveal_strlit("git+https://");
        let g = "git+https://"@;
        assert(g.len() == 12);
        let rest = uri.skip(12);
        let p = text::halves(uri, '#')->Some_0;
        lemma_halves_after(uri, g, '#');
        assert(p.0.contains('@'));
        let k = choose|k: int| 0 <= k < p.0.len() && p.0[k] == '@';
        text::lemma_first_pos(uri, '#');
        assert(p.0 == uri.take(text::first_pos(uri, '#')));
        assert(uri[k] == '@');
        assert(k >= 12) by {
            assert(forall|i: int| 0 <= i < 12 ==> uri[i] == #[trigger] g[i]);
            if k < 12 {
                assert(g[k] == '@');
            }
        }
        let q = text::halves(rest, '#')->Some_0;
        assert(q.0[k - 12] == '@');
        lemma_has_last(q.0, '@', k - 12);
    }
}

proof fn lemma_has_last(s: Seq<char>, c: char, k: int)
    requires
        0 <= k < s.len(),
        s[k] == c,
    ensures
        last_halves(s, c) is Some,
    decreases s.len(),
{
    if s.last() != c {
        lemma_has_last(s.drop_last(), c, k);
    }
}

/// A character that is not in the prefix parts what follows the prefix.
proof fn lemma_halves_after(s: Seq<char>, p: Seq<char>, c: char)
    requires
        p.is_prefix_of(s),
        !p.contains(c),
        text::halves(s, c) is Some,
    ensures
        text::halves(s.skip(p.len() as int), c) == Some(
            (
                text::halves(s, c)->Some_0.0.skip(p.len() as int),
                text::halves(s, c)->Some_0.1,
            ),
        ),
        text::halves(s, c)->Some_0.0.len() >= p.len(),
{
    let n = p.len() as int;
    let t = s.skip(n);
    text::lemma_first_pos(s, c);
    text::lemma_first_pos(t, c);
    let i = text::first_pos(s, c);
    let j = text::first_pos(t, c);
    assert(forall|k: int| 0 <= k < n ==> s[k] == #[trigger] p[k]);
    if i < n {
        assert(p[i] == c);
        assert(p.contains(c));
    }
    assert(t[i - n] == s[i]);
    if j > i - n {
        assert(t[i - n] != c);
    }
    if j < i - n {
        assert(s[j + n] == t[j]);
    }
    assert(j == i - n);
    assert(s.take(i).skip(n) =~= t.take(j));
    assert(s.skip(i + 1) =~= t.skip(j + 1));
}

// ---------------------------------------------------------------------------
// Outcomes
// ---------------------------------------------------------------------------

/// How a process ended: whether it succeeded, and its code, when it has one.
#[derive(Debug, Clone, Copy, PartialEq, Eq, Structural)]
pub struct Exit {
    pub success: bool,
    pub code: Option<i32>,
}

/// A code as it is shown.
pub open spec fn code_text(code: Option<i32>) -> Seq<char> {
    match code {
        None => "None"@,
        Some(n) => if n < 0 {
            "Some(-"@ + text::decimal((-(n as int)) as nat) + ")"@
        } else {
            "Some("@ + text::decimal(n as nat) + ")"@
        },
    }
}

fn show_code(code: Option<i32>) -> (r: String)
    ensures
        r@ == code_text(code),
{
    match code {
        None => "None".to_owned(),
        Some(n) => {
            let wide: i64 = n as i64;
            if wide < 0 {
                let m: u64 = (-wide) as u64;
                text::join3("Some(-", text::decimal_of(m).as_str(), ")")
            } else {
                text::join3("Some(", text::decimal_of(wide as u64).as_str(), ")")
            }
        },
    }
}

/// What is wrong with the outcome of fetching a script from a repository.
pub open spec fn git_fetch_fault(
    subject: Seq<char>,
    uri: Seq<char>,
    repository: Seq<char>,
    revision: Seq<char>,
    path: Seq<char>,
    archive: Exit,
    extract: Exit,
    body: Seq<char>,
) -> Option<Seq<char>> {
    let at = "scripts entry '"@ + subject + "' uri '"@ + uri + "'"@;
    if !archive.success {
        Some(
            "GIT_ARCHIVE_NOT_SUPPORTED: "@ + at + " — `git archive --remote="@ + repository
                + "` exited with code "@ + code_text(archive.code)
                + ". Many forges (GitHub, GitLab.com) disable `upload-archive` over https for security. Workarounds: host the script via plain https:// (e.g. raw.githubusercontent.com/<owner>/<repo>/<ref>/<path>), or use a self-hosted mirror that permits upload-archive."@,
        )
    } else if !extract.success {
        Some(
            at + " — `tar -x -O` exited with code "@ + code_text(extract.code)
                + ". The git archive may not contain '"@ + path
                + "', or the path uses an unsupported format."@,
        )
    } else if body.len() == 0 {
        Some(
            at + " resolved to an empty body. Check that '"@ + path
                + "' exists in the repo at ref '"@ + revision + "'."@,
        )
    } else {
        None
    }
}

/// Judges the outcome of fetching a script from a repository.
pub fn check_git_fetch(
    subject: &str,
    uri: &str,
    repository: &str,
    revision: &str,
    path: &str,
    archive: Exit,
    extract: Exit,
    body: &str,
) -> (r: Result<(), String>)
    ensures
        crate::config_check::fault(r) == git_fetch_fault(
            subject@,
            uri@,
            repository@,
            revision@,
            path@,
            archive,
            extract,
            body@,
        ),
{
    let at = text::join5("scripts entry '", subject, "' uri '", uri, "'");
    if !archive.success {
        Err(
            text::join7(
                "GIT_ARCHIVE_NOT_SUPPORTED: ",
                at.as_str(),
                " — `git archive --remote=",
                repository,
                "` exited with code ",
                show_code(archive.code).as_str(),
                ". Many forges (GitHub, GitLab.com) disable `upload-archive` over https for security. Workarounds: host the script via plain https:// (e.g. raw.githubusercontent.com/<owner>/<repo>/<ref>/<path>), or use a self-hosted mirror that permits upload-archive.",
            ),
        )
    } else if !extract.success {
        Err(
            text::join6(
                at.as_str(),
                " — `tar -x -O` exited with code ",
                show_code(extract.code).as_str(),
                ". The git archive may not contain '",
                path,
                "', or the path uses an unsupported format.",
            ),
        )
    } else if text::chars_of(body).len() == 0 {
        Err(
            text::join6(
                at.as_str(),
                " resolved to an empty body. Check that '",
                path,
                "' exists in the repo at ref '",
                revision,
                "'.",
            ),
        )
    } else {
        Ok(())
    }
}

/// What is wrong with the status of a page.
pub open spec fn https_fetch_fault(subject: Seq<char>, uri: Seq<char>, status: u16) -> Option<
    Seq<char>,
> {
    if 200 <= status < 300 {
        None
    } else {
        Some(
            "SCRIPT_URI_FETCH_FAILED: scripts entry '"@ + subject + "' uri '"@ + uri
                + "' returned HTTP "@ + text::decimal(status as nat)
                + " — expected 2xx. Caller may have moved/deleted the resource, or the host requires authentication (not currently supported; the v1 https fetcher is anonymous)."@,
        )
    }
}

/// Judges the status of a page that was fetched for a script.
pub fn check_https_fetch(subject: &str, uri: &str, status: u16) -> (r: Result<(), String>)
    ensures
        crate::config_check::fault(r) == https_fetch_fault(subject@, uri@, status),
{
    if 200 <= status && status < 300 {
        Ok(())
    } else {
        Err(
            text::join7(
                "SCRIPT_URI_FETCH_FAILED: scripts entry '",
                subject,
                "' uri '",
                uri,
                "' returned HTTP ",
                text::decimal_of(status as u64).as_str(),
                " — expected 2xx. Caller may have moved/deleted the resource, or the host requires authentication (not currently supported; the v1 https fetcher is anonymous).",
            ),
        )
    }
}

/// The part of a path that stands below the home directory: what follows `~/`.
pub fn below_home(path: &str) -> (r: Option<&str>)
    ensures
        text::opt_str(r) == text::after_prefix(path@, "~/"@),
{
    text::strip_prefix(path, "~/")
}

} // verus!
