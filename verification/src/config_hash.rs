//! Content identity of skill and script bodies.
use crate::audit;
use crate::text;
use sha2::Digest;
use vstd::prelude::*;

verus! {

// ---------------------------------------------------------------------------
// Skill bodies: only the words count
// ---------------------------------------------------------------------------

/// The words of a text: its longest runs of characters that are not white space.
pub open spec fn words(s: Seq<char>) -> Seq<Seq<char>>
    decreases s.len(),
{
    if s.len() == 0 {
        Seq::empty()
    } else {
        let before = words(s.drop_last());
        if text::char_is_whitespace(s.last()) {
            before
        } else if s.len() >= 2 && !text::char_is_whitespace(s[s.len() - 2]) {
            before.drop_last().push(before.last().push(s.last()))
        } else {
            before.push(seq![s.last()])
        }
    }
}

/// The form of a skill body that is hashed: its words, one space apart.
pub open spec fn normalized(body: Seq<char>) -> Seq<char> {
    text::spaced(words(body))
}

/// A word has a character, and none of its characters is white space. A text that
/// does not end in white space ends in a word.
proof fn lemma_words(s: Seq<char>)
    ensures
        forall|i: int|
            0 <= i < words(s).len() ==> (#[trigger] words(s)[i]).len() > 0 && forall|j: int|
                0 <= j < words(s)[i].len() ==> !text::char_is_whitespace(
                    #[trigger] words(s)[i][j],
                ),
        s.len() > 0 && !text::char_is_whitespace(s.last()) ==> words(s).len() > 0,
    decreases s.len(),
{
    if s.len() > 0 {
        lemma_words(s.drop_last());
        if s.len() >= 2 {
            assert(s.drop_last().last() == s[s.len() - 2]);
        }
        let before = words(s.drop_last());
        assert forall|i: int| 0 <= i < words(s).len() implies (#[trigger] words(s)[i]).len() > 0
            && forall|j: int|
            0 <= j < words(s)[i].len() ==> !text::char_is_whitespace(
                #[trigger] words(s)[i][j],
            ) by {
            if i < before.len() {
                assert(before[i].len() > 0);
            }
        }
    }
}

/// Adding a character to the last word adds it to the text.
proof fn lemma_spaced_extend(ws: Seq<Seq<char>>, c: char)
    requires
        ws.len() > 0,
    ensures
        text::spaced(ws.drop_last().push(ws.last().push(c))) == text::spaced(ws).push(c),
{
    let w2 = ws.drop_last().push(ws.last().push(c));
    assert(w2.drop_last() =~= ws.drop_last());
    if ws.len() > 1 {
        assert(text::spaced(w2) =~= text::spaced(ws).push(c));
    }
}

/// Adding a word adds a space and the word.
proof fn lemma_spaced_push(ws: Seq<Seq<char>>, w: Seq<char>)
    ensures
        text::spaced(ws.push(w)) == (if ws.len() == 0 {
            w
        } else {
            text::spaced(ws).push(' ') + w
        }),
{
    assert(ws.push(w).drop_last() =~= ws);
}

/// Appending a word that follows white space or stands first adds that word.
proof fn lemma_words_append(s: Seq<char>, w: Seq<char>)
    requires
        w.len() > 0,
        forall|j: int| 0 <= j < w.len() ==> !text::char_is_whitespace(#[trigger] w[j]),
        s.len() == 0 || text::char_is_whitespace(s.last()),
    ensures
        words(s + w) == words(s).push(w),
    decreases w.len(),
{
    let t = s + w;
    assert(t.last() == w.last());
    if w.len() == 1 {
        assert(t.drop_last() =~= s);
        assert(w =~= seq![w.last()]);
        if t.len() >= 2 {
            assert(t[t.len() - 2] == s.last());
        }
    } else {
        let v = w.drop_last();
        lemma_words_append(s, v);
        assert(t.drop_last() =~= s + v);
        assert(t[t.len() - 2] == w[w.len() - 2]);
        assert(words(s).push(v).drop_last() =~= words(s));
        assert(v.push(w.last()) =~= w);
    }
}

/// The words of a text of words are those words.
proof fn lemma_words_spaced(ws: Seq<Seq<char>>)
    requires
        forall|i: int|
            0 <= i < ws.len() ==> (#[trigger] ws[i]).len() > 0 && forall|j: int|
                0 <= j < ws[i].len() ==> !text::char_is_whitespace(#[trigger] ws[i][j]),
    ensures
        words(text::spaced(ws)) == ws,
    decreases ws.len(),
{
    if ws.len() == 0 {
        assert(words(text::spaced(ws)) =~= ws);
    } else if ws.len() == 1 {
        assert(ws[0].len() > 0);
        lemma_words_append(Seq::empty(), ws[0]);
        assert(Seq::<char>::empty() + ws[0] =~= ws[0]);
        assert(words(Seq::<char>::empty()) =~= Seq::empty());
        assert(words(text::spaced(ws)) =~= ws);
    } else {
        let before = ws.drop_last();
        assert forall|i: int| 0 <= i < before.len() implies (#[trigger] before[i]).len() > 0
            && forall|j: int|
            0 <= j < before[i].len() ==> !text::char_is_whitespace(#[trigger] before[i][j]) by {
            assert(ws[i].len() > 0);
        }
        lemma_words_spaced(before);
        let s = text::spaced(before).push(' ');
        assert(s.drop_last() =~= text::spaced(before));
        assert(words(s) == before);
        assert(ws[ws.len() - 1].len() > 0);
        lemma_words_append(s, ws.last());
        assert(words(text::spaced(ws)) =~= ws);
    }
}

/// The form of a skill body that is hashed. Normalizing once more changes nothing.
pub fn normalize_for_hash(body: &str) -> (r: String)
    ensures
        r@ == normalized(body@),
        normalized(r@) == r@,
{
    let cs = text::chars_of(body);
    let mut out: String = String::new();
    let mut gap: bool = false;
    let mut empty: bool = true;
    let mut i: usize = 0;
    assert(body@.take(0) =~= Seq::empty());
    assert(words(body@.take(0)) =~= Seq::empty());
    while i < cs.len()
        invariant
            i <= cs.len(),
            cs@ == body@,
            out@ == text::spaced(words(body@.take(i as int))),
            empty == (words(body@.take(i as int)).len() == 0),
            gap == (i > 0 && text::char_is_whitespace(body@[i - 1])),
        decreases cs.len() - i,
    {
        let c = cs[i];
        let ghost pre = body@.take(i as int);
        let ghost next = body@.take(i + 1);
        proof {
            assert(next.drop_last() =~= pre);
            assert(next.last() == c);
            if i > 0 {
                assert(next[next.len() - 2] == body@[i - 1]);
                assert(pre.last() == body@[i - 1]);
            }
            lemma_words(pre);
        }
        if c.is_whitespace() {
            gap = true;
        } else {
            if gap || empty {
                proof {
                    lemma_spaced_push(words(pre), seq![c]);
                }
                if !empty {
                    out.push(' ');
                    assert(out@ + seq![c] =~= out@.push(c));
                } else {
                    assert(seq![c] =~= Seq::<char>::empty().push(c));
                }
            } else {
                proof {
                    lemma_spaced_extend(words(pre), c);
                }
            }
            out.push(c);
            gap = false;
            empty = false;
        }
        i = i + 1;
    }
    assert(body@.take(i as int) =~= body@);
    proof {
        lemma_words(body@);
        lemma_words_spaced(words(body@));
    }
    out
}

// ---------------------------------------------------------------------------
// Script bodies: everything but trailing newlines counts
// ---------------------------------------------------------------------------

/// The text without its trailing newlines.
pub open spec fn stripped(s: Seq<char>) -> Seq<char>
    decreases s.len(),
{
    if s.len() > 0 && s.last() == '\n' {
        stripped(s.drop_last())
    } else {
        s
    }
}

/// The form of a script body that is hashed: it ends in exactly one newline.
pub open spec fn script_normalized(body: Seq<char>) -> Seq<char> {
    stripped(body).push('\n')
}

/// The form of a script body that is hashed.
pub fn normalize_for_script_hash(body: &str) -> (r: String)
    ensures
        r@ == script_normalized(body@),
{
    let cs = text::chars_of(body);
    let mut n: usize = cs.len();
    assert(cs@.subrange(0, n as int) =~= body@);
    while n > 0 && cs[n - 1] == '\n'
        invariant
            n <= cs.len(),
            stripped(cs@.subrange(0, n as int)) == stripped(body@),
        decreases n,
    {
        assert(cs@.subrange(0, n as int).drop_last() =~= cs@.subrange(0, n - 1));
        n = n - 1;
    }
    let mut s = text::string_of_range(&cs, 0, n);
    s.push('\n');
    s
}

/// Normalizing a script body once more changes nothing.
pub proof fn law_script_normalized_once(body: Seq<char>)
    ensures
        script_normalized(script_normalized(body)) == script_normalized(body),
{
    let n = script_normalized(body);
    lemma_stripped(body);
    assert(n.drop_last() =~= stripped(body));
    assert(stripped(n) == stripped(stripped(body)));
}

/// A text without its trailing newlines has no trailing newline.
proof fn lemma_stripped(s: Seq<char>)
    ensures
        stripped(stripped(s)) == stripped(s),
    decreases s.len(),
{
    if s.len() > 0 && s.last() == '\n' {
        lemma_stripped(s.drop_last());
    }
}

/// Trailing newlines make no difference to a script body.
pub proof fn law_trailing_newlines_do_not_count(body: Seq<char>)
    ensures
        script_normalized(body.push('\n')) == script_normalized(body),
{
    assert(body.push('\n').drop_last() =~= body);
}

/// Anything before the trailing newlines counts: two bodies with one normal form
/// differ in trailing newlines only.
pub proof fn law_inner_text_counts(a: Seq<char>, b: Seq<char>)
    requires
        script_normalized(a) == script_normalized(b),
    ensures
        stripped(a) == stripped(b),
{
    assert(script_normalized(a).drop_last() =~= stripped(a));
    assert(script_normalized(b).drop_last() =~= stripped(b));
}

// ---------------------------------------------------------------------------
// Hashes
// ---------------------------------------------------------------------------

/// The SHA-256 digest of the UTF-8 form of a text, in lowercase hexadecimal.
pub uninterp spec fn sha256_hex_text(s: Seq<char>) -> Seq<char>;

/// `sha2::Sha256::digest` of the UTF-8 bytes, shown by `{:x}`: a function of the
/// text alone, written as 64 lowercase hexadecimal digits.
#[verifier::external_body]
pub(crate) fn sha256_hex(s: &str) -> (r: String)
    ensures
        r@ == sha256_hex_text(s@),
        audit::is_hex(r@, 64),
{
    format!("{:x}", sha2::Sha256::digest(s.as_bytes()))
}

/// The hash of a skill body.
pub open spec fn skill_hash(body: Seq<char>) -> Seq<char> {
    "sha256:"@ + sha256_hex_text(normalized(body))
}

/// The hash of a script body.
pub open spec fn script_hash(body: Seq<char>) -> Seq<char> {
    "sha256:"@ + sha256_hex_text(script_normalized(body))
}

/// A well-formed hash: the algorithm and 64 lowercase hexadecimal digits.
pub open spec fn is_hash(s: Seq<char>) -> bool {
    match text::after_prefix(s, "sha256:"@) {
        Some(hex) => audit::is_hex(hex, 64),
        None => false,
    }
}

/// The hash of a skill body.
pub fn compute_skill_hash(body: &str) -> (r: String)
    ensures
        r@ == skill_hash(body@),
        is_hash(r@),
{
    let n = normalize_for_hash(body);
    prefixed_hash(n.as_str())
}

/// The hash of a script body.
pub fn compute_script_hash(body: &str) -> (r: String)
    ensures
        r@ == script_hash(body@),
        is_hash(r@),
{
    let n = normalize_for_script_hash(body);
    prefixed_hash(n.as_str())
}

fn prefixed_hash(s: &str) -> (r: String)
    ensures
        r@ == "sha256:"@ + sha256_hex_text(s@),
        is_hash(r@),
{
    let h = sha256_hex(s);
    let r = text::join2("sha256:", h.as_str());
    assert(r@.take("sha256:"@.len() as int) =~= "sha256:"@);
    assert(r@.skip("sha256:"@.len() as int) =~= h@);
    r
}

/// Differences in white space alone give a skill the same hash.
pub proof fn law_skill_hash_ignores_white_space(a: Seq<char>, b: Seq<char>)
    requires
        words(a) == words(b),
    ensures
        skill_hash(a) == skill_hash(b),
{
}

/// Trailing newlines give a script the same hash.
pub proof fn law_script_hash_ignores_trailing_newlines(a: Seq<char>, b: Seq<char>)
    requires
        stripped(a) == stripped(b),
    ensures
        script_hash(a) == script_hash(b),
{
}

/// Whether the text is a lowercase hexadecimal numeral of `n` digits.
fn hex_of_len(s: &str, n: usize) -> (r: bool)
    ensures
        r == audit::is_hex(s@, n as nat),
{
    let cs = text::chars_of(s);
    if cs.len() != n {
        return false;
    }
    let mut i: usize = 0;
    while i < cs.len()
        invariant
            i <= cs.len(),
            cs@ == s@,
            forall|j: int| 0 <= j < i ==> audit::is_hex_digit(#[trigger] s@[j]),
        decreases cs.len() - i,
    {
        if !(text::digit(cs[i]) || ('a' <= cs[i] && cs[i] <= 'f')) {
            assert(!audit::is_hex_digit(s@[i as int]));
            return false;
        }
        i = i + 1;
    }
    true
}

/// What is wrong with the form of a hash.
pub open spec fn hash_fault(s: Seq<char>, subject: Seq<char>) -> Option<Seq<char>> {
    let head = "INVALID_SCRIPT_HASH_FORMAT: scripts entry '"@ + subject + "' hash '"@ + s;
    match text::after_prefix(s, "sha256:"@) {
        None => Some(
            head + "' is missing the `sha256:` prefix. Expected `sha256:<64-hex-chars>`."@,
        ),
        Some(hex) => if audit::is_hex(hex, 64) {
            None
        } else {
            Some(
                head
                    + "' has malformed digest. Expected `sha256:<64 lowercase hex chars>`."@,
            )
        },
    }
}

/// Checks the form of a hash.
pub fn validate_hash_format(s: &str, subject: &str) -> (r: Result<(), String>)
    ensures
        match r {
            Ok(_) => hash_fault(s@, subject@) is None,
            Err(m) => hash_fault(s@, subject@) == Some(m@),
        },
        r is Ok == is_hash(s@),
{
    match text::strip_prefix(s, "sha256:") {
        None => Err(
            text::join5(
                "INVALID_SCRIPT_HASH_FORMAT: scripts entry '",
                subject,
                "' hash '",
                s,
                "' is missing the `sha256:` prefix. Expected `sha256:<64-hex-chars>`.",
            ),
        ),
        Some(hex) => {
            if hex_of_len(hex, 64) {
                Ok(())
            } else {
                Err(
                    text::join5(
                        "INVALID_SCRIPT_HASH_FORMAT: scripts entry '",
                        subject,
                        "' hash '",
                        s,
                        "' has malformed digest. Expected `sha256:<64 lowercase hex chars>`.",
                    ),
                )
            }
        },
    }
}

} // verus!
