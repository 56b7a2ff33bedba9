//! Text helpers stated over character sequences.
//!
//! Every function here reads or builds `str` and `String` values through their
//! character sequences, so that the contracts elsewhere can speak of text as a
//! `Seq<char>`.
use vstd::prelude::*;
use vstd::string::*;

verus! {

// ---------------------------------------------------------------------------
// What the standard library decides
// ---------------------------------------------------------------------------

/// Whether a character has the `White_Space` property: the tab, the line feed and what
/// lies between it and the carriage return, the spaces, and the separators of lines
/// and paragraphs.
pub open spec fn char_is_whitespace(c: char) -> bool {
    '\u{9}' <= c <= '\u{d}' || c == ' ' || c == '\u{85}' || c == '\u{a0}' || c == '\u{1680}'
        || '\u{2000}' <= c <= '\u{200a}' || c == '\u{2028}' || c == '\u{2029}' || c == '\u{202f}'
        || c == '\u{205f}' || c == '\u{3000}'
}

/// Whether a character is a letter or a number, as `char::is_alphanumeric`
/// answers.
pub uninterp spec fn char_is_alphanumeric(c: char) -> bool;

/// The lowercase form of a text, as `str::to_lowercase` gives it.
pub uninterp spec fn lowercase_text(s: Seq<char>) -> Seq<char>;

/// The `Debug` rendering of a list of texts, as `format!("{:?}", ..)` gives it.
pub uninterp spec fn debug_list_text(items: Seq<Seq<char>>) -> Seq<char>;

/// `String::push`: the character is appended to the end of the text.
pub assume_specification[ std::string::String::push ](s: &mut std::string::String, c: char)
    ensures
        final(s)@ == old(s)@.push(c),
;

/// `char::is_whitespace`: the characters with the `White_Space` property are white
/// space, and no others.
pub assume_specification[ char::is_whitespace ](c: char) -> (r: bool)
    ensures
        r == char_is_whitespace(c),
;

/// `char::is_alphanumeric`: the answer is a function of the character alone.
pub assume_specification[ char::is_alphanumeric ](c: char) -> (r: bool)
    ensures
        r == char_is_alphanumeric(c),
;

/// `str::to_lowercase`: the result is a function of the text alone.
pub assume_specification[ str::to_lowercase ](s: &str) -> (r: std::string::String)
    ensures
        r@ == lowercase_text(s@),
;

/// `format!("{:?}", items)`: the `Debug` rendering of a list of strings is a
/// function of the strings alone.
#[verifier::external_body]
pub(crate) fn debug_list(items: &Vec<String>) -> (r: String)
    ensures
        r@ == debug_list_text(texts(items@)),
{
    format!("{:?}", items)
}

// ---------------------------------------------------------------------------
// Conversions and comparison
// ---------------------------------------------------------------------------

/// The character sequences of a sequence of strings.
pub open spec fn texts(v: Seq<String>) -> Seq<Seq<char>> {
    Seq::new(v.len(), |i: int| v[i]@)
}

/// The text of an optional string.
pub open spec fn opt_text(o: Option<String>) -> Option<Seq<char>> {
    match o {
        Some(s) => Some(s@),
        None => None,
    }
}

/// The text of an optional string slice.
pub open spec fn opt_str(o: Option<&str>) -> Option<Seq<char>> {
    match o {
        Some(s) => Some(s@),
        None => None,
    }
}

/// An owned copy of an optional string slice.
pub fn opt_owned(o: Option<&str>) -> (r: Option<String>)
    ensures
        opt_text(r) == opt_str(o),
{
    match o {
        Some(s) => Some(s.to_owned()),
        None => None,
    }
}

/// A copy of an optional string.
pub fn opt_copy(o: &Option<String>) -> (r: Option<String>)
    ensures
        opt_text(r) == opt_text(*o),
{
    match o {
        Some(s) => Some(s.clone()),
        None => None,
    }
}

/// A copy of a list of strings.
pub fn copy_texts(v: &Vec<String>) -> (r: Vec<String>)
    ensures
        texts(r@) == texts(v@),
{
    let mut out: Vec<String> = Vec::new();
    let mut i: usize = 0;
    while i < v.len()
        invariant
            i <= v.len(),
            texts(out@) == texts(v@).take(i as int),
        decreases v.len() - i,
    {
        let s = v[i].clone();
        proof {
            assert(texts(out@.push(s)) =~= texts(out@).push(s@));
        }
        out.push(s);
        i = i + 1;
    }
    out
}

/// Adding one string to a list adds its text to the list of texts.
pub proof fn lemma_texts_push(v: Seq<String>, s: String)
    ensures
        texts(v.push(s)) == texts(v).push(s@),
{
    assert(texts(v.push(s)) =~= texts(v).push(s@));
}

/// The characters of `s`, in order.
pub fn chars_of(s: &str) -> (r: Vec<char>)
    ensures
        r@ == s@,
{
    let mut out: Vec<char> = Vec::new();
    for c in it: s.chars()
        invariant
            out@ == s@.take(it.index() as int),
            it.seq() == s@,
    {
        out.push(c);
    }
    out
}

/// The string with the characters `cs[from..to]`.
pub fn string_of_range(cs: &Vec<char>, from: usize, to: usize) -> (r: String)
    requires
        from <= to <= cs.len(),
    ensures
        r@ == cs@.subrange(from as int, to as int),
{
    let mut out: String = String::new();
    let mut i: usize = from;
    while i < to
        invariant
            from <= i <= to <= cs.len(),
            out@ == cs@.subrange(from as int, i as int),
        decreases to - i,
    {
        out.push(cs[i]);
        i = i + 1;
    }
    out
}

/// Whether two texts are equal.
pub fn str_eq(a: &str, b: &str) -> (r: bool)
    ensures
        r == (a@ == b@),
{
    a.to_owned() == b.to_owned()
}

/// Whether an optional text is exactly `b`.
pub fn opt_is(a: Option<&str>, b: &str) -> (r: bool)
    ensures
        r == (opt_str(a) == Some(b@)),
{
    match a {
        Some(s) => str_eq(s, b),
        None => false,
    }
}

/// Whether a list of strings holds the text `s`.
pub fn has_text(v: &Vec<String>, s: &str) -> (r: bool)
    ensures
        r == texts(v@).contains(s@),
{
    let mut i: usize = 0;
    while i < v.len()
        invariant
            i <= v.len(),
            forall|j: int| 0 <= j < i ==> #[trigger] texts(v@)[j] != s@,
        decreases v.len() - i,
    {
        if str_eq(v[i].as_str(), s) {
            assert(texts(v@)[i as int] == s@);
            return true;
        }
        i = i + 1;
    }
    false
}

/// Lexicographic order by character from position `i` on: the order in which
/// string keys are kept.
pub open spec fn text_lt_from(a: Seq<char>, b: Seq<char>, i: nat) -> bool
    decreases b.len() - i,
{
    if i >= b.len() {
        false
    } else if i >= a.len() {
        true
    } else if a[i as int] == b[i as int] {
        text_lt_from(a, b, i + 1)
    } else {
        a[i as int] < b[i as int]
    }
}

/// Lexicographic order by character.
pub open spec fn text_lt(a: Seq<char>, b: Seq<char>) -> bool {
    text_lt_from(a, b, 0)
}

/// Whether `a` comes before `b` in the lexicographic order.
pub fn str_lt(a: &str, b: &str) -> (r: bool)
    ensures
        r == text_lt(a@, b@),
{
    let x = chars_of(a);
    let y = chars_of(b);
    let mut i: usize = 0;
    while i < y.len() && i < x.len() && x[i] == y[i]
        invariant
            i <= y.len(),
            i <= x.len(),
            x@ == a@,
            y@ == b@,
            text_lt(a@, b@) == text_lt_from(a@, b@, i as nat),
        decreases y.len() - i,
    {
        i = i + 1;
    }
    if i >= y.len() {
        false
    } else if i >= x.len() {
        true
    } else {
        x[i] < y[i]
    }
}

/// The lexicographic order is total, from any common position on.
pub proof fn lemma_text_lt_total(a: Seq<char>, b: Seq<char>, i: nat)
    requires
        forall|j: int| 0 <= j < i ==> j < a.len() && j < b.len() && a[j] == b[j],
    ensures
        a == b || text_lt_from(a, b, i) || text_lt_from(b, a, i),
        !(text_lt_from(a, b, i) && text_lt_from(b, a, i)),
        a == b ==> !text_lt_from(a, b, i),
    decreases a.len() + b.len() - i,
{
    if i < a.len() && i < b.len() && a[i as int] == b[i as int] {
        lemma_text_lt_total(a, b, i + 1);
    } else if i >= a.len() && i >= b.len() {
        if a.len() > 0 && i > 0 {
            assert(a[i - 1] == b[i - 1]);
        }
        assert(a.len() == b.len());
        assert(a =~= b);
    }
}

/// The lexicographic order is transitive.
pub proof fn lemma_text_lt_trans(a: Seq<char>, b: Seq<char>, c: Seq<char>, i: nat)
    requires
        text_lt_from(a, b, i),
        text_lt_from(b, c, i),
    ensures
        text_lt_from(a, c, i),
    decreases b.len() - i,
{
    if i < a.len() && i < b.len() && i < c.len() && a[i as int] == b[i as int] && b[i as int]
        == c[i as int] {
        lemma_text_lt_trans(a, b, c, i + 1);
    }
}

// ---------------------------------------------------------------------------
// Prefixes and occurrences
// ---------------------------------------------------------------------------

/// Whether `s` begins with `p`.
pub fn starts_with(s: &str, p: &str) -> (r: bool)
    ensures
        r == p@.is_prefix_of(s@),
{
    let n: usize = p.unicode_len();
    if s.unicode_len() < n {
        return false;
    }
    str_eq(s.substring_char(0, n), p)
}

/// What is left of `s` after the prefix `p`, when `s` begins with it.
pub open spec fn after_prefix(s: Seq<char>, p: Seq<char>) -> Option<Seq<char>> {
    if p.is_prefix_of(s) {
        Some(s.skip(p.len() as int))
    } else {
        None
    }
}

/// What is left of `s` after the prefix `p`, when `s` begins with it.
pub fn strip_prefix<'a>(s: &'a str, p: &str) -> (r: Option<&'a str>)
    ensures
        opt_str(r) == after_prefix(s@, p@),
{
    if starts_with(s, p) {
        let n: usize = p.unicode_len();
        let m: usize = s.unicode_len();
        let t = s.substring_char(n, m);
        assert(s@.subrange(n as int, m as int) =~= s@.skip(p@.len() as int));
        Some(t)
    } else {
        None
    }
}

/// `sub` occurs in `s` at position `i`.
pub open spec fn occurs_at(s: Seq<char>, sub: Seq<char>, i: int) -> bool {
    0 <= i && i + sub.len() <= s.len() && s.subrange(i, i + sub.len()) == sub
}

/// `sub` occurs somewhere in `s`.
pub open spec fn has_sub(s: Seq<char>, sub: Seq<char>) -> bool {
    exists|i: int| occurs_at(s, sub, i)
}

/// Whether `pat` stands in `cs` at position `at`.
pub fn match_at(cs: &Vec<char>, pat: &Vec<char>, at: usize) -> (r: bool)
    requires
        at <= cs.len(),
    ensures
        r == occurs_at(cs@, pat@, at as int),
{
    if pat.len() > cs.len() - at {
        return false;
    }
    let mut k: usize = 0;
    while k < pat.len()
        invariant
            k <= pat.len(),
            at + pat.len() <= cs.len(),
            forall|j: int| 0 <= j < k ==> cs@[at + j] == pat@[j],
        decreases pat.len() - k,
    {
        if cs[at + k] != pat[k] {
            assert(cs@.subrange(at as int, at + pat@.len())[k as int] != pat@[k as int]);
            return false;
        }
        k = k + 1;
    }
    assert(cs@.subrange(at as int, at + pat@.len()) =~= pat@);
    true
}

/// The first position from `from` on at which `pat` occurs in `cs`.
pub fn find_from(cs: &Vec<char>, pat: &Vec<char>, from: usize) -> (r: Option<usize>)
    requires
        from <= cs.len(),
    ensures
        match r {
            Some(i) => from <= i && occurs_at(cs@, pat@, i as int) && forall|j: int|
                from <= j < i ==> !occurs_at(cs@, pat@, j),
            None => forall|j: int| from <= j ==> !occurs_at(cs@, pat@, j),
        },
{
    let mut i: usize = from;
    while i < cs.len()
        invariant
            from <= i <= cs.len(),
            forall|j: int| from <= j < i ==> !occurs_at(cs@, pat@, j),
        decreases cs.len() - i,
    {
        if match_at(cs, pat, i) {
            return Some(i);
        }
        i = i + 1;
    }
    if match_at(cs, pat, i) {
        Some(i)
    } else {
        None
    }
}

/// The first position from `i` on at which `pat` occurs in `s`.
pub open spec fn find_pos(s: Seq<char>, pat: Seq<char>, i: int) -> Option<int>
    decreases s.len() - i,
{
    if i + pat.len() > s.len() || i >= s.len() {
        None
    } else if s.subrange(i, i + pat.len()) == pat {
        Some(i)
    } else {
        find_pos(s, pat, i + 1)
    }
}

/// A position that was found lies within the text and holds the pattern.
pub proof fn lemma_find_pos(s: Seq<char>, pat: Seq<char>, i: int)
    requires
        0 <= i,
    ensures
        find_pos(s, pat, i) matches Some(k) ==> i <= k && k + pat.len() <= s.len() && k < s.len(),
    decreases s.len() - i,
{
    if i + pat.len() <= s.len() && i < s.len() && s.subrange(i, i + pat.len()) != pat {
        lemma_find_pos(s, pat, i + 1);
    }
}

/// The first position from `from` on at which `pat` occurs in `cs`.
pub fn find_text(cs: &Vec<char>, pat: &Vec<char>, from: usize) -> (r: Option<usize>)
    requires
        from <= cs.len(),
    ensures
        match r {
            Some(i) => find_pos(cs@, pat@, from as int) == Some(i as int) && from <= i && i
                + pat.len() <= cs.len(),
            None => find_pos(cs@, pat@, from as int) is None,
        },
{
    let mut i: usize = from;
    while i < cs.len() && pat.len() <= cs.len() - i
        invariant
            from <= i <= cs.len(),
            find_pos(cs@, pat@, i as int) == find_pos(cs@, pat@, from as int),
        decreases cs.len() - i,
    {
        if match_at(cs, pat, i) {
            return Some(i);
        }
        i = i + 1;
    }
    None
}

/// Whether `sub` occurs in `s`.
pub fn contains_text(s: &str, sub: &str) -> (r: bool)
    ensures
        r == has_sub(s@, sub@),
{
    let cs = chars_of(s);
    let pat = chars_of(sub);
    match find_from(&cs, &pat, 0) {
        Some(_) => true,
        None => false,
    }
}

/// Whether the character `c` occurs in `s`.
pub fn contains_char(s: &str, c: char) -> (r: bool)
    ensures
        r == s@.contains(c),
{
    let cs = chars_of(s);
    let mut i: usize = 0;
    while i < cs.len()
        invariant
            i <= cs.len(),
            cs@ == s@,
            forall|j: int| 0 <= j < i ==> s@[j] != c,
        decreases cs.len() - i,
    {
        if cs[i] == c {
            assert(s@[i as int] == c);
            return true;
        }
        i = i + 1;
    }
    false
}

// ---------------------------------------------------------------------------
// Splitting and replacing
// ---------------------------------------------------------------------------

/// The pieces of `s` between the occurrences of `c`.
pub open spec fn split(s: Seq<char>, c: char) -> Seq<Seq<char>>
    decreases s.len(),
{
    if s.len() == 0 {
        seq![Seq::<char>::empty()]
    } else {
        let before = split(s.drop_last(), c);
        if s.last() == c {
            before.push(Seq::empty())
        } else {
            before.drop_last().push(before.last().push(s.last()))
        }
    }
}

/// The pieces of `s` between the occurrences of `c`.
pub fn split_on(s: &str, c: char) -> (r: Vec<String>)
    ensures
        texts(r@) == split(s@, c),
        r.len() >= 1,
{
    let cs = chars_of(s);
    let mut parts: Vec<String> = Vec::new();
    let mut cur: String = String::new();
    let mut i: usize = 0;
    while i < cs.len()
        invariant
            i <= cs.len(),
            cs@ == s@,
            texts(parts@).push(cur@) == split(s@.take(i as int), c),
        decreases cs.len() - i,
    {
        let ghost pre = s@.take(i as int);
        let ghost next = s@.take(i + 1);
        assert(next.drop_last() =~= pre);
        assert(next.last() == cs@[i as int]);
        let ghost done = texts(parts@);
        assert(done.push(cur@).drop_last() =~= done);
        if cs[i] == c {
            proof {
                lemma_texts_push(parts@, cur);
            }
            parts.push(cur);
            cur = String::new();
        } else {
            cur.push(cs[i]);
        }
        i = i + 1;
    }
    proof {
        lemma_texts_push(parts@, cur);
        assert(s@.take(i as int) =~= s@);
    }
    parts.push(cur);
    parts
}

/// The last piece of `s` after the occurrences of `c`.
pub fn last_piece(s: &str, c: char) -> (r: String)
    ensures
        r@ == split(s@, c).last(),
{
    let parts = split_on(s, c);
    let r = parts[parts.len() - 1].clone();
    assert(texts(parts@).last() == r@);
    r
}

/// The position of the first `c` in `s`; the length of `s` when there is none.
pub open spec fn first_pos(s: Seq<char>, c: char) -> int
    decreases s.len(),
{
    if s.len() == 0 {
        0
    } else if s[0] == c {
        0
    } else {
        1 + first_pos(s.skip(1), c)
    }
}

/// The first occurrence of a character is where it stands and nowhere before.
pub proof fn lemma_first_pos(s: Seq<char>, c: char)
    ensures
        0 <= first_pos(s, c) <= s.len(),
        first_pos(s, c) < s.len() ==> s[first_pos(s, c)] == c,
        forall|j: int| 0 <= j < first_pos(s, c) ==> s[j] != c,
    decreases s.len(),
{
    if s.len() > 0 && s[0] != c {
        lemma_first_pos(s.skip(1), c);
        assert forall|j: int| 0 <= j < first_pos(s, c) implies s[j] != c by {
            if j > 0 {
                assert(s[j] == s.skip(1)[j - 1]);
            }
        }
    }
}

/// The two sides of the first `c` in `s`.
pub open spec fn halves(s: Seq<char>, c: char) -> Option<(Seq<char>, Seq<char>)> {
    let p = first_pos(s, c);
    if p < s.len() {
        Some((s.take(p), s.skip(p + 1)))
    } else {
        None
    }
}

/// The two sides of the first `c` in `s`, when it occurs.
pub fn split_once(s: &str, c: char) -> (r: Option<(String, String)>)
    ensures
        match r {
            Some(p) => halves(s@, c) == Some((p.0@, p.1@)),
            None => halves(s@, c) is None,
        },
{
    let cs = chars_of(s);
    let mut i: usize = 0;
    proof {
        lemma_first_pos(s@, c);
    }
    while i < cs.len() && cs[i] != c
        invariant
            i <= cs.len(),
            cs@ == s@,
            forall|j: int| 0 <= j < i ==> s@[j] != c,
        decreases cs.len() - i,
    {
        i = i + 1;
    }
    if i < cs.len() {
        assert(first_pos(s@, c) == i);
        let a = string_of_range(&cs, 0, i);
        let b = string_of_range(&cs, i + 1, cs.len());
        assert(s@.take(i as int) =~= cs@.subrange(0, i as int));
        assert(s@.skip(i + 1) =~= cs@.subrange(i + 1, cs@.len() as int));
        Some((a, b))
    } else {
        None
    }
}

/// `s` with every `c` replaced by the text `t`.
pub open spec fn replaced_char(s: Seq<char>, c: char, t: Seq<char>) -> Seq<char>
    decreases s.len(),
{
    if s.len() == 0 {
        s
    } else if s.last() == c {
        replaced_char(s.drop_last(), c, t) + t
    } else {
        replaced_char(s.drop_last(), c, t).push(s.last())
    }
}

/// `s` with every `c` replaced by the text `t`.
pub fn replace_char(s: &str, c: char, t: &str) -> (r: String)
    ensures
        r@ == replaced_char(s@, c, t@),
{
    let cs = chars_of(s);
    let mut out: String = String::new();
    let mut i: usize = 0;
    while i < cs.len()
        invariant
            i <= cs.len(),
            cs@ == s@,
            out@ == replaced_char(s@.take(i as int), c, t@),
        decreases cs.len() - i,
    {
        assert(s@.take(i + 1).drop_last() =~= s@.take(i as int));
        if cs[i] == c {
            out.append(t);
        } else {
            out.push(cs[i]);
        }
        i = i + 1;
    }
    assert(s@.take(i as int) =~= s@);
    out
}

/// `s` with every occurrence of `pat`, found from the left without overlap,
/// replaced by the text `t`.
pub open spec fn replaced(s: Seq<char>, pat: Seq<char>, t: Seq<char>) -> Seq<char>
    decreases s.len(),
{
    if pat.len() == 0 || s.len() < pat.len() {
        s
    } else if s.take(pat.len() as int) == pat {
        t + replaced(s.skip(pat.len() as int), pat, t)
    } else {
        seq![s[0]] + replaced(s.skip(1), pat, t)
    }
}

/// `s` with every occurrence of `pat` replaced by the text `t`.
pub fn replace_text(s: &str, pat: &str, t: &str) -> (r: String)
    requires
        pat@.len() > 0,
    ensures
        r@ == replaced(s@, pat@, t@),
{
    let cs = chars_of(s);
    let ps = chars_of(pat);
    let mut out: String = String::new();
    let mut i: usize = 0;
    assert(s@.skip(0) =~= s@);
    while ps.len() <= cs.len() - i
        invariant
            i <= cs.len(),
            cs@ == s@,
            ps@ == pat@,
            ps.len() > 0,
            out@ + replaced(s@.skip(i as int), pat@, t@) == replaced(s@, pat@, t@),
        decreases cs.len() - i,
    {
        let ghost rest = s@.skip(i as int);
        assert(rest.take(pat@.len() as int) =~= cs@.subrange(i as int, i + ps@.len()));
        if match_at(&cs, &ps, i) {
            assert(rest.skip(pat@.len() as int) =~= s@.skip(i + ps@.len()));
            assert(out@ + (t@ + replaced(rest.skip(pat@.len() as int), pat@, t@)) =~= (out@ + t@)
                + replaced(rest.skip(pat@.len() as int), pat@, t@));
            out.append(t);
            i = i + ps.len();
        } else {
            assert(rest.skip(1) =~= s@.skip(i + 1));
            assert(out@ + (seq![rest[0]] + replaced(rest.skip(1), pat@, t@)) =~= out@.push(
                rest[0],
            ) + replaced(rest.skip(1), pat@, t@));
            out.push(cs[i]);
            i = i + 1;
        }
    }
    let tail = string_of_range(&cs, i, cs.len());
    assert(tail@ =~= s@.skip(i as int));
    out.append(tail.as_str());
    out
}

/// The texts with one space between each two.
pub open spec fn spaced(ws: Seq<Seq<char>>) -> Seq<char>
    decreases ws.len(),
{
    if ws.len() == 0 {
        Seq::empty()
    } else if ws.len() == 1 {
        ws[0]
    } else {
        spaced(ws.drop_last()).push(' ') + ws.last()
    }
}

/// The texts with one space between each two.
pub fn join_spaced(ws: &Vec<String>) -> (r: String)
    ensures
        r@ == spaced(texts(ws@)),
{
    let ghost all = texts(ws@);
    let mut out: String = String::new();
    let mut i: usize = 0;
    assert(all.take(0) =~= Seq::empty());
    while i < ws.len()
        invariant
            i <= ws.len(),
            all == texts(ws@),
            out@ == spaced(all.take(i as int)),
        decreases ws.len() - i,
    {
        assert(all.take(i + 1).drop_last() =~= all.take(i as int));
        assert(all.take(i + 1).last() == ws@[i as int]@);
        if i > 0 {
            out.push(' ');
        } else {
            assert(Seq::<char>::empty() + ws@[0]@ =~= ws@[0]@);
        }
        out.append(ws[i].as_str());
        i = i + 1;
    }
    assert(all.take(i as int) =~= all);
    out
}

// ---------------------------------------------------------------------------
// Trimming
// ---------------------------------------------------------------------------

/// `s` without its leading white space.
pub open spec fn trimmed_start(s: Seq<char>) -> Seq<char>
    decreases s.len(),
{
    if s.len() > 0 && char_is_whitespace(s[0]) {
        trimmed_start(s.skip(1))
    } else {
        s
    }
}

/// `s` without its trailing white space.
pub open spec fn trimmed_end(s: Seq<char>) -> Seq<char>
    decreases s.len(),
{
    if s.len() > 0 && char_is_whitespace(s.last()) {
        trimmed_end(s.drop_last())
    } else {
        s
    }
}

/// `s` without its leading and trailing white space.
pub open spec fn trimmed(s: Seq<char>) -> Seq<char> {
    trimmed_end(trimmed_start(s))
}

/// `s` without its leading and trailing white space.
pub fn trim(s: &str) -> (r: String)
    ensures
        r@ == trimmed(s@),
{
    let cs = chars_of(s);
    let mut i: usize = 0;
    assert(s@.skip(0) =~= s@);
    while i < cs.len() && cs[i].is_whitespace()
        invariant
            i <= cs.len(),
            cs@ == s@,
            trimmed_start(s@.skip(i as int)) == trimmed_start(s@),
        decreases cs.len() - i,
    {
        assert(s@.skip(i as int).skip(1) =~= s@.skip(i + 1));
        i = i + 1;
    }
    let ghost head = s@.skip(i as int);
    assert(trimmed_start(s@) == head);
    let mut j: usize = cs.len();
    assert(head =~= cs@.subrange(i as int, j as int));
    while j > i && cs[j - 1].is_whitespace()
        invariant
            i <= j <= cs.len(),
            cs@ == s@,
            trimmed_end(cs@.subrange(i as int, j as int)) == trimmed_end(head),
        decreases j,
    {
        assert(cs@.subrange(i as int, j as int).drop_last() =~= cs@.subrange(i as int, j - 1));
        j = j - 1;
    }
    string_of_range(&cs, i, j)
}

// ---------------------------------------------------------------------------
// Character classes
// ---------------------------------------------------------------------------

/// An ASCII lowercase letter.
pub open spec fn is_lower(c: char) -> bool {
    'a' <= c <= 'z'
}

/// An ASCII uppercase letter.
pub open spec fn is_upper(c: char) -> bool {
    'A' <= c <= 'Z'
}

/// An ASCII digit.
pub open spec fn is_digit(c: char) -> bool {
    '0' <= c <= '9'
}

/// Whether `c` is an ASCII lowercase letter.
pub fn lower(c: char) -> (r: bool)
    ensures
        r == is_lower(c),
{
    'a' <= c && c <= 'z'
}

/// Whether `c` is an ASCII digit.
pub fn digit(c: char) -> (r: bool)
    ensures
        r == is_digit(c),
{
    '0' <= c && c <= '9'
}

/// Whether `c` is an ASCII uppercase letter.
pub fn upper(c: char) -> (r: bool)
    ensures
        r == is_upper(c),
{
    'A' <= c && c <= 'Z'
}

// ---------------------------------------------------------------------------
// Decimal numerals
// ---------------------------------------------------------------------------

/// The digit that stands for `d`.
pub open spec fn digit_char(d: nat) -> char {
    (48 + d) as char
}

/// The decimal numeral of `n`.
pub open spec fn decimal(n: nat) -> Seq<char>
    decreases n,
{
    if n < 10 {
        seq![digit_char(n)]
    } else {
        decimal(n / 10).push(digit_char(n % 10))
    }
}

/// The decimal numeral of `n`.
pub fn decimal_of(n: u64) -> (r: String)
    ensures
        r@ == decimal(n as nat),
    decreases n,
{
    let d: u8 = (n % 10) as u8;
    if n < 10 {
        let mut s: String = String::new();
        s.push((48u8 + d) as char);
        assert(s@ =~= seq![digit_char(n as nat)]);
        s
    } else {
        let mut s = decimal_of(n / 10);
        s.push((48u8 + d) as char);
        s
    }
}

/// The number that a sequence of digits denotes.
pub open spec fn number_of(s: Seq<char>) -> nat
    decreases s.len(),
{
    if s.len() == 0 {
        0
    } else {
        number_of(s.drop_last()) * 10 + (s.last() as nat - 48) as nat
    }
}

/// Every character is a digit.
pub open spec fn all_digits(s: Seq<char>) -> bool {
    forall|i: int| 0 <= i < s.len() ==> is_digit(#[trigger] s[i])
}

/// A numeral that denotes an array position: digits only, no leading zero
/// except in `0` itself, and small enough for `usize`.
pub open spec fn array_index(s: Seq<char>) -> Option<nat> {
    if s.len() > 0 && all_digits(s) && (s.len() == 1 || s[0] != '0') && number_of(s)
        <= usize::MAX {
        Some(number_of(s))
    } else {
        None
    }
}

/// More digits never denote a smaller number.
pub proof fn lemma_number_grows(s: Seq<char>, n: int)
    requires
        0 <= n <= s.len(),
        all_digits(s),
    ensures
        number_of(s.take(n)) <= number_of(s),
    decreases s.len() - n,
{
    if n < s.len() {
        lemma_number_grows(s, n + 1);
        assert(s.take(n + 1).drop_last() =~= s.take(n));
        assert(is_digit(s[n]));
    } else {
        assert(s.take(n) =~= s);
    }
}

/// The array position that `s` denotes, if it denotes one.
pub fn parse_index(s: &str) -> (r: Option<usize>)
    ensures
        match r {
            Some(n) => array_index(s@) == Some(n as nat),
            None => array_index(s@) is None,
        },
{
    let cs = chars_of(s);
    if cs.len() == 0 {
        return None;
    }
    if cs.len() > 1 && cs[0] == '0' {
        return None;
    }
    let mut n: usize = 0;
    let mut i: usize = 0;
    while i < cs.len()
        invariant
            i <= cs.len(),
            cs@ == s@,
            forall|j: int| 0 <= j < i ==> is_digit(#[trigger] s@[j]),
            n == number_of(s@.take(i as int)),
        decreases cs.len() - i,
    {
        let c = cs[i];
        if !digit(c) {
            assert(!is_digit(s@[i as int]));
            return None;
        }
        let d: usize = (c as u32 - 48) as usize;
        let ghost next = s@.take(i + 1);
        assert(next.drop_last() =~= s@.take(i as int));
        assert(number_of(next) == n * 10 + d);
        if n > usize::MAX / 10 || n * 10 > usize::MAX - d {
            proof {
                if all_digits(s@) {
                    lemma_number_grows(s@, i + 1);
                }
            }
            return None;
        }
        n = n * 10 + d;
        i = i + 1;
    }
    assert(s@.take(i as int) =~= s@);
    Some(n)
}

// ---------------------------------------------------------------------------
// Concatenation
// ---------------------------------------------------------------------------

/// The 2 texts in a row.
pub fn join2(a: &str, b: &str) -> (r: String)
    ensures
        r@ == a@ + b@,
{
    let mut x: String = a.to_owned();
    x.append(b);
    x
}

/// The 3 texts in a row.
pub fn join3(a: &str, b: &str, c: &str) -> (r: String)
    ensures
        r@ == a@ + b@ + c@,
{
    let mut x: String = a.to_owned();
    x.append(b);
    x.append(c);
    x
}

/// The 4 texts in a row.
pub fn join4(a: &str, b: &str, c: &str, d: &str) -> (r: String)
    ensures
        r@ == a@ + b@ + c@ + d@,
{
    let mut x: String = a.to_owned();
    x.append(b);
    x.append(c);
    x.append(d);
    x
}

/// The 5 texts in a row.
pub fn join5(a: &str, b: &str, c: &str, d: &str, e: &str) -> (r: String)
    ensures
        r@ == a@ + b@ + c@ + d@ + e@,
{
    let mut x: String = a.to_owned();
    x.append(b);
    x.append(c);
    x.append(d);
    x.append(e);
    x
}

/// The 6 texts in a row.
pub fn join6(a: &str, b: &str, c: &str, d: &str, e: &str, f: &str) -> (r: String)
    ensures
        r@ == a@ + b@ + c@ + d@ + e@ + f@,
{
    let mut x: String = a.to_owned();
    x.append(b);
    x.append(c);
    x.append(d);
    x.append(e);
    x.append(f);
    x
}

/// The 7 texts in a row.
pub fn join7(a: &str, b: &str, c: &str, d: &str, e: &str, f: &str, g: &str) -> (r: String)
    ensures
        r@ == a@ + b@ + c@ + d@ + e@ + f@ + g@,
{
    let mut x: String = a.to_owned();
    x.append(b);
    x.append(c);
    x.append(d);
    x.append(e);
    x.append(f);
    x.append(g);
    x
}

/// The 9 texts in a row.
#[allow(clippy::too_many_arguments)]
pub fn join9(a: &str, b: &str, c: &str, d: &str, e: &str, f: &str, g: &str, h: &str, i: &str) -> (r: String)
    ensures
        r@ == a@ + b@ + c@ + d@ + e@ + f@ + g@ + h@ + i@,
{
    let mut x: String = a.to_owned();
    x.append(b);
    x.append(c);
    x.append(d);
    x.append(e);
    x.append(f);
    x.append(g);
    x.append(h);
    x.append(i);
    x
}

/// The 10 texts in a row.
#[allow(clippy::too_many_arguments)]
pub fn join10(a: &str, b: &str, c: &str, d: &str, e: &str, f: &str, g: &str, h: &str, i: &str, j: &str) -> (r: String)
    ensures
        r@ == a@ + b@ + c@ + d@ + e@ + f@ + g@ + h@ + i@ + j@,
{
    let mut x: String = a.to_owned();
    x.append(b);
    x.append(c);
    x.append(d);
    x.append(e);
    x.append(f);
    x.append(g);
    x.append(h);
    x.append(i);
    x.append(j);
    x
}

/// The 11 texts in a row.
#[allow(clippy::too_many_arguments)]
pub fn join11(a: &str, b: &str, c: &str, d: &str, e: &str, f: &str, g: &str, h: &str, i: &str, j: &str, k: &str) -> (r: String)
    ensures
        r@ == a@ + b@ + c@ + d@ + e@ + f@ + g@ + h@ + i@ + j@ + k@,
{
    let mut x: String = a.to_owned();
    x.append(b);
    x.append(c);
    x.append(d);
    x.append(e);
    x.append(f);
    x.append(g);
    x.append(h);
    x.append(i);
    x.append(j);
    x.append(k);
    x
}

// ---------------------------------------------------------------------------
// Byte positions
// ---------------------------------------------------------------------------

/// The byte index of the `i`-th character: the length of what stands before it in
/// UTF-8.
pub open spec fn byte_index(s: Seq<char>, i: int) -> int {
    vstd::utf8::encode_utf8(s.take(i)).len() as int
}

/// The encoding of a text is the encoding of its two parts.
pub proof fn lemma_encode_parts(s: Seq<char>, i: int)
    requires
        0 <= i <= s.len(),
    ensures
        vstd::utf8::encode_utf8(s) == vstd::utf8::encode_utf8(s.take(i))
            + vstd::utf8::encode_utf8(s.skip(i)),
    decreases i,
{
    if i == 0 {
        assert(s.skip(0) =~= s);
        assert(vstd::utf8::encode_utf8(s.take(0)) =~= seq![]);
        assert(vstd::utf8::encode_utf8(s) =~= vstd::utf8::encode_utf8(s.take(0))
            + vstd::utf8::encode_utf8(s.skip(0)));
    } else {
        let rest = s.drop_first();
        lemma_encode_parts(rest, i - 1);
        assert(s.take(i).drop_first() =~= rest.take(i - 1));
        assert(s.skip(i) =~= rest.skip(i - 1));
        assert(vstd::utf8::encode_utf8(s) =~= vstd::utf8::encode_utf8(s.take(i))
            + vstd::utf8::encode_utf8(s.skip(i)));
    }
}

/// A character begins at its byte index.
pub proof fn lemma_boundary(s: Seq<char>, i: int)
    requires
        0 <= i <= s.len(),
    ensures
        vstd::utf8::is_char_boundary(vstd::utf8::encode_utf8(s), byte_index(s, i)),
    decreases i,
{
    let bytes = vstd::utf8::encode_utf8(s);
    vstd::utf8::encode_utf8_valid_utf8(s);
    if i > 0 {
        let rest = s.drop_first();
        lemma_boundary(rest, i - 1);
        lemma_encode_parts(s, i);
        vstd::utf8::encode_utf8_first_scalar(s);
        assert(s.take(i).drop_first() =~= rest.take(i - 1));
        assert(vstd::utf8::pop_first_scalar(bytes) =~= vstd::utf8::encode_utf8(rest));
    }
}

/// What a text is split into at the byte index of a character: what stands before
/// the character, and the rest.
pub proof fn lemma_split(s: Seq<char>, i: int, left: Seq<char>, right: Seq<char>)
    requires
        0 <= i <= s.len(),
        vstd::utf8::encode_utf8(left) == vstd::utf8::encode_utf8(s).subrange(0, byte_index(s, i)),
        vstd::utf8::encode_utf8(right) == vstd::utf8::encode_utf8(s).subrange(
            byte_index(s, i),
            vstd::utf8::encode_utf8(s).len() as int,
        ),
    ensures
        left == s.take(i),
        right == s.skip(i),
{
    lemma_encode_parts(s, i);
    assert(vstd::utf8::encode_utf8(left) =~= vstd::utf8::encode_utf8(s.take(i)));
    assert(vstd::utf8::encode_utf8(right) =~= vstd::utf8::encode_utf8(s.skip(i)));
    vstd::utf8::encode_utf8_decode_utf8(left);
    vstd::utf8::encode_utf8_decode_utf8(right);
    vstd::utf8::encode_utf8_decode_utf8(s.take(i));
    vstd::utf8::encode_utf8_decode_utf8(s.skip(i));
}

} // verus!
