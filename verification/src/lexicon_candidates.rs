//! Candidates for a subject without a definition: terms that it may be meant to be.
use crate::json;
use crate::json::{Json, Number, Value};
use crate::lexicon;
use crate::text;
use vstd::prelude::*;

verus! {

// ---------------------------------------------------------------------------
// Edit distance
// ---------------------------------------------------------------------------

/// The lesser of two numbers.
pub open spec fn lesser(a: int, b: int) -> int {
    if a <= b {
        a
    } else {
        b
    }
}

/// The least number of characters to add, remove or change to make one text of the
/// other.
pub open spec fn edits(a: Seq<char>, b: Seq<char>) -> int
    decreases a.len() + b.len(),
{
    if a.len() == 0 {
        b.len() as int
    } else if b.len() == 0 {
        a.len() as int
    } else {
        lesser(
            lesser(edits(a.drop_last(), b) + 1, edits(a, b.drop_last()) + 1),
            edits(a.drop_last(), b.drop_last()) + (if a.last() == b.last() {
                0int
            } else {
                1
            }),
        )
    }
}

/// No more edits are needed than the longer text has characters.
pub proof fn lemma_edits_bound(a: Seq<char>, b: Seq<char>)
    ensures
        0 <= edits(a, b),
        edits(a, b) <= a.len() || edits(a, b) <= b.len(),
    decreases a.len() + b.len(),
{
    if a.len() > 0 && b.len() > 0 {
        lemma_edits_bound(a.drop_last(), b);
        lemma_edits_bound(a, b.drop_last());
        lemma_edits_bound(a.drop_last(), b.drop_last());
    }
}

/// The number of edits is the same in both directions.
pub proof fn law_edits_are_symmetric(a: Seq<char>, b: Seq<char>)
    ensures
        edits(a, b) == edits(b, a),
    decreases a.len() + b.len(),
{
    if a.len() > 0 && b.len() > 0 {
        law_edits_are_symmetric(a.drop_last(), b);
        law_edits_are_symmetric(a, b.drop_last());
        law_edits_are_symmetric(a.drop_last(), b.drop_last());
    }
}

/// Texts need no edits exactly when they are the same.
pub proof fn law_no_edits_means_equal(a: Seq<char>, b: Seq<char>)
    ensures
        (edits(a, b) == 0) == (a == b),
    decreases a.len() + b.len(),
{
    lemma_edits_bound(a, b);
    if a.len() == 0 || b.len() == 0 {
        if a.len() == b.len() {
            assert(a =~= b);
        }
    } else {
        lemma_edits_bound(a.drop_last(), b);
        lemma_edits_bound(a, b.drop_last());
        lemma_edits_bound(a.drop_last(), b.drop_last());
        law_no_edits_means_equal(a.drop_last(), b.drop_last());
        assert(a =~= a.drop_last().push(a.last()));
        assert(b =~= b.drop_last().push(b.last()));
    }
}

/// The edit distance of two texts. There is none between two empty texts, which the
/// greatest number stands for.
pub open spec fn distance(a: Seq<char>, b: Seq<char>) -> int {
    if a.len() == 0 && b.len() == 0 {
        usize::MAX as int
    } else {
        edits(a, b)
    }
}

fn least(a: usize, b: usize) -> (r: usize)
    ensures
        r == lesser(a as int, b as int),
{
    if a <= b {
        a
    } else {
        b
    }
}

/// One row of the table of distances: those of a text to each beginning of another.
pub open spec fn is_row(row: Seq<usize>, a: Seq<char>, b: Seq<char>) -> bool {
    row.len() == b.len() + 1 && forall|j: int|
        0 <= j <= b.len() ==> (#[trigger] row[j]) == edits(a, b.take(j))
}

fn next_row(prev: &Vec<usize>, a: &Vec<char>, i: usize, b: &Vec<char>) -> (r: Vec<usize>)
    requires
        i < a.len(),
        is_row(prev@, a@.take(i as int), b@),
    ensures
        is_row(r@, a@.take(i + 1), b@),
{
    let ghost x = a@.take(i as int);
    let ghost y = a@.take(i + 1);
    assert(y.drop_last() =~= x);
    assert(y.last() == a@[i as int]);
    let width: usize = prev.len();
    let mut row: Vec<usize> = Vec::new();
    row.push(i + 1);
    assert(b@.take(0).len() == 0);
    let mut j: usize = 0;
    while j < b.len()
        invariant
            j <= b.len(),
            i < a.len(),
            width == prev.len(),
            width == b.len() + 1,
            x == a@.take(i as int),
            y == a@.take(i + 1),
            y.drop_last() == x,
            y.last() == a@[i as int],
            y.len() == i + 1,
            x.len() == i,
            is_row(prev@, x, b@),
            row.len() == j + 1,
            forall|k: int| 0 <= k <= j ==> (#[trigger] row@[k]) == edits(y, b@.take(k)),
        decreases b.len() - j,
    {
        let ghost p = b@.take(j as int);
        let ghost q = b@.take(j + 1);
        proof {
            assert(q.drop_last() =~= p);
            assert(q.last() == b@[j as int]);
            assert(prev@[j + 1] == edits(x, q));
            assert(prev@[j as int] == edits(x, p));
            assert(row@[j as int] == edits(y, p));
            lemma_edits_bound(x, q);
            lemma_edits_bound(x, p);
            lemma_edits_bound(y, p);
            lemma_edits_bound(y, q);
        }
        let cost: usize = if a[i] == b[j] {
            0
        } else {
            1
        };
        let near = least(prev[j + 1], row[j]);
        let diagonal: usize = prev[j] + cost;
        let v: usize = if near < diagonal {
            near + 1
        } else {
            diagonal
        };
        assert(v == edits(y, q));
        row.push(v);
        j = j + 1;
    }
    row
}

/// The edit distance of two texts.
pub fn levenshtein(a: &str, b: &str) -> (r: usize)
    ensures
        r == distance(a@, b@),
{
    let x = text::chars_of(a);
    let y = text::chars_of(b);
    let m: usize = x.len();
    let n: usize = y.len();
    if m == 0 && n == 0 {
        return usize::MAX;
    }
    if m == 0 {
        return n;
    }
    if n == 0 {
        return m;
    }
    let mut prev: Vec<usize> = Vec::new();
    while prev.len() <= n
        invariant
            y@ == b@,
            n == y.len(),
            prev.len() <= n + 1,
            forall|j: int| 0 <= j < prev@.len() ==> (#[trigger] prev@[j]) == j,
        decreases n + 1 - prev.len(),
    {
        let k: usize = prev.len();
        prev.push(k);
    }
    assert(is_row(prev@, x@.take(0), y@)) by {
        assert(x@.take(0).len() == 0);
        assert forall|j: int| 0 <= j <= y@.len() implies (#[trigger] prev@[j]) == edits(
            x@.take(0),
            y@.take(j),
        ) by {
            assert(y@.take(j).len() == j);
        }
    }
    let mut i: usize = 0;
    while i < m
        invariant
            i <= m,
            m == x.len(),
            is_row(prev@, x@.take(i as int), y@),
        decreases m - i,
    {
        prev = next_row(&prev, &x, i, &y);
        i = i + 1;
    }
    assert(x@.take(i as int) =~= a@);
    assert(y@.take(n as int) =~= b@);
    assert(prev@[n as int] == edits(a@, b@));
    prev[n]
}

// ---------------------------------------------------------------------------
// Candidates
// ---------------------------------------------------------------------------

/// How a subject matches a term.
#[derive(Debug, Clone, Copy, PartialEq, Eq, Structural)]
pub enum MatchKind {
    /// It is the term.
    Exact,
    /// It is an alias of the term.
    Alias,
    /// It is one edit away from a form of the term.
    FuzzyClose,
    /// It is two edits away from a form of the term.
    FuzzyLoose,
}

impl MatchKind {
    /// The name of the kind.
    pub open spec fn name(self) -> Seq<char> {
        match self {
            MatchKind::Exact => "exact"@,
            MatchKind::Alias => "alias"@,
            MatchKind::FuzzyClose => "fuzzy_close"@,
            MatchKind::FuzzyLoose => "fuzzy_loose"@,
        }
    }

    /// The name of the kind.
    pub fn as_str(self) -> (r: &'static str)
        ensures
            r@ == self.name(),
    {
        match self {
            MatchKind::Exact => "exact",
            MatchKind::Alias => "alias",
            MatchKind::FuzzyClose => "fuzzy_close",
            MatchKind::FuzzyLoose => "fuzzy_loose",
        }
    }

    /// The rank of the kind: the less, the better.
    pub open spec fn rank(self) -> int {
        match self {
            MatchKind::Exact => 0,
            MatchKind::Alias => 1,
            MatchKind::FuzzyClose => 2,
            MatchKind::FuzzyLoose => 3,
        }
    }

    /// The rank of the kind: the less, the better.
    pub fn priority(self) -> (r: u8)
        ensures
            r == self.rank(),
    {
        match self {
            MatchKind::Exact => 0,
            MatchKind::Alias => 1,
            MatchKind::FuzzyClose => 2,
            MatchKind::FuzzyLoose => 3,
        }
    }

    /// How many edits a match of the kind is away.
    pub open spec fn away(self) -> int {
        match self {
            MatchKind::Exact => 0,
            MatchKind::Alias => 0,
            MatchKind::FuzzyClose => 1,
            MatchKind::FuzzyLoose => 2,
        }
    }

    /// How many edits a match of the kind is away.
    pub fn distance(self) -> (r: u8)
        ensures
            r == self.away(),
    {
        match self {
            MatchKind::Exact => 0,
            MatchKind::Alias => 0,
            MatchKind::FuzzyClose => 1,
            MatchKind::FuzzyLoose => 2,
        }
    }
}

/// A term that a subject may be meant to be.
#[derive(Debug, Clone, PartialEq, Eq)]
pub struct Candidate {
    /// The term, never an alias of it.
    pub term: String,
    /// How many edits away it is.
    pub distance: u8,
    pub match_kind: MatchKind,
    /// The beginning of its definition.
    pub definition_preview: String,
}

/// A candidate, as mathematical values.
pub struct CandidateView {
    pub term: Seq<char>,
    pub distance: int,
    pub match_kind: MatchKind,
    pub definition_preview: Seq<char>,
}

impl View for Candidate {
    type V = CandidateView;

    open spec fn view(&self) -> CandidateView {
        CandidateView {
            term: self.term@,
            distance: self.distance as int,
            match_kind: self.match_kind,
            definition_preview: self.definition_preview@,
        }
    }
}

/// The candidates, in order.
pub open spec fn candidates(s: Seq<Candidate>) -> Seq<CandidateView> {
    Seq::new(s.len(), |i: int| s[i]@)
}

/// The bits of a small number as a floating-point number.
pub open spec fn float_bits(n: int) -> u64 {
    if n == 0 {
        0
    } else if n == 1 {
        0x3ff0_0000_0000_0000
    } else {
        0x4000_0000_0000_0000
    }
}

/// A candidate as a value. The distance is a floating-point number.
pub open spec fn candidate_json(c: CandidateView) -> Json {
    Json::empty().with("term"@, Json::String(c.term)).with(
        "distance"@,
        Json::Number(Number::Float(float_bits(c.distance))),
    ).with("match_kind"@, Json::String(c.match_kind.name())).with(
        "definition_preview"@,
        Json::String(c.definition_preview),
    )
}

impl Candidate {
    /// The rank of the candidate: the less, the better.
    pub fn priority(&self) -> (r: u8)
        ensures
            r == self@.match_kind.rank(),
    {
        self.match_kind.priority()
    }

    /// The candidate as a value.
    pub fn to_json(&self) -> (r: Value)
        ensures
            r@ == candidate_json(self@),
    {
        let bits: u64 = if self.distance == 0 {
            0
        } else if self.distance == 1 {
            0x3ff0_0000_0000_0000
        } else {
            0x4000_0000_0000_0000
        };
        Value::object().and("term", Value::text(self.term.as_str())).and(
            "distance",
            Value::Number(Number::Float(bits)),
        ).and("match_kind", Value::text(self.match_kind.as_str())).and(
            "definition_preview",
            Value::text(self.definition_preview.as_str()),
        )
    }
}

/// The aliases of an entry among the first `n`.
pub open spec fn aliases(items: Seq<Json>, n: int) -> Seq<Seq<char>>
    decreases n,
{
    if n <= 0 {
        Seq::empty()
    } else {
        match items[n - 1].as_str() {
            Some(a) => aliases(items, n - 1).push(a),
            None => aliases(items, n - 1),
        }
    }
}

/// The forms of a term: itself, then its aliases.
pub open spec fn forms(term: Seq<char>, entry: Json) -> Seq<Seq<char>> {
    let items = entry.items_at("aliases"@);
    seq![term] + aliases(items, items.len() as int)
}

/// Some form is that many edits away from the subject.
pub open spec fn some_form_at(subject: Seq<char>, fs: Seq<Seq<char>>, d: int) -> bool {
    exists|i: int| 0 <= i < fs.len() && distance(subject, #[trigger] fs[i]) == d
}

/// How a subject matches a term with the given forms: the best of the ways in which it
/// does.
pub open spec fn kind_of(subject: Seq<char>, term: Seq<char>, fs: Seq<Seq<char>>) -> Option<
    MatchKind,
> {
    if term == subject {
        Some(MatchKind::Exact)
    } else if fs.contains(subject) {
        Some(MatchKind::Alias)
    } else if some_form_at(subject, fs, 1) {
        Some(MatchKind::FuzzyClose)
    } else if some_form_at(subject, fs, 2) {
        Some(MatchKind::FuzzyLoose)
    } else {
        None
    }
}

/// The entry may be a candidate: it is defined, and where a context is asked for it
/// belongs to that one or to none in particular.
pub open spec fn eligible(entry: Json, ctx: Option<Seq<char>>) -> bool {
    entry is Object && !lexicon::is_placeholder(entry) && (lexicon::in_context(entry, ctx)
        || lexicon::context_of(entry) == ""@)
}

/// The beginning of the definition of an entry: at most a hundred characters.
pub open spec fn preview(entry: Json) -> Seq<char> {
    match entry.str_at("definition_short"@) {
        Some(d) => if d.len() <= 100 {
            d
        } else {
            d.take(100)
        },
        None => ""@,
    }
}

/// The candidate that an entry gives.
pub open spec fn candidate_of(
    subject: Seq<char>,
    term: Seq<char>,
    entry: Json,
    ctx: Option<Seq<char>>,
) -> Option<CandidateView> {
    if eligible(entry, ctx) {
        match kind_of(subject, term, forms(term, entry)) {
            Some(k) => Some(
                CandidateView {
                    term,
                    distance: k.away(),
                    match_kind: k,
                    definition_preview: preview(entry),
                },
            ),
            None => None,
        }
    } else {
        None
    }
}

/// A candidate that comes before another: by rank, then by term.
pub open spec fn better(a: CandidateView, b: CandidateView) -> bool {
    a.match_kind.rank() < b.match_kind.rank() || a.match_kind.rank() == b.match_kind.rank() && (
    a.distance < b.distance || a.distance == b.distance && text::text_lt(a.term, b.term))
}

/// A ranked list with a candidate placed before the first one that it is better than.
pub open spec fn placed(s: Seq<CandidateView>, x: CandidateView) -> Seq<CandidateView>
    decreases s.len(),
{
    if s.len() == 0 {
        seq![x]
    } else if better(x, s[0]) {
        seq![x] + s
    } else {
        seq![s[0]] + placed(s.skip(1), x)
    }
}

/// The candidates that the first `n` entries give, in order of rank.
pub open spec fn ranked(
    subject: Seq<char>,
    e: Seq<(Seq<char>, Json)>,
    ctx: Option<Seq<char>>,
    n: int,
) -> Seq<CandidateView>
    decreases n,
{
    if n <= 0 {
        Seq::empty()
    } else {
        let before = ranked(subject, e, ctx, n - 1);
        match candidate_of(subject, e[n - 1].0, e[n - 1].1, ctx) {
            Some(c) => placed(before, c),
            None => before,
        }
    }
}

/// The five best candidates.
pub open spec fn best_five(s: Seq<CandidateView>) -> Seq<CandidateView> {
    if s.len() <= 5 {
        s
    } else {
        s.take(5)
    }
}

/// No candidate is better than one that stands before it.
pub open spec fn best_first(s: Seq<CandidateView>) -> bool {
    forall|i: int, j: int| 0 <= i < j < s.len() ==> !better(#[trigger] s[j], #[trigger] s[i])
}

proof fn lemma_better(a: CandidateView, b: CandidateView, c: CandidateView)
    requires
        !better(b, a),
        !better(c, b),
    ensures
        !better(c, a),
{
    text::lemma_text_lt_total(a.term, b.term, 0);
    text::lemma_text_lt_total(b.term, c.term, 0);
    text::lemma_text_lt_total(a.term, c.term, 0);
    if text::text_lt(c.term, a.term) && text::text_lt(a.term, b.term) {
        text::lemma_text_lt_trans(c.term, a.term, b.term, 0);
    }
}

proof fn lemma_better_one_way(a: CandidateView, b: CandidateView)
    requires
        better(a, b),
    ensures
        !better(b, a),
{
    text::lemma_text_lt_total(a.term, b.term, 0);
}

proof fn lemma_placed(s: Seq<CandidateView>, x: CandidateView)
    requires
        best_first(s),
    ensures
        best_first(placed(s, x)),
        forall|i: int|
            0 <= i < placed(s, x).len() ==> (#[trigger] placed(s, x)[i]) == x || s.contains(
                placed(s, x)[i],
            ),
        forall|c: CandidateView|
            s.contains(c) || c == x ==> #[trigger] placed(s, x).contains(c),
    decreases s.len(),
{
    let p = placed(s, x);
    if s.len() == 0 {
        assert(p[0] == x);
    } else if better(x, s[0]) {
        lemma_better_one_way(x, s[0]);
        assert forall|i: int, j: int| 0 <= i < j < p.len() implies !better(
            #[trigger] p[j],
            #[trigger] p[i],
        ) by {
            assert(p[j] == s[j - 1]);
            if i > 0 {
                assert(p[i] == s[i - 1]);
            } else if j > 1 {
                lemma_better(x, s[0], s[j - 1]);
            }
        }
        assert forall|i: int| 0 <= i < p.len() implies (#[trigger] p[i]) == x || s.contains(
            p[i],
        ) by {
            if i > 0 {
                assert(p[i] == s[i - 1]);
            }
        }
        assert forall|c: CandidateView| s.contains(c) || c == x implies #[trigger] p.contains(
            c,
        ) by {
            if c == x {
                assert(p[0] == c);
            } else {
                let k = choose|k: int| 0 <= k < s.len() && s[k] == c;
                assert(p[k + 1] == c);
            }
        }
    } else {
        let rest = s.skip(1);
        let q = placed(rest, x);
        assert forall|i: int, j: int| 0 <= i < j < rest.len() implies !better(
            #[trigger] rest[j],
            #[trigger] rest[i],
        ) by {
            assert(rest[i] == s[i + 1] && rest[j] == s[j + 1]);
        }
        lemma_placed(rest, x);
        assert forall|i: int| 0 <= i < p.len() implies (#[trigger] p[i]) == x || s.contains(
            p[i],
        ) by {
            if i == 0 {
                assert(p[0] == s[0]);
            } else {
                assert(p[i] == q[i - 1]);
                if q[i - 1] != x {
                    let k = choose|k: int| 0 <= k < rest.len() && rest[k] == q[i - 1];
                    assert(s[k + 1] == p[i]);
                }
            }
        }
        assert forall|i: int, j: int| 0 <= i < j < p.len() implies !better(
            #[trigger] p[j],
            #[trigger] p[i],
        ) by {
            assert(p[j] == q[j - 1]);
            if i > 0 {
                assert(p[i] == q[i - 1]);
            } else {
                assert(p[0] == s[0]);
                if q[j - 1] != x {
                    let k = choose|k: int| 0 <= k < rest.len() && rest[k] == q[j - 1];
                    assert(s[k + 1] == q[j - 1]);
                }
            }
        }
        assert forall|c: CandidateView| s.contains(c) || c == x implies #[trigger] p.contains(
            c,
        ) by {
            if c != s[0] {
                if s.contains(c) {
                    let k = choose|k: int| 0 <= k < s.len() && s[k] == c;
                    assert(rest[k - 1] == c);
                }
                assert(q.contains(c));
                let m = choose|m: int| 0 <= m < q.len() && q[m] == c;
                assert(p[m + 1] == c);
            } else {
                assert(p[0] == c);
            }
        }
    }
}

/// The candidates stand in order of rank; every entry that gives one has it among
/// them, and each of them is given by an entry.
pub proof fn law_ranked(
    subject: Seq<char>,
    e: Seq<(Seq<char>, Json)>,
    ctx: Option<Seq<char>>,
    n: int,
)
    requires
        0 <= n <= e.len(),
    ensures
        best_first(ranked(subject, e, ctx, n)),
        forall|i: int|
            0 <= i < n ==> (candidate_of(subject, (#[trigger] e[i]).0, e[i].1, ctx) matches Some(c)
                ==> ranked(subject, e, ctx, n).contains(c)),
        forall|k: int|
            0 <= k < ranked(subject, e, ctx, n).len() ==> exists|i: int|
                0 <= i < n && candidate_of(subject, (#[trigger] e[i]).0, e[i].1, ctx) == Some(
                    #[trigger] ranked(subject, e, ctx, n)[k],
                ),
    decreases n,
{
    if n > 0 {
        let before = ranked(subject, e, ctx, n - 1);
        let all = ranked(subject, e, ctx, n);
        law_ranked(subject, e, ctx, n - 1);
        if let Some(c) = candidate_of(subject, e[n - 1].0, e[n - 1].1, ctx) {
            lemma_placed(before, c);
            assert forall|i: int| 0 <= i < n implies (candidate_of(
                subject,
                (#[trigger] e[i]).0,
                e[i].1,
                ctx,
            ) matches Some(x) ==> all.contains(x)) by {
                if let Some(x) = candidate_of(subject, e[i].0, e[i].1, ctx) {
                    assert(all.contains(x));
                }
            }
            assert forall|k: int| 0 <= k < all.len() implies exists|i: int|
                0 <= i < n && candidate_of(subject, (#[trigger] e[i]).0, e[i].1, ctx) == Some(
                    #[trigger] all[k],
                ) by {
                if all[k] == c {
                    assert(candidate_of(subject, e[n - 1].0, e[n - 1].1, ctx) == Some(all[k]));
                } else {
                    let m = choose|m: int| 0 <= m < before.len() && before[m] == all[k];
                    let i = choose|i: int|
                        0 <= i < n - 1 && candidate_of(
                            subject,
                            (#[trigger] e[i]).0,
                            e[i].1,
                            ctx,
                        ) == Some(before[m]);
                    assert(candidate_of(subject, e[i].0, e[i].1, ctx) == Some(all[k]));
                }
            }
        } else {
            assert forall|k: int| 0 <= k < all.len() implies exists|i: int|
                0 <= i < n && candidate_of(subject, (#[trigger] e[i]).0, e[i].1, ctx) == Some(
                    #[trigger] all[k],
                ) by {
                let i = choose|i: int|
                    0 <= i < n - 1 && candidate_of(
                        subject,
                        (#[trigger] e[i]).0,
                        e[i].1,
                        ctx,
                    ) == Some(before[k]);
                assert(candidate_of(subject, e[i].0, e[i].1, ctx) == Some(all[k]));
            }
        }
    }
}

fn forms_of(term: &str, entry: &Value) -> (r: Vec<String>)
    ensures
        text::texts(r@) == forms(term@, entry@),
{
    let mut out: Vec<String> = Vec::new();
    out.push(term.to_owned());
    assert(text::texts(out@) =~= seq![term@]);
    match entry.array_at("aliases") {
        Some(items) => {
            let ghost js = json::views(items@);
            let mut i: usize = 0;
            assert(seq![term@] + aliases(js, 0) =~= seq![term@]);
            while i < items.len()
                invariant
                    i <= items.len(),
                    js == json::views(items@),
                    text::texts(out@) == seq![term@] + aliases(js, i as int),
                decreases items.len() - i,
            {
                assert(js[i as int] == items@[i as int]@);
                if let Some(a) = items[i].as_str() {
                    let s = a.to_owned();
                    proof {
                        text::lemma_texts_push(out@, s);
                        assert((seq![term@] + aliases(js, i as int)).push(s@) =~= seq![term@]
                            + aliases(js, i as int).push(s@));
                    }
                    out.push(s);
                }
                i = i + 1;
            }
        },
        None => {
            assert(seq![term@] + aliases(Seq::empty(), 0) =~= seq![term@]);
        },
    }
    out
}

fn match_kind_of(subject: &str, term: &str, fs: &Vec<String>) -> (r: Option<MatchKind>)
    ensures
        r == kind_of(subject@, term@, text::texts(fs@)),
{
    if text::str_eq(term, subject) {
        return Some(MatchKind::Exact);
    }
    if text::has_text(fs, subject) {
        return Some(MatchKind::Alias);
    }
    let ghost ts = text::texts(fs@);
    let mut close = false;
    let mut loose = false;
    let mut i: usize = 0;
    while i < fs.len()
        invariant
            i <= fs.len(),
            ts == text::texts(fs@),
            close == (exists|k: int| 0 <= k < i && distance(subject@, #[trigger] ts[k]) == 1),
            loose == (exists|k: int| 0 <= k < i && distance(subject@, #[trigger] ts[k]) == 2),
        decreases fs.len() - i,
    {
        assert(ts[i as int] == fs@[i as int]@);
        let d = levenshtein(subject, fs[i].as_str());
        if d == 1 {
            assert(distance(subject@, ts[i as int]) == 1);
            close = true;
        }
        if d == 2 {
            assert(distance(subject@, ts[i as int]) == 2);
            loose = true;
        }
        i = i + 1;
    }
    if close {
        Some(MatchKind::FuzzyClose)
    } else if loose {
        Some(MatchKind::FuzzyLoose)
    } else {
        None
    }
}

fn preview_of(entry: &Value) -> (r: String)
    ensures
        r@ == preview(entry@),
{
    match entry.str_at("definition_short") {
        Some(d) => {
            let cs = text::chars_of(d);
            if cs.len() <= 100 {
                d.to_owned()
            } else {
                let s = text::string_of_range(&cs, 0, 100);
                assert(s@ =~= d@.take(100));
                s
            }
        },
        None => "".to_owned(),
    }
}

/// The candidate that an entry gives.
pub open spec fn opt_candidate(o: Option<Candidate>) -> Option<CandidateView> {
    match o {
        Some(c) => Some(c@),
        None => None,
    }
}

fn candidate_from(
    subject: &str,
    term: &str,
    entry: &Value,
    ctx: Option<&str>,
) -> (r: Option<Candidate>)
    ensures
        opt_candidate(r) == candidate_of(subject@, term@, entry@, text::opt_str(ctx)),
{
    if !entry.is_object() || lexicon::has_no_definition(entry) {
        return None;
    }
    if let Some(c) = ctx {
        let own = match entry.str_at("bounded_context") {
            Some(x) => x,
            None => "",
        };
        if !text::str_eq(own, c) && !text::str_eq(own, "") {
            return None;
        }
    }
    let fs = forms_of(term, entry);
    match match_kind_of(subject, term, &fs) {
        Some(k) => Some(
            Candidate {
                term: term.to_owned(),
                distance: k.distance(),
                match_kind: k,
                definition_preview: preview_of(entry),
            },
        ),
        None => None,
    }
}

fn place(v: &mut Vec<Candidate>, x: Candidate)
    ensures
        candidates(final(v)@) == placed(candidates(old(v)@), x@),
{
    let ghost e = candidates(v@);
    let ghost j = x@;
    let mut i: usize = 0;
    assert(e.skip(0) =~= e);
    assert(e.take(0) + placed(e, j) =~= placed(e, j));
    while i < v.len()
        invariant
            i <= v.len(),
            v@ == old(v)@,
            e == candidates(v@),
            x@ == j,
            e.take(i as int) + placed(e.skip(i as int), j) == placed(e, j),
        decreases v.len() - i,
    {
        let ghost rest = e.skip(i as int);
        assert(rest[0] == v@[i as int]@);
        let p = x.priority();
        let q = v[i].priority();
        if p < q || (p == q && (x.distance < v[i].distance || (x.distance == v[i].distance
            && text::str_lt(x.term.as_str(), v[i].term.as_str())))) {
            v.insert(i, x);
            assert(candidates(v@) =~= e.take(i as int) + (seq![j] + rest));
            return;
        }
        assert(rest.skip(1) =~= e.skip(i + 1));
        assert(e.take(i as int) + (seq![rest[0]] + placed(e.skip(i + 1), j)) =~= e.take(i + 1)
            + placed(e.skip(i + 1), j));
        i = i + 1;
    }
    v.push(x);
    assert(e.take(i as int) =~= e);
    assert(candidates(v@) =~= e + seq![j]);
}

/// The best candidates for a subject, best first and at most five.
pub fn rank_candidates(
    unknown_subject: &str,
    lexicon_map: &Vec<(String, Value)>,
    bounded_context: Option<&str>,
) -> (r: Vec<Candidate>)
    ensures
        candidates(r@) == best_five(
            ranked(
                unknown_subject@,
                json::entries(lexicon_map@),
                text::opt_str(bounded_context),
                lexicon_map@.len() as int,
            ),
        ),
{
    let ghost e = json::entries(lexicon_map@);
    let ghost ctx = text::opt_str(bounded_context);
    let mut out: Vec<Candidate> = Vec::new();
    assert(candidates(out@) =~= Seq::empty());
    let mut i: usize = 0;
    while i < lexicon_map.len()
        invariant
            i <= lexicon_map.len(),
            e == json::entries(lexicon_map@),
            ctx == text::opt_str(bounded_context),
            candidates(out@) == ranked(unknown_subject@, e, ctx, i as int),
        decreases lexicon_map.len() - i,
    {
        assert(e[i as int] == (lexicon_map@[i as int].0@, lexicon_map@[i as int].1@));
        if let Some(c) = candidate_from(
            unknown_subject,
            lexicon_map[i].0.as_str(),
            &lexicon_map[i].1,
            bounded_context,
        ) {
            place(&mut out, c);
        }
        i = i + 1;
    }
    if out.len() > 5 {
        let ghost all = candidates(out@);
        out.truncate(5);
        assert(candidates(out@) =~= all.take(5));
    }
    out
}

/// The best candidates for a subject in the lexicon of a workflow; none without one.
pub fn rank_candidates_from_definition(
    unknown_subject: &str,
    workflow_definition: &Value,
    bounded_context: Option<&str>,
) -> (r: Vec<Candidate>)
    ensures
        ({
            let e = workflow_definition@.entries_at("_lexiconLibrary"@);
            candidates(r@) == best_five(
                ranked(unknown_subject@, e, text::opt_str(bounded_context), e.len() as int),
            )
        }),
{
    match workflow_definition.object_at("_lexiconLibrary") {
        Some(lib) => rank_candidates(unknown_subject, lib, bounded_context),
        None => {
            let v: Vec<Candidate> = Vec::new();
            assert(candidates(v@) =~= Seq::empty());
            v
        },
    }
}

/// The candidates as values.
pub open spec fn candidate_list(s: Seq<CandidateView>) -> Seq<Json> {
    Seq::new(s.len(), |i: int| candidate_json(s[i]))
}

/// The candidates as a value.
pub fn candidates_to_json(list: &Vec<Candidate>) -> (r: Value)
    ensures
        r@ == Json::Array(candidate_list(candidates(list@))),
{
    let ghost all = candidate_list(candidates(list@));
    let mut out: Vec<Value> = Vec::new();
    let mut i: usize = 0;
    assert(json::views(out@) =~= all.take(0));
    while i < list.len()
        invariant
            i <= list.len(),
            all == candidate_list(candidates(list@)),
            json::views(out@) == all.take(i as int),
        decreases list.len() - i,
    {
        let v = list[i].to_json();
        proof {
            json::lemma_views_push(out@, v);
            assert(all.take(i + 1) =~= all.take(i as int).push(all[i as int]));
        }
        out.push(v);
        i = i + 1;
    }
    assert(all.take(i as int) =~= all);
    Value::Array(out)
}

} // verus!
