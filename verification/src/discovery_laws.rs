//! What discovery is for: laws about what a search finds, how it matches and in which order
//! it answers.
use crate::discovery;
use crate::discovery::{DiscoveryKind, HitView, ItemView, MatchView};
use crate::json;
use crate::json::Json;
use crate::text;
use vstd::prelude::*;

verus! {

// ---------------------------------------------------------------------------
// Order
// ---------------------------------------------------------------------------

/// Better hits come first: a hit has no lower score than those after it, and among hits of
/// the same score the ids do not decrease. No hit is added or lost.
pub proof fn law_better_hits_come_first(s: Seq<HitView>, i: int, j: int)
    requires
        0 <= i < j < discovery::ranked(s, s.len() as int).len(),
    ensures
        ({
            let r = discovery::ranked(s, s.len() as int);
            &&& r[i].score >= r[j].score
            &&& r[i].score == r[j].score ==> !text::text_lt(r[j].item.id, r[i].item.id)
            &&& r.to_multiset() == s.to_multiset()
        }),
{
    discovery::law_ranked(s, s.len() as int);
    assert(s.take(s.len() as int) =~= s);
    let r = discovery::ranked(s, s.len() as int);
    assert(!discovery::ahead(r[j], r[i]));
}

/// The answer holds the best hits, as many as are asked for and ten where nothing is said.
pub proof fn law_answers_are_limited(s: Seq<HitView>, limit: usize, i: int)
    ensures
        ({
            let r = discovery::limited(s, limit);
            let most: int = if limit == 0 {
                10
            } else {
                limit as int
            };
            &&& r.len() == if s.len() <= most {
                s.len() as int
            } else {
                most
            }
            &&& 0 <= i < r.len() ==> r[i] == s[i]
        }),
{
}

// ---------------------------------------------------------------------------
// What is found
// ---------------------------------------------------------------------------

/// An item is found: it is of the kind that is asked for, or of any kind but guidance where
/// none is, and it has a score above zero, unless the search has no terms.
pub open spec fn is_found(
    d: ItemView,
    kind: Option<DiscoveryKind>,
    all: bool,
    score: u32,
) -> bool {
    &&& kind matches Some(k) ==> d.kind == k
    &&& kind is None ==> d.kind != DiscoveryKind::Guidance
    &&& all || score > 0
}

/// A hit stands for an item that is found among the first `n`.
pub open spec fn stands_for_found(
    docs: Seq<ItemView>,
    kind: Option<DiscoveryKind>,
    all: bool,
    scores: Seq<u32>,
    n: int,
    hit: HitView,
) -> bool {
    exists|k: int|
        0 <= k < n && hit.item == #[trigger] docs[k] && is_found(docs[k], kind, all, scores[k]) && (
        !all ==> hit.score == scores[k]) && (all ==> hit.score == discovery::FULL_SCORE)
}

/// A search finds exactly the items of the kind that is asked for that match it, each with
/// its score; a search without terms finds all of them with the full score.
pub proof fn law_exactly_the_matching_items_are_found(
    docs: Seq<ItemView>,
    kind: Option<DiscoveryKind>,
    all: bool,
    scores: Seq<u32>,
    n: int,
    hit: HitView,
)
    requires
        0 <= n <= docs.len(),
    ensures
        discovery::found(docs, kind, all, scores, n).contains(hit) <==> stands_for_found(
            docs,
            kind,
            all,
            scores,
            n,
            hit,
        ),
    decreases n,
{
    let r = discovery::found(docs, kind, all, scores, n);
    if n > 0 {
        law_exactly_the_matching_items_are_found(docs, kind, all, scores, n - 1, hit);
        let before = discovery::found(docs, kind, all, scores, n - 1);
        if before.contains(hit) {
            let p = choose|p: int| 0 <= p < before.len() && before[p] == hit;
            assert(r[p] == hit);
        }
        if r.contains(hit) && !before.contains(hit) {
            let p = choose|p: int| 0 <= p < r.len() && r[p] == hit;
            if p < before.len() {
                assert(before[p] == hit);
            }
            assert(hit.item == docs[n - 1]);
        }
        if stands_for_found(docs, kind, all, scores, n, hit) {
            let k = choose|k: int|
                0 <= k < n && hit.item == #[trigger] docs[k] && is_found(
                    docs[k],
                    kind,
                    all,
                    scores[k],
                ) && (!all ==> hit.score == scores[k]) && (all ==> hit.score
                    == discovery::FULL_SCORE);
            if k < n - 1 {
                assert(hit.item == docs[k]);
                assert(stands_for_found(docs, kind, all, scores, n - 1, hit));
            } else {
                assert(r[before.len() as int] == hit);
            }
        }
    }
}

/// A listing holds exactly the items of the kind that is asked for.
pub proof fn law_listings_hold_the_kind(
    docs: Seq<ItemView>,
    kind: Option<DiscoveryKind>,
    n: int,
)
    requires
        0 <= n <= docs.len(),
    ensures
        discovery::of_kind(docs, kind, n) == docs.take(n).filter(
            |d: ItemView|
                match kind {
                    Some(k) => d.kind == k,
                    None => d.kind != DiscoveryKind::Guidance,
                },
        ),
    decreases n,
{
    reveal(Seq::filter);
    if n > 0 {
        law_listings_hold_the_kind(docs, kind, n - 1);
        assert(docs.take(n).drop_last() =~= docs.take(n - 1));
        assert(docs.take(n).last() == docs[n - 1]);
    } else {
        assert(docs.take(0) =~= Seq::empty());
    }
}

// ---------------------------------------------------------------------------
// Words
// ---------------------------------------------------------------------------

/// A text of letters and digits alone.
pub open spec fn solid(s: Seq<char>) -> bool {
    forall|i: int| 0 <= i < s.len() ==> text::char_is_alphanumeric(#[trigger] s[i])
}

proof fn lemma_word(w: Seq<char>)
    requires
        w.len() > 0,
        solid(w),
    ensures
        discovery::tokens(w) == seq![w],
    decreases w.len(),
{
    let b = w.drop_last();
    assert(text::char_is_alphanumeric(w[w.len() - 1]));
    if b.len() > 0 {
        assert(solid(b)) by {
            assert forall|i: int| 0 <= i < b.len() implies text::char_is_alphanumeric(
                #[trigger] b[i],
            ) by {
                assert(b[i] == w[i]);
            }
        }
        lemma_word(b);
        assert(text::char_is_alphanumeric(w[w.len() - 2]));
        assert(b.push(w.last()) =~= w);
        assert(discovery::tokens(w) =~= seq![w]);
    } else {
        assert(discovery::tokens(b) =~= Seq::empty());
        assert(seq![w.last()] =~= w);
        assert(discovery::tokens(w) =~= seq![w]);
    }
}

proof fn lemma_tokens_after(a: Seq<char>, c: char, b: Seq<char>)
    requires
        !text::char_is_alphanumeric(c),
    ensures
        discovery::tokens(a + seq![c] + b) == discovery::tokens(a) + discovery::tokens(b),
        b.len() > 0 && text::char_is_alphanumeric(b.last()) ==> discovery::tokens(b).len() > 0,
    decreases b.len(),
{
    let s = a + seq![c] + b;
    if b.len() == 0 {
        assert(s.drop_last() =~= a);
        assert(s.last() == c);
        assert(discovery::tokens(a) + discovery::tokens(b) =~= discovery::tokens(a));
    } else {
        let q = b.drop_last();
        lemma_tokens_after(a, c, q);
        assert(s.drop_last() =~= a + seq![c] + q);
        assert(s.last() == b.last());
        let (x, y) = (discovery::tokens(a), discovery::tokens(q));
        if text::char_is_alphanumeric(b.last()) {
            if b.len() >= 2 {
                assert(s[s.len() - 2] == b[b.len() - 2]);
                assert(q.last() == b[b.len() - 2]);
                if text::char_is_alphanumeric(b[b.len() - 2]) {
                    assert((x + y).drop_last() =~= x + y.drop_last());
                    assert((x + y).last() == y.last());
                    assert(discovery::tokens(s) =~= x + discovery::tokens(b));
                } else {
                    assert(discovery::tokens(s) =~= x + discovery::tokens(b));
                }
            } else {
                assert(s[s.len() - 2] == c);
                assert(discovery::tokens(s) =~= x + discovery::tokens(b));
            }
        } else {
            assert(discovery::tokens(s) =~= x + discovery::tokens(b));
        }
    }
}

/// The words of a text are its longest runs of letters and digits: such a run alone is one
/// word, and any other character parts the words before it from those after it.
pub proof fn law_words_are_runs(a: Seq<char>, c: char, b: Seq<char>)
    ensures
        a.len() > 0 && solid(a) ==> discovery::tokens(a) == seq![a],
        discovery::tokens(Seq::empty()).len() == 0,
        !text::char_is_alphanumeric(c) ==> discovery::tokens(a + seq![c] + b) == discovery::tokens(
            a,
        ) + discovery::tokens(b),
{
    if a.len() > 0 && solid(a) {
        lemma_word(a);
    }
    if !text::char_is_alphanumeric(c) {
        lemma_tokens_after(a, c, b);
    }
}

// ---------------------------------------------------------------------------
// Likeness
// ---------------------------------------------------------------------------

proof fn lemma_shared(a: Seq<(u8, u8, u8)>, b: Seq<(u8, u8, u8)>, n: int)
    requires
        0 <= n <= a.len(),
        discovery::increasing(a),
    ensures
        discovery::shared(a, b, n) == a.take(n).to_set().intersect(b.to_set()).len(),
        a.take(n).to_set().intersect(b.to_set()).finite(),
    decreases n,
{
    vstd::seq_lib::seq_to_set_is_finite(a.take(n));
    if n > 0 {
        lemma_shared(a, b, n - 1);
        let x = a[n - 1];
        let before = a.take(n - 1);
        let now = a.take(n);
        assert(now =~= before.push(x));
        assert(now.to_set() =~= before.to_set().insert(x)) by {
            assert forall|t: (u8, u8, u8)| now.to_set().contains(t) <==> before.to_set().insert(
                x,
            ).contains(t) by {
                if now.contains(t) {
                    let i = choose|i: int| 0 <= i < now.len() && now[i] == t;
                    if i < n - 1 {
                        assert(before[i] == t);
                    }
                }
                if before.contains(t) {
                    let i = choose|i: int| 0 <= i < before.len() && before[i] == t;
                    assert(now[i] == t);
                }
                assert(now[n - 1] == x);
            }
        }
        assert(!before.contains(x)) by {
            if before.contains(x) {
                let i = choose|i: int| 0 <= i < before.len() && before[i] == x;
                assert(discovery::triple_lt(a[i], a[n - 1]));
            }
        }
        let old_set = before.to_set().intersect(b.to_set());
        let new_set = now.to_set().intersect(b.to_set());
        if b.contains(x) {
            assert(new_set =~= old_set.insert(x));
        } else {
            assert(new_set =~= old_set);
        }
    } else {
        assert(a.take(0).to_set().intersect(b.to_set()) =~= Set::empty());
    }
}

/// How alike two lists are, as a fraction.
spec fn share(a: Seq<(u8, u8, u8)>, b: Seq<(u8, u8, u8)>) -> (int, int) {
    if a.len() == 0 && b.len() == 0 {
        (1, 1)
    } else if a.len() == 0 || b.len() == 0 {
        (0, 1)
    } else {
        let i = discovery::shared(a, b, a.len() as int);
        (i, a.len() + b.len() - i)
    }
}

proof fn lemma_share(a: Seq<(u8, u8, u8)>, b: Seq<(u8, u8, u8)>)
    requires
        discovery::increasing(a),
        discovery::increasing(b),
    ensures
        share(a, b) == share(b, a),
        0 <= share(a, b).0 <= share(a, b).1,
        share(a, b).1 > 0,
        share(a, a).0 == share(a, a).1,
        a.len() > 0 && b.len() > 0 ==> share(a, b).0 == a.to_set().intersect(b.to_set()).len()
            && share(a, b).1 == a.to_set().union(b.to_set()).len(),
{
    lemma_shared_sets(a, b);
    lemma_shared_sets(b, a);
    lemma_shared_sets(a, a);
    assert(a.to_set().intersect(b.to_set()) =~= b.to_set().intersect(a.to_set()));
    assert(a.to_set().intersect(a.to_set()) =~= a.to_set());
}

/// Likeness is a fraction between nothing and one that goes both ways: two texts are as alike
/// as the other way round, and a text is wholly like itself. It is what the runs of three
/// bytes of the two have in common, out of all of them.
pub proof fn law_likeness(
    a: Seq<char>,
    b: Seq<char>,
    ta: Seq<(u8, u8, u8)>,
    tb: Seq<(u8, u8, u8)>,
)
    requires
        ta == discovery::trigram_list(a),
        tb == discovery::trigram_list(b),
    ensures
        discovery::likeness(a, b) == discovery::likeness(b, a),
        0 <= discovery::likeness(a, b).0 <= discovery::likeness(a, b).1,
        discovery::likeness(a, b).1 > 0,
        discovery::likeness(a, a).0 == discovery::likeness(a, a).1,
        ta.len() > 0 && tb.len() > 0 ==> discovery::likeness(a, b).0 == ta.to_set().intersect(
            tb.to_set(),
        ).len() && discovery::likeness(a, b).1 == ta.to_set().union(tb.to_set()).len(),
        ta.len() > 0 && tb.len() == 0 ==> discovery::likeness(a, b).0 == 0,
{
    assert(discovery::increasing(ta) && discovery::increasing(tb)) by {
        discovery::law_trigrams(a, (0, 0, 0));
        discovery::law_trigrams(b, (0, 0, 0));
    }
    lemma_share(ta, tb);
    assert(discovery::likeness(a, b) == share(ta, tb));
    assert(discovery::likeness(b, a) == share(tb, ta));
    assert(discovery::likeness(a, a) == share(ta, ta));
}

/// What two increasing lists share is what their sets do.
proof fn lemma_shared_sets(a: Seq<(u8, u8, u8)>, b: Seq<(u8, u8, u8)>)
    requires
        discovery::increasing(a),
        discovery::increasing(b),
    ensures
        discovery::shared(a, b, a.len() as int) == a.to_set().intersect(b.to_set()).len(),
        a.to_set().intersect(b.to_set()).len() <= a.len(),
        a.to_set().intersect(b.to_set()).len() <= b.len(),
        a.to_set().len() == a.len(),
        a.to_set().union(b.to_set()).len() == a.len() + b.len() - a.to_set().intersect(
            b.to_set(),
        ).len(),
{
    let (sa, sb) = (a.to_set(), b.to_set());
    lemma_shared(a, b, a.len() as int);
    assert(a.take(a.len() as int) =~= a);
    lemma_increasing_distinct(a);
    lemma_increasing_distinct(b);
    vstd::seq_lib::seq_to_set_is_finite(a);
    vstd::seq_lib::seq_to_set_is_finite(b);
    a.unique_seq_to_set();
    b.unique_seq_to_set();
    vstd::set_lib::lemma_len_intersect(sa, sb);
    vstd::set_lib::lemma_len_intersect(sb, sa);
    assert(sa.intersect(sb) =~= sb.intersect(sa));
    lemma_union_len(sa, sb);
}

proof fn lemma_increasing_distinct(s: Seq<(u8, u8, u8)>)
    requires
        discovery::increasing(s),
    ensures
        s.no_duplicates(),
{
    assert forall|i: int, j: int| 0 <= i < s.len() && 0 <= j < s.len() && i != j implies s[i]
        != s[j] by {
        if i < j {
            assert(discovery::triple_lt(s[i], s[j]));
        } else {
            assert(discovery::triple_lt(s[j], s[i]));
        }
    }
}

proof fn lemma_union_len(a: Set<(u8, u8, u8)>, b: Set<(u8, u8, u8)>)
    requires
        a.finite(),
        b.finite(),
    ensures
        a.union(b).len() + a.intersect(b).len() == a.len() + b.len(),
    decreases a.len(),
{
    if a.len() == 0 {
        assert(a =~= Set::empty()) by {
            a.lemma_len0_is_empty();
        }
        assert(a.union(b) =~= b);
        assert(a.intersect(b) =~= Set::empty());
    } else {
        let x = a.choose();
        assert(a.contains(x)) by {
            if forall|y: (u8, u8, u8)| !a.contains(y) {
                assert(a =~= Set::empty());
            }
        }
        let c = a.remove(x);
        lemma_union_len(c, b);
        vstd::set_lib::lemma_set_union_finite_iff(c, b);
        if b.contains(x) {
            assert(a.union(b) =~= c.union(b));
            assert(a.intersect(b) =~= c.intersect(b).insert(x));
            assert(c.intersect(b).finite());
        } else {
            assert(a.union(b) =~= c.union(b).insert(x));
            assert(a.intersect(b) =~= c.intersect(b));
        }
    }
}

// ---------------------------------------------------------------------------
// Matching
// ---------------------------------------------------------------------------

/// A term matches a field by containment exactly where the field holds it, else by prefix
/// exactly where it is long enough and a word begins with it, else by likeness to the words
/// where it is longer still, and not at all otherwise.
pub proof fn law_how_terms_match(field: Seq<char>, term: Seq<char>)
    ensures
        ({
            let m = discovery::field_match(field, term);
            let n = vstd::utf8::encode_utf8(term).len();
            let words = discovery::tokens(field);
            let begins = exists|i: int, rest: Seq<char>|
                0 <= i < words.len() && #[trigger] words[i] == #[trigger] (term + rest);
            let inside = exists|front: Seq<char>, back: Seq<char>|
                field == #[trigger] (front + term + back);
            &&& m is Contains <==> inside
            &&& m is Prefix <==> !inside && n >= 2 && begins
            &&& m is Similar <==> !inside && n >= 4 && !begins
            &&& m is Nothing <==> !inside && n < 4 && (n < 2 || !begins)
            &&& m matches MatchView::Similar(f) ==> f.len() == words.len() && forall|i: int|
                0 <= i < words.len() ==> #[trigger] f[i] == discovery::likeness(term, words[i])
        }),
{
    let words = discovery::tokens(field);
    if text::has_sub(field, term) {
        let i = choose|i: int| text::occurs_at(field, term, i);
        assert(field =~= field.take(i) + term + field.skip(i + term.len()));
    }
    if exists|front: Seq<char>, back: Seq<char>| field == #[trigger] (front + term + back) {
        let (front, back) = choose|front: Seq<char>, back: Seq<char>|
            field == #[trigger] (front + term + back);
        assert(field.subrange(front.len() as int, (front.len() + term.len()) as int) =~= term);
        assert(text::occurs_at(field, term, front.len() as int));
    }
    if exists|i: int| 0 <= i < words.len() && term.is_prefix_of(#[trigger] words[i]) {
        let i = choose|i: int| 0 <= i < words.len() && term.is_prefix_of(#[trigger] words[i]);
        assert(words[i] =~= term + words[i].skip(term.len() as int));
    }
    if exists|i: int, rest: Seq<char>|
        0 <= i < words.len() && #[trigger] words[i] == #[trigger] (term + rest) {
        let (i, rest) = choose|i: int, rest: Seq<char>|
            0 <= i < words.len() && #[trigger] words[i] == #[trigger] (term + rest);
        assert(words[i].take(term.len() as int) =~= term);
        assert(term.is_prefix_of(words[i]));
    }
}

/// Every field of an item is matched as itself, case aside.
pub proof fn law_fields_are_matched_each(d: ItemView, term: Seq<char>)
    ensures
        ({
            let m = discovery::term_match(d, term);
            &&& m.title == discovery::field_match(text::lowercase_text(d.title), term)
            &&& m.id == discovery::field_match(text::lowercase_text(d.id), term)
            &&& m.description == discovery::field_match(
                text::lowercase_text(d.description),
                term,
            )
            &&& m.text == discovery::field_match(text::lowercase_text(d.text), term)
            &&& m.tags == discovery::field_match(
                text::lowercase_text(text::spaced(d.tags)),
                term,
            )
            &&& m.aliases == discovery::field_match(
                text::lowercase_text(text::spaced(d.aliases)),
                term,
            )
        }),
{
}

/// Discovery starts with three links: to a search, which needs a query, and to all workflows
/// and all capabilities, which are searches for nothing in particular of one kind.
pub proof fn law_discovery_starts_with_searches()
    ensures
        ({
            let (s, w, c) = (
                discovery::search_link(),
                discovery::list_workflows_link(),
                discovery::list_capabilities_link(),
            );
            &&& discovery::home().get("links"@) == Some(Json::Array(seq![s, w, c]))
            &&& s.str_at("rel"@) == Some("search"@) && s.str_at("method"@) == Some(
                "gateway.search"@,
            )
            &&& s.get("inputSchema"@) matches Some(i) && i.get("required"@) == Some(
                Json::Array(seq![Json::String("query"@)]),
            )
            &&& w.str_at("rel"@) == Some("list_workflows"@) && w.str_at("method"@) == Some(
                "gateway.search"@,
            ) && (w.get("args"@) matches Some(a) && a.str_at("query"@) == Some(""@) && a.str_at(
                "kind"@,
            ) == Some("workflow"@))
            &&& c.str_at("rel"@) == Some("list_capabilities"@) && c.str_at("method"@) == Some(
                "gateway.search"@,
            ) && (c.get("args"@) matches Some(a) && a.str_at("query"@) == Some(""@) && a.str_at(
                "kind"@,
            ) == Some("capability"@))
        }),
{
    json::lemma_reads();
    reveal_strlit("rel");
    reveal_strlit("title");
    reveal_strlit("method");
    reveal_strlit("args");
    reveal_strlit("inputSchema");
    reveal_strlit("query");
    reveal_strlit("kind");
    reveal_strlit("type");
    reveal_strlit("required");
    reveal_strlit("properties");
    reveal_strlit("additionalProperties");
    assert("rel"@.len() == 3 && "title"@.len() == 5 && "method"@.len() == 6 && "args"@.len() == 4
        && "inputSchema"@.len() == 11 && "query"@.len() == 5 && "kind"@.len() == 4 && "type"@.len()
        == 4 && "required"@.len() == 8 && "properties"@.len() == 10 && "additionalProperties"@.len()
        == 20);
}

} // verus!
