//! What the lexicon is for: laws about entries, forms, candidates and who may define a term.
use crate::json;
use crate::json::Json;
use crate::lexicon;
use crate::lexicon::Index;
use crate::lexicon_candidates;
use crate::lexicon_candidates::{CandidateView, MatchKind};
use crate::text;
use vstd::prelude::*;

verus! {

// ---------------------------------------------------------------------------
// Entries
// ---------------------------------------------------------------------------

proof fn lemma_first_non_text(items: Seq<Json>, i: int)
    requires
        0 <= i <= items.len(),
    ensures
        lexicon::first_non_text(items, i) is None <==> forall|k: int|
            i <= k < items.len() ==> (#[trigger] items[k]) is String,
    decreases items.len() - i,
{
    if i < items.len() && items[i] is String {
        lemma_first_non_text(items, i + 1);
    }
}

/// An entry is without fault exactly where it is a mapping with a definition that says
/// something, names no governance or a known one, and refers to terms by name.
pub proof fn law_sound_entries(term: Seq<char>, entry: Json)
    ensures
        lexicon::entry_fault()(term, entry) is None <==> {
            &&& entry is Object
            &&& entry.str_at("definition_short"@) matches Some(d) && text::trimmed(d).len() > 0
            &&& entry.str_at("governance"@) matches Some(g) ==> g == "human-only"@ || g
                == "agent-may-propose"@
            &&& forall|k: int|
                0 <= k < entry.items_at("refs"@).len() ==> (#[trigger] entry.items_at("refs"@)[k])
                    is String
        },
{
    lemma_first_non_text(entry.items_at("refs"@), 0);
}

/// An entry is built of exactly its parts.
pub proof fn law_built_of_its_parts(
    definition: Seq<char>,
    ctx: Option<Seq<char>>,
    refs: Option<Seq<Seq<char>>>,
    governance: Seq<char>,
)
    ensures
        ({
            let e = lexicon::built(definition, ctx, refs, governance);
            &&& e.get("definition_short"@) == Some(Json::String(definition))
            &&& e.get("governance"@) == Some(Json::String(governance))
            &&& e.str_at("bounded_context"@) == ctx
            &&& refs is None ==> e.get("refs"@) is None
            &&& refs matches Some(s) ==> (e.get("refs"@) matches Some(Json::Array(items))
                && items.len() == s.len() && forall|i: int|
                0 <= i < s.len() ==> #[trigger] items[i] == Json::String(s[i]))
        }),
{
    json::lemma_reads();
    reveal_strlit("definition_short");
    reveal_strlit("bounded_context");
    reveal_strlit("refs");
    reveal_strlit("governance");
    assert("definition_short"@.len() == 16 && "bounded_context"@.len() == 15 && "refs"@.len() == 4
        && "governance"@.len() == 10);
}

// ---------------------------------------------------------------------------
// Forms
// ---------------------------------------------------------------------------

/// A form is refused exactly where it has an owner already; otherwise it gets its owner and
/// every other form keeps its own.
pub proof fn law_forms_have_one_owner(
    index: Index,
    ctx: Seq<char>,
    key: Seq<char>,
    term: Seq<char>,
    entry: Json,
)
    ensures
        lexicon::registered(index, ctx, key, term, entry) is Err <==> exists|i: int|
            0 <= i < index.len() && (#[trigger] index[i]).0 == key,
        lexicon::registered(index, ctx, key, term, entry) matches Ok(now) ==> now.len()
            == index.len() + 1 && now.last() == (key, (term, entry)) && now.take(
            index.len() as int,
        ) == index,
{
    json::lemma_find_member(index, key);
    lemma_find_some(index, key);
    if let Ok(now) = lexicon::registered(index, ctx, key, term, entry) {
        assert(now.take(index.len() as int) =~= index);
    }
}

pub proof fn lemma_find_some<V>(e: Seq<(Seq<char>, V)>, key: Seq<char>)
    ensures
        json::find(e, key) is Some <==> exists|i: int|
            0 <= i < e.len() && (#[trigger] e[i]).0 == key,
    decreases e.len(),
{
    if e.len() > 0 {
        let rest = e.skip(1);
        lemma_find_some(rest, key);
        if e[0].0 != key {
            if exists|i: int| 0 <= i < e.len() && (#[trigger] e[i]).0 == key {
                let i = choose|i: int| 0 <= i < e.len() && (#[trigger] e[i]).0 == key;
                assert(rest[i - 1].0 == key);
            }
            if exists|i: int| 0 <= i < rest.len() && (#[trigger] rest[i]).0 == key {
                let i = choose|i: int| 0 <= i < rest.len() && (#[trigger] rest[i]).0 == key;
                assert(e[i + 1].0 == key);
            }
        }
    }
}

proof fn lemma_with_aliases(
    index: Index,
    ctx: Seq<char>,
    term: Seq<char>,
    entry: Json,
    aliases: Seq<Json>,
    n: int,
)
    requires
        0 <= n <= aliases.len(),
        lexicon::with_aliases(index, ctx, term, entry, aliases, n) is Ok,
    ensures
        ({
            let now = lexicon::with_aliases(index, ctx, term, entry, aliases, n)->Ok_0;
            &&& index.is_prefix_of(now)
            &&& forall|k: int|
                0 <= k < n ==> ((#[trigger] aliases[k]) matches Json::String(a) ==> now.contains(
                    (a, (term, entry)),
                ))
        }),
    decreases n,
{
    if n > 0 {
        lemma_with_aliases(index, ctx, term, entry, aliases, n - 1);
        let before = lexicon::with_aliases(index, ctx, term, entry, aliases, n - 1)->Ok_0;
        let now = lexicon::with_aliases(index, ctx, term, entry, aliases, n)->Ok_0;
        assert(before.is_prefix_of(now));
        lemma_prefixes(index, before, now);
        assert forall|k: int| 0 <= k < n implies ((#[trigger] aliases[k]) matches Json::String(a)
            ==> now.contains((a, (term, entry)))) by {
            if let Json::String(a) = aliases[k] {
                if k < n - 1 {
                    assert(before.contains((a, (term, entry))));
                    let p = choose|p: int|
                        0 <= p < before.len() && before[p] == (a, (term, entry));
                    assert(now.take(before.len() as int)[p] == before[p]);
                    assert(now[p] == (a, (term, entry)));
                } else {
                    assert(now[before.len() as int] == (a, (term, entry)));
                }
            }
        }
    }
}

proof fn lemma_prefixes(a: Index, b: Index, c: Index)
    requires
        a.is_prefix_of(b),
        b.is_prefix_of(c),
    ensures
        a.is_prefix_of(c),
        forall|x: (Seq<char>, (Seq<char>, Json))| b.contains(x) ==> #[trigger] c.contains(x),
{
    assert(c.take(a.len() as int) =~= b.take(a.len() as int)) by {
        assert forall|i: int| 0 <= i < a.len() implies c.take(a.len() as int)[i] == b.take(
            a.len() as int,
        )[i] by {
            assert(c.take(b.len() as int)[i] == b[i]);
        }
    }
    assert forall|x: (Seq<char>, (Seq<char>, Json))| b.contains(x) implies #[trigger] c.contains(
        x,
    ) by {
        let p = choose|p: int| 0 <= p < b.len() && b[p] == x;
        assert(c.take(b.len() as int)[p] == b[p]);
        assert(c[p] == x);
    }
}

/// Every entry of a context is found by its term and by each of its aliases.
pub proof fn law_terms_are_found_by_every_form(
    e: Seq<(Seq<char>, Json)>,
    ctx: Seq<char>,
    n: int,
    k: int,
    j: int,
)
    requires
        0 <= k < n <= e.len(),
        lexicon::index_upto(e, ctx, n) is Ok,
        e[k].1 is Object,
        match e[k].1.str_at("bounded_context"@) {
            Some(c) => c == ctx,
            None => ctx.len() == 0,
        },
    ensures
        ({
            let index = lexicon::index_upto(e, ctx, n)->Ok_0;
            let aliases = e[k].1.items_at("aliases"@);
            &&& index.contains((e[k].0, (e[k].0, e[k].1)))
            &&& 0 <= j < aliases.len() ==> (aliases[j] matches Json::String(a) ==> index.contains(
                (a, (e[k].0, e[k].1)),
            ))
        }),
    decreases n,
{
    reveal_strlit("");
    assert(""@ =~= Seq::empty());
    if ctx.len() == 0 {
        assert(ctx =~= Seq::empty());
    }
    let before = lexicon::index_upto(e, ctx, n - 1)->Ok_0;
    let now = lexicon::index_upto(e, ctx, n)->Ok_0;
    let (term, entry) = e[n - 1];
    let aliases = entry.items_at("aliases"@);
    if entry is Object && lexicon::context_of(entry) == ctx {
        let first = lexicon::registered(before, ctx, term, term, entry)->Ok_0;
        lemma_with_aliases(first, ctx, term, entry, aliases, aliases.len() as int);
        assert(before.is_prefix_of(first));
        lemma_prefixes(before, first, now);
        lemma_prefixes(first, now, now);
        assert(first[before.len() as int] == (term, (term, entry)));
        assert(first.contains((term, (term, entry))));
        lemma_prefixes(before, before, first);
    }
    if k < n - 1 {
        law_terms_are_found_by_every_form(e, ctx, n - 1, k, j);
        let a = e[k].1.items_at("aliases"@);
        assert(before.contains((e[k].0, (e[k].0, e[k].1))));
    }
}

// ---------------------------------------------------------------------------
// Lookups
// ---------------------------------------------------------------------------

proof fn lemma_placeholder_from(e: Seq<(Seq<char>, Json)>, i: int)
    requires
        0 <= i <= e.len(),
    ensures
        match lexicon::placeholder_from(e, i) {
            Some(p) => i <= p < e.len() && e[p].1.str_at("state"@) == Some("PENDING_DEFINITION"@)
                && forall|k: int|
                i <= k < p ==> (#[trigger] e[k]).1.str_at("state"@) != Some("PENDING_DEFINITION"@),
            None => forall|k: int|
                i <= k < e.len() ==> (#[trigger] e[k]).1.str_at("state"@) != Some(
                    "PENDING_DEFINITION"@,
                ),
        },
    decreases e.len() - i,
{
    if i < e.len() && !lexicon::is_placeholder(e[i].1) {
        lemma_placeholder_from(e, i + 1);
    }
}

/// The undefined term of a workflow is the first in its lexicon that waits for a definition;
/// there is none exactly where none waits.
pub proof fn law_undefined_terms(def: Json)
    ensures
        ({
            let e = def.entries_at("_lexiconLibrary"@);
            match lexicon::undefined_term(def) {
                Some(x) => exists|p: int|
                    0 <= p < e.len() && x == #[trigger] e[p] && e[p].1.str_at("state"@) == Some(
                        "PENDING_DEFINITION"@,
                    ) && forall|k: int|
                        0 <= k < p ==> (#[trigger] e[k]).1.str_at("state"@) != Some(
                            "PENDING_DEFINITION"@,
                        ),
                None => forall|k: int|
                    0 <= k < e.len() ==> (#[trigger] e[k]).1.str_at("state"@) != Some(
                        "PENDING_DEFINITION"@,
                    ),
            }
        }),
{
    let e = def.entries_at("_lexiconLibrary"@);
    lemma_placeholder_from(e, 0);
    if let Some(p) = lexicon::placeholder_from(e, 0) {
        assert(lexicon::undefined_term(def) == Some(e[p]));
    }
}

/// A term is looked up in the lexicon of the workflow, within the context that is asked for.
pub proof fn law_terms_are_looked_up(def: Json, term: Seq<char>, ctx: Option<Seq<char>>, entry: Json)
    ensures
        lexicon::term_entry(def, term, ctx) == Some(entry) <==> {
            &&& json::find(def.entries_at("_lexiconLibrary"@), term) == Some(entry)
            &&& ctx matches Some(c) ==> match entry.str_at("bounded_context"@) {
                Some(x) => x == c,
                None => c == ""@,
            }
        },
{
}

/// An entry matches a query: it is of the context that is asked for, and its term or its
/// definition holds the query, case aside.
pub open spec fn answers(
    term: Seq<char>,
    entry: Json,
    query: Seq<char>,
    ctx: Option<Seq<char>>,
) -> bool {
    &&& ctx matches Some(c) ==> match entry.str_at("bounded_context"@) {
        Some(x) => x == c,
        None => c == ""@,
    }
    &&& text::has_sub(text::lowercase_text(term), query) || (entry.str_at("definition_short"@)
        matches Some(d) && text::has_sub(text::lowercase_text(d), query))
}

/// A search finds exactly the entries that match it, in their order, each with its term.
pub proof fn law_searches_find_what_matches(
    e: Seq<(Seq<char>, Json)>,
    query: Seq<char>,
    ctx: Option<Seq<char>>,
    n: int,
)
    requires
        0 <= n <= e.len(),
    ensures
        lexicon::term_hits(e, query, ctx, n) == e.take(n).filter(
            |x: (Seq<char>, Json)| answers(x.0, x.1, query, ctx),
        ).map_values(|x: (Seq<char>, Json)| x.1.with("term"@, Json::String(x.0))),
    decreases n,
{
    let p = |x: (Seq<char>, Json)| answers(x.0, x.1, query, ctx);
    let f = |x: (Seq<char>, Json)| x.1.with("term"@, Json::String(x.0));
    reveal(Seq::filter);
    if n > 0 {
        law_searches_find_what_matches(e, query, ctx, n - 1);
        assert(e.take(n).drop_last() =~= e.take(n - 1));
        assert(e.take(n).last() == e[n - 1]);
        let before = e.take(n - 1).filter(p);
        let now = e.take(n).filter(p);
        assert(p(e[n - 1]) == (lexicon::in_context(e[n - 1].1, ctx) && lexicon::hit(
            e[n - 1].0,
            e[n - 1].1,
            query,
        )));
        if p(e[n - 1]) {
            assert(now =~= before.push(e[n - 1]));
            assert(now.map_values(f) =~= before.map_values(f).push(f(e[n - 1])));
        } else {
            assert(now =~= before);
        }
    } else {
        assert(e.take(0) =~= Seq::empty());
        assert(e.take(0).filter(p).map_values(f) =~= Seq::empty());
    }
}

/// A human may define every term, and an agent exactly those whose entry lets agents propose.
pub proof fn law_who_may_define(def: Json, term: Seq<char>)
    ensures
        lexicon::may_define(def, term, true),
        lexicon::may_define(def, term, false) <==> (json::find(
            def.entries_at("_lexiconLibrary"@),
            term,
        ) matches Some(entry) && entry.str_at("governance"@) == Some("agent-may-propose"@)),
{
    reveal_strlit("human-only");
    reveal_strlit("agent-may-propose");
    assert("human-only"@.len() == 10 && "agent-may-propose"@.len() == 17);
}

// ---------------------------------------------------------------------------
// Candidates
// ---------------------------------------------------------------------------

proof fn lemma_aliases(items: Seq<Json>, n: int, a: Seq<char>)
    requires
        0 <= n <= items.len(),
    ensures
        lexicon_candidates::aliases(items, n).contains(a) <==> exists|k: int|
            0 <= k < n && #[trigger] items[k] == Json::String(a),
    decreases n,
{
    let all = lexicon_candidates::aliases(items, n);
    if n > 0 {
        lemma_aliases(items, n - 1, a);
        let before = lexicon_candidates::aliases(items, n - 1);
        if before.contains(a) {
            let p = choose|p: int| 0 <= p < before.len() && before[p] == a;
            assert(all[p] == a);
        }
        if all.contains(a) && !before.contains(a) {
            let p = choose|p: int| 0 <= p < all.len() && all[p] == a;
            if p < before.len() {
                assert(before[p] == a);
            }
            assert(items[n - 1] == Json::String(a));
        }
        if items[n - 1] == Json::String(a) {
            assert(all[before.len() as int] == a);
        }
    }
}

/// A candidate is as near as it says: an exact match is the term itself, an alias one of the
/// entry's aliases, a close match one edit away from the term or an alias and a loose one
/// two; the better name goes first, and what is further away is no candidate. An entry that
/// waits for its definition, or that belongs to another context, gives none.
pub proof fn law_candidates_are_as_near_as_they_say(
    subject: Seq<char>,
    term: Seq<char>,
    entry: Json,
    ctx: Option<Seq<char>>,
)
    ensures
        ({
            let c = lexicon_candidates::candidate_of(subject, term, entry, ctx);
            let fs = lexicon_candidates::forms(term, entry);
            let alias = exists|k: int|
                0 <= k < entry.items_at("aliases"@).len() && #[trigger] entry.items_at(
                    "aliases"@,
                )[k] == Json::String(subject);
            let near = |d: int|
                exists|i: int|
                    0 <= i < fs.len() && lexicon_candidates::distance(subject, #[trigger] fs[i])
                        == d;
            let eligible = entry is Object && entry.str_at("state"@) != Some(
                "PENDING_DEFINITION"@,
            ) && match (ctx, entry.str_at("bounded_context"@)) {
                (Some(x), Some(y)) => x == y || y == ""@,
                _ => true,
            };
            &&& c is None <==> !eligible || (subject != term && !alias && !near(1) && !near(2))
            &&& c matches Some(x) ==> {
                &&& x.term == term
                &&& x.match_kind == MatchKind::Exact <==> subject == term
                &&& x.match_kind == MatchKind::Alias <==> subject != term && alias
                &&& x.match_kind == MatchKind::FuzzyClose <==> subject != term && !alias && near(1)
                &&& x.match_kind == MatchKind::FuzzyLoose <==> subject != term && !alias && !near(1)
                &&& x.match_kind == MatchKind::Exact || x.match_kind == MatchKind::Alias
                    ==> x.distance == 0
                &&& x.match_kind == MatchKind::FuzzyClose ==> x.distance == 1
                &&& x.match_kind == MatchKind::FuzzyLoose ==> x.distance == 2
                &&& entry.str_at("definition_short"@) matches Some(d) ==> x.definition_preview
                    == if d.len() <= 100 {
                    d
                } else {
                    d.take(100)
                }
            }
        }),
{
    let items = entry.items_at("aliases"@);
    let fs = lexicon_candidates::forms(term, entry);
    let names = lexicon_candidates::aliases(items, items.len() as int);
    lemma_aliases(items, items.len() as int, subject);
    assert(fs[0] == term);
    if names.contains(subject) {
        let p = choose|p: int| 0 <= p < names.len() && names[p] == subject;
        assert(fs[p + 1] == subject);
    }
    if fs.contains(subject) && subject != term {
        let p = choose|p: int| 0 <= p < fs.len() && fs[p] == subject;
        assert(names[p - 1] == subject);
    }
}

/// Better candidates come first: exact matches before aliases, those before close and those
/// before loose ones; candidates of the same kind stand in the order of their terms.
pub proof fn law_better_candidates_come_first(
    subject: Seq<char>,
    e: Seq<(Seq<char>, Json)>,
    ctx: Option<Seq<char>>,
    i: int,
    j: int,
)
    requires
        0 <= i < j < lexicon_candidates::ranked(subject, e, ctx, e.len() as int).len(),
    ensures
        ({
            let r = lexicon_candidates::ranked(subject, e, ctx, e.len() as int);
            &&& r[j].match_kind == MatchKind::Exact ==> r[i].match_kind == MatchKind::Exact
            &&& r[j].match_kind == MatchKind::Alias ==> r[i].match_kind == MatchKind::Exact
                || r[i].match_kind == MatchKind::Alias
            &&& r[j].match_kind == MatchKind::FuzzyClose ==> r[i].match_kind
                != MatchKind::FuzzyLoose
            &&& r[i].match_kind == r[j].match_kind ==> !text::text_lt(r[j].term, r[i].term)
        }),
{
    let r = lexicon_candidates::ranked(subject, e, ctx, e.len() as int);
    lexicon_candidates::law_ranked(subject, e, ctx, e.len() as int);
    assert(!lexicon_candidates::better(r[j], r[i]));
    lemma_kind_and_distance(subject, e, ctx, i);
    lemma_kind_and_distance(subject, e, ctx, j);
}

proof fn lemma_kind_and_distance(
    subject: Seq<char>,
    e: Seq<(Seq<char>, Json)>,
    ctx: Option<Seq<char>>,
    k: int,
)
    requires
        0 <= k < lexicon_candidates::ranked(subject, e, ctx, e.len() as int).len(),
    ensures
        ({
            let c = lexicon_candidates::ranked(subject, e, ctx, e.len() as int)[k];
            c.distance == c.match_kind.away()
        }),
{
    lexicon_candidates::law_ranked(subject, e, ctx, e.len() as int);
    let c = lexicon_candidates::ranked(subject, e, ctx, e.len() as int)[k];
    let i = choose|i: int|
        0 <= i < e.len() && lexicon_candidates::candidate_of(
            subject,
            (#[trigger] e[i]).0,
            e[i].1,
            ctx,
        ) == Some(c);
    assert(lexicon_candidates::candidate_of(subject, e[i].0, e[i].1, ctx) == Some(c));
}

/// The answer holds the five best candidates at most.
pub proof fn law_five_best(s: Seq<CandidateView>, i: int)
    ensures
        lexicon_candidates::best_five(s).len() <= 5,
        s.len() <= 5 ==> lexicon_candidates::best_five(s) == s,
        s.len() > 5 ==> lexicon_candidates::best_five(s).len() == 5,
        0 <= i < lexicon_candidates::best_five(s).len() ==> lexicon_candidates::best_five(s)[i]
            == s[i],
{
}

/// Edits are counted one by one: a character more on either side costs at most one edit, two
/// characters cost one where they differ and none where they are the same, and one of these
/// is always the cheapest way. Texts of different lengths need at least as many edits as
/// their lengths differ.
pub proof fn law_edits_are_counted(a: Seq<char>, c: char, b: Seq<char>, d: char)
    ensures
        lexicon_candidates::edits(a, Seq::empty()) == a.len(),
        lexicon_candidates::edits(Seq::empty(), b) == b.len(),
        ({
            let cost = if c == d {
                0int
            } else {
                1
            };
            let m = lexicon_candidates::edits(a.push(c), b.push(d));
            &&& m <= lexicon_candidates::edits(a, b.push(d)) + 1
            &&& m <= lexicon_candidates::edits(a.push(c), b) + 1
            &&& m <= lexicon_candidates::edits(a, b) + cost
            &&& m == lexicon_candidates::edits(a, b.push(d)) + 1 || m == lexicon_candidates::edits(
                a.push(c),
                b,
            ) + 1 || m == lexicon_candidates::edits(a, b) + cost
        }),
        lexicon_candidates::edits(a, b) >= a.len() - b.len(),
        lexicon_candidates::edits(a, b) >= b.len() - a.len(),
{
    assert(a.push(c).drop_last() =~= a);
    assert(b.push(d).drop_last() =~= b);
    lemma_edits_at_least(a, b);
}

proof fn lemma_edits_at_least(a: Seq<char>, b: Seq<char>)
    ensures
        lexicon_candidates::edits(a, b) >= a.len() - b.len(),
        lexicon_candidates::edits(a, b) >= b.len() - a.len(),
    decreases a.len() + b.len(),
{
    if a.len() > 0 && b.len() > 0 {
        lemma_edits_at_least(a.drop_last(), b);
        lemma_edits_at_least(a, b.drop_last());
        lemma_edits_at_least(a.drop_last(), b.drop_last());
    }
}

} // verus!
