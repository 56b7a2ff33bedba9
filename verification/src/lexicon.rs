//! The lexicon: terms, what they mean, who may define them.
use crate::config_check;
use crate::config_stamp;
use crate::json;
use crate::json::{Json, Value};
use crate::text;
use vstd::prelude::*;

verus! {

/// Who may define a term that says nothing of it.
pub const DEFAULT_GOVERNANCE: &'static str = "human-only";

/// A known governance.
pub open spec fn known_governance(g: Seq<char>) -> bool {
    g == "human-only"@ || g == "agent-may-propose"@
}

fn is_known_governance(g: &str) -> (r: bool)
    ensures
        r == known_governance(g@),
{
    text::str_eq(g, "human-only") || text::str_eq(g, "agent-may-propose")
}

// ---------------------------------------------------------------------------
// Entries
// ---------------------------------------------------------------------------

/// The first item from `i` on that is no text.
pub open spec fn first_non_text(items: Seq<Json>, i: int) -> Option<int>
    decreases items.len() - i,
{
    if i >= items.len() {
        None
    } else if items[i] is String {
        first_non_text(items, i + 1)
    } else {
        Some(i)
    }
}

/// What is wrong with an entry: it must have a definition that says something, a known
/// governance where it names one, and references that are texts.
pub open spec fn entry_fault() -> spec_fn(Seq<char>, Json) -> Option<Seq<char>> {
    |term: Seq<char>, entry: Json|
        {
            let at = "INVALID_LEXICON_ENTRY: lexicon entry '"@ + term + "' "@;
            if !(entry is Object) {
                Some(at + "must be an object with at least `definition_short:` set"@)
            } else {
                match entry.str_at("definition_short"@) {
                    None => Some(
                        at + "is missing the required `definition:` field (string)"@,
                    ),
                    Some(d) => if text::trimmed(d).len() == 0 {
                        Some(at + "has empty `definition:` — definitions must be substantive"@)
                    } else {
                        match governance_fault(entry) {
                            Some(g) => Some(
                                at + "has unknown `governance: "@ + g
                                    + "` — supported: `human-only` (default) | `agent-may-propose`"@,
                            ),
                            None => match first_non_text(entry.items_at("refs"@), 0) {
                                Some(i) => Some(
                                    at + "refs["@ + text::decimal(i as nat)
                                        + "] is not a string — refs must be term names"@,
                                ),
                                None => None,
                            },
                        }
                    },
                }
            }
        }
}

/// The governance of an entry, where it is not a known one.
pub open spec fn governance_fault(entry: Json) -> Option<Seq<char>> {
    match entry.str_at("governance"@) {
        Some(g) => if known_governance(g) {
            None
        } else {
            Some(g)
        },
        None => None,
    }
}

fn check_refs(at: &str, items: &Vec<Value>) -> (r: Result<(), String>)
    ensures
        config_check::fault(r) == (match first_non_text(json::views(items@), 0) {
            Some(i) => Some(
                at@ + "refs["@ + text::decimal(i as nat)
                    + "] is not a string — refs must be term names"@,
            ),
            None => None,
        }),
{
    let ghost js = json::views(items@);
    let mut i: usize = 0;
    while i < items.len()
        invariant
            i <= items.len(),
            js == json::views(items@),
            first_non_text(js, i as int) == first_non_text(js, 0),
        decreases items.len() - i,
    {
        assert(js[i as int] == items@[i as int]@);
        if items[i].as_str().is_none() {
            let n = text::decimal_of(i as u64);
            return Err(
                text::join4(
                    at,
                    "refs[",
                    n.as_str(),
                    "] is not a string — refs must be term names",
                ),
            );
        }
        i = i + 1;
    }
    Ok(())
}

fn check_entry(term: &str, entry: &Value) -> (r: Result<(), String>)
    ensures
        config_check::fault(r) == entry_fault()(term@, entry@),
{
    let at = text::join3("INVALID_LEXICON_ENTRY: lexicon entry '", term, "' ");
    if !entry.is_object() {
        return Err(
            text::join2(
                at.as_str(),
                "must be an object with at least `definition_short:` set",
            ),
        );
    }
    let d = match entry.str_at("definition_short") {
        None => {
            return Err(
                text::join2(
                    at.as_str(),
                    "is missing the required `definition:` field (string)",
                ),
            );
        },
        Some(d) => d,
    };
    let t = text::trim(d);
    if t.as_str().unicode_len() == 0 {
        return Err(
            text::join2(
                at.as_str(),
                "has empty `definition:` — definitions must be substantive",
            ),
        );
    }
    if let Some(g) = entry.str_at("governance") {
        if !is_known_governance(g) {
            return Err(
                text::join4(
                    at.as_str(),
                    "has unknown `governance: ",
                    g,
                    "` — supported: `human-only` (default) | `agent-may-propose`",
                ),
            );
        }
    }
    match entry.array_at("refs") {
        Some(items) => check_refs(at.as_str(), items),
        None => Ok(()),
    }
}

// ---------------------------------------------------------------------------
// The index of a context
// ---------------------------------------------------------------------------

/// The context that an entry belongs to; the empty text for none.
pub open spec fn context_of(entry: Json) -> Seq<char> {
    match entry.str_at("bounded_context"@) {
        Some(c) => c,
        None => ""@,
    }
}

fn entry_context(entry: &Value) -> (r: &str)
    ensures
        r@ == context_of(entry@),
{
    match entry.str_at("bounded_context") {
        Some(c) => c,
        None => "",
    }
}

/// The forms of terms, each with the term that owns it and the entry of that term.
pub type Index = Seq<(Seq<char>, (Seq<char>, Json))>;

/// An index with one more form. No form may have two owners.
pub open spec fn registered(
    index: Index,
    ctx: Seq<char>,
    key: Seq<char>,
    term: Seq<char>,
    entry: Json,
) -> Result<Index, Seq<char>> {
    match json::find(index, key) {
        Some(owner) => Err(
            "LEXICON_ALIAS_COLLISION: within bounded_context '"@ + ctx + "', key '"@ + key
                + "' is claimed by both '"@ + owner.0 + "' and '"@ + term
                + "'. Aliases must be unique within a bounded context."@,
        ),
        None => Ok(index.push((key, (term, entry)))),
    }
}

/// An index with the first `n` aliases of a term.
pub open spec fn with_aliases(
    index: Index,
    ctx: Seq<char>,
    term: Seq<char>,
    entry: Json,
    aliases: Seq<Json>,
    n: int,
) -> Result<Index, Seq<char>>
    decreases n,
{
    if n <= 0 {
        Ok(index)
    } else {
        match with_aliases(index, ctx, term, entry, aliases, n - 1) {
            Err(m) => Err(m),
            Ok(done) => match aliases[n - 1].as_str() {
                Some(a) => registered(done, ctx, a, term, entry),
                None => Ok(done),
            },
        }
    }
}

/// An index with a term and its aliases, where the entry belongs to the context.
pub open spec fn with_term(index: Index, ctx: Seq<char>, term: Seq<char>, entry: Json) -> Result<
    Index,
    Seq<char>,
> {
    if entry is Object && context_of(entry) == ctx {
        match registered(index, ctx, term, term, entry) {
            Err(m) => Err(m),
            Ok(done) => {
                let aliases = entry.items_at("aliases"@);
                with_aliases(done, ctx, term, entry, aliases, aliases.len() as int)
            },
        }
    } else {
        Ok(index)
    }
}

/// The index of a context over the first `n` entries.
pub open spec fn index_upto(e: Seq<(Seq<char>, Json)>, ctx: Seq<char>, n: int) -> Result<
    Index,
    Seq<char>,
>
    decreases n,
{
    if n <= 0 {
        Ok(Seq::empty())
    } else {
        match index_upto(e, ctx, n - 1) {
            Err(m) => Err(m),
            Ok(done) => with_term(done, ctx, e[n - 1].0, e[n - 1].1),
        }
    }
}

/// The index of a context.
pub open spec fn combined_index(e: Seq<(Seq<char>, Json)>, ctx: Seq<char>) -> Result<
    Index,
    Seq<char>,
> {
    index_upto(e, ctx, e.len() as int)
}

/// A form of a term.
#[derive(Debug, PartialEq)]
pub struct Form {
    pub key: String,
    /// The term that owns the form.
    pub term: String,
    /// The entry of that term.
    pub entry: Value,
}

/// The forms as an index.
pub open spec fn index_of(v: Seq<Form>) -> Index {
    Seq::new(v.len(), |i: int| (v[i].key@, (v[i].term@, v[i].entry@)))
}

/// The outcome of building an index.
pub open spec fn index_result(r: Result<Vec<Form>, String>) -> Result<Index, Seq<char>> {
    match r {
        Ok(v) => Ok(index_of(v@)),
        Err(m) => Err(m@),
    }
}

/// The term that owns a form.
fn owner_of<'a>(index: &'a Vec<Form>, key: &str) -> (r: Option<&'a str>)
    ensures
        text::opt_str(r) == (match json::find(index_of(index@), key@) {
            Some(owner) => Some(owner.0),
            None => None,
        }),
{
    let ghost e = index_of(index@);
    let mut i: usize = 0;
    assert(e.skip(0) =~= e);
    while i < index.len()
        invariant
            i <= index.len(),
            e == index_of(index@),
            json::find(e.skip(i as int), key@) == json::find(e, key@),
        decreases index.len() - i,
    {
        if text::str_eq(index[i].key.as_str(), key) {
            return Some(index[i].term.as_str());
        }
        assert(e.skip(i as int).skip(1) =~= e.skip(i + 1));
        i = i + 1;
    }
    None
}

fn register(index: &mut Vec<Form>, ctx: &str, key: &str, term: &str, entry: &Value) -> (r: Result<
    (),
    String,
>)
    ensures
        match r {
            Ok(_) => registered(index_of(old(index)@), ctx@, key@, term@, entry@) == Ok::<
                Index,
                Seq<char>,
            >(index_of(final(index)@)),
            Err(m) => registered(index_of(old(index)@), ctx@, key@, term@, entry@) == Err::<
                Index,
                Seq<char>,
            >(m@),
        },
{
    if let Some(owner) = owner_of(index, key) {
        return Err(
            text::join9(
                "LEXICON_ALIAS_COLLISION: within bounded_context '",
                ctx,
                "', key '",
                key,
                "' is claimed by both '",
                owner,
                "' and '",
                term,
                "'. Aliases must be unique within a bounded context.",
            ),
        );
    }
    let ghost before = index@;
    let x = Form { key: key.to_owned(), term: term.to_owned(), entry: entry.dup() };
    index.push(x);
    assert(index_of(index@) =~= index_of(before).push((key@, (term@, entry@))));
    Ok(())
}

proof fn lemma_aliases_err(
    index: Index,
    ctx: Seq<char>,
    term: Seq<char>,
    entry: Json,
    aliases: Seq<Json>,
    k: int,
    n: int,
)
    requires
        k <= n,
        with_aliases(index, ctx, term, entry, aliases, k) is Err,
    ensures
        with_aliases(index, ctx, term, entry, aliases, n) == with_aliases(
            index,
            ctx,
            term,
            entry,
            aliases,
            k,
        ),
    decreases n - k,
{
    if k < n {
        lemma_aliases_err(index, ctx, term, entry, aliases, k, n - 1);
    }
}

proof fn lemma_index_err(e: Seq<(Seq<char>, Json)>, ctx: Seq<char>, k: int, n: int)
    requires
        k <= n,
        index_upto(e, ctx, k) is Err,
    ensures
        index_upto(e, ctx, n) == index_upto(e, ctx, k),
    decreases n - k,
{
    if k < n {
        lemma_index_err(e, ctx, k, n - 1);
    }
}

fn register_term(index: &mut Vec<Form>, ctx: &str, term: &str, entry: &Value) -> (r: Result<
    (),
    String,
>)
    ensures
        match r {
            Ok(_) => with_term(index_of(old(index)@), ctx@, term@, entry@) == Ok::<
                Index,
                Seq<char>,
            >(index_of(final(index)@)),
            Err(m) => with_term(index_of(old(index)@), ctx@, term@, entry@) == Err::<
                Index,
                Seq<char>,
            >(m@),
        },
{
    if !entry.is_object() || !text::str_eq(entry_context(entry), ctx) {
        return Ok(());
    }
    match register(index, ctx, term, term, entry) {
        Err(m) => {
            return Err(m);
        },
        Ok(_) => {},
    }
    let ghost base = index_of(index@);
    if let Some(aliases) = entry.array_at("aliases") {
        let ghost js = json::views(aliases@);
        let mut i: usize = 0;
        while i < aliases.len()
            invariant
                i <= aliases.len(),
                js == json::views(aliases@),
                js == entry@.items_at("aliases"@),
                entry@ is Object,
                context_of(entry@) == ctx@,
                registered(index_of(old(index)@), ctx@, term@, term@, entry@) == Ok::<
                    Index,
                    Seq<char>,
                >(base),
                with_aliases(base, ctx@, term@, entry@, js, i as int) == Ok::<Index, Seq<char>>(
                    index_of(index@),
                ),
            decreases aliases.len() - i,
        {
            assert(js[i as int] == aliases@[i as int]@);
            if let Some(a) = aliases[i].as_str() {
                match register(index, ctx, a, term, entry) {
                    Err(m) => {
                        proof {
                            lemma_aliases_err(
                                base,
                                ctx@,
                                term@,
                                entry@,
                                js,
                                i + 1,
                                js.len() as int,
                            );
                        }
                        return Err(m);
                    },
                    Ok(_) => {},
                }
            }
            i = i + 1;
        }
    }
    Ok(())
}

/// The index of a context: every term of the context and every alias of it, with the
/// entry that it stands for.
pub fn build_combined_index(lexicon: &Vec<(String, Value)>, bounded_context: &str) -> (r: Result<
    Vec<Form>,
    String,
>)
    ensures
        index_result(r) == combined_index(json::entries(lexicon@), bounded_context@),
{
    let ghost e = json::entries(lexicon@);
    let mut out: Vec<Form> = Vec::new();
    assert(index_of(out@) =~= Seq::empty());
    let mut i: usize = 0;
    while i < lexicon.len()
        invariant
            i <= lexicon.len(),
            e == json::entries(lexicon@),
            index_upto(e, bounded_context@, i as int) == Ok::<Index, Seq<char>>(index_of(out@)),
        decreases lexicon.len() - i,
    {
        assert(e[i as int] == (lexicon@[i as int].0@, lexicon@[i as int].1@));
        match register_term(
            &mut out,
            bounded_context,
            lexicon[i].0.as_str(),
            &lexicon[i].1,
        ) {
            Err(m) => {
                proof {
                    lemma_index_err(e, bounded_context@, i + 1, e.len() as int);
                }
                return Err(m);
            },
            Ok(_) => {},
        }
        i = i + 1;
    }
    Ok(out)
}

/// The forms of an index are all different.
pub open spec fn forms_differ(index: Index) -> bool {
    forall|i: int, j: int|
        0 <= i < j < index.len() ==> (#[trigger] index[i]).0 != (#[trigger] index[j]).0
}

/// No form stands at a position of an index in which it is not found.
proof fn lemma_not_found(index: Index, key: Seq<char>, i: int)
    requires
        json::find(index, key) is None,
        0 <= i < index.len(),
    ensures
        index[i].0 != key,
    decreases index.len(),
{
    if i > 0 {
        lemma_not_found(index.skip(1), key, i - 1);
    }
}

proof fn lemma_registered_differ(
    index: Index,
    ctx: Seq<char>,
    key: Seq<char>,
    term: Seq<char>,
    entry: Json,
)
    requires
        forms_differ(index),
    ensures
        registered(index, ctx, key, term, entry) matches Ok(i) ==> forms_differ(i),
{
    if let Ok(p) = registered(index, ctx, key, term, entry) {
        assert forall|i: int, j: int| 0 <= i < j < p.len() implies (#[trigger] p[i]).0 != (
        #[trigger] p[j]).0 by {
            if j == index.len() {
                lemma_not_found(index, key, i);
            } else {
                assert(p[i] == index[i] && p[j] == index[j]);
            }
        }
    }
}

proof fn lemma_aliases_differ(
    index: Index,
    ctx: Seq<char>,
    term: Seq<char>,
    entry: Json,
    aliases: Seq<Json>,
    n: int,
)
    requires
        forms_differ(index),
    ensures
        with_aliases(index, ctx, term, entry, aliases, n) matches Ok(i) ==> forms_differ(i),
    decreases n,
{
    if n > 0 {
        lemma_aliases_differ(index, ctx, term, entry, aliases, n - 1);
        if let Ok(done) = with_aliases(index, ctx, term, entry, aliases, n - 1) {
            if let Some(a) = aliases[n - 1].as_str() {
                lemma_registered_differ(done, ctx, a, term, entry);
            }
        }
    }
}

/// Within a context every form has one owner.
pub proof fn law_forms_are_unique(e: Seq<(Seq<char>, Json)>, ctx: Seq<char>, n: int)
    requires
        0 <= n <= e.len(),
    ensures
        index_upto(e, ctx, n) matches Ok(i) ==> forms_differ(i),
    decreases n,
{
    if n > 0 {
        law_forms_are_unique(e, ctx, n - 1);
        if let Ok(done) = index_upto(e, ctx, n - 1) {
            let (term, entry) = e[n - 1];
            lemma_registered_differ(done, ctx, term, term, entry);
            if let Ok(more) = registered(done, ctx, term, term, entry) {
                let aliases = entry.items_at("aliases"@);
                lemma_aliases_differ(more, ctx, term, entry, aliases, aliases.len() as int);
            }
        }
    }
}

// ---------------------------------------------------------------------------
// The lexicon of a configuration
// ---------------------------------------------------------------------------

/// The first collision in the contexts of the entries from `i` on.
pub open spec fn collision(e: Seq<(Seq<char>, Json)>, i: int) -> Option<Seq<char>>
    decreases e.len() - i,
{
    if i >= e.len() {
        None
    } else {
        match combined_index(e, context_of(e[i].1)) {
            Err(m) => Some(m),
            Ok(_) => collision(e, i + 1),
        }
    }
}

/// What is wrong with the lexicon of a configuration.
pub open spec fn lexicon_fault(config: Json) -> Option<Seq<char>> {
    let e = config.entries_at("lexicon"@);
    match config_check::first_fault(e, 0, entry_fault()) {
        Some(m) => Some(m),
        None => collision(e, 0),
    }
}

/// Checks the lexicon of a configuration.
pub fn validate_lexicon(config: &Value) -> (r: Result<(), String>)
    ensures
        config_check::fault(r) == lexicon_fault(config@),
{
    let lexicon = match config.object_at("lexicon") {
        None => {
            return Ok(());
        },
        Some(l) => l,
    };
    let ghost e = json::entries(lexicon@);
    let ghost f = entry_fault();
    let mut i: usize = 0;
    while i < lexicon.len()
        invariant
            i <= lexicon.len(),
            e == json::entries(lexicon@),
            e == config@.entries_at("lexicon"@),
            f == entry_fault(),
            config_check::first_fault(e, i as int, f) == config_check::first_fault(e, 0, f),
        decreases lexicon.len() - i,
    {
        assert(e[i as int] == (lexicon@[i as int].0@, lexicon@[i as int].1@));
        match check_entry(lexicon[i].0.as_str(), &lexicon[i].1) {
            Err(m) => {
                return Err(m);
            },
            Ok(_) => {},
        }
        i = i + 1;
    }
    let mut j: usize = 0;
    while j < lexicon.len()
        invariant
            j <= lexicon.len(),
            e == json::entries(lexicon@),
            e == config@.entries_at("lexicon"@),
            f == entry_fault(),
            config_check::first_fault(e, 0, f) is None,
            collision(e, j as int) == collision(e, 0),
        decreases lexicon.len() - j,
    {
        assert(e[j as int] == (lexicon@[j as int].0@, lexicon@[j as int].1@));
        match build_combined_index(lexicon, entry_context(&lexicon[j].1)) {
            Err(m) => {
                return Err(m);
            },
            Ok(_) => {},
        }
        j = j + 1;
    }
    Ok(())
}

/// A configuration whose workflows hold its lexicon.
pub open spec fn lexicon_stamped(config: Json) -> Json {
    match config.get("lexicon"@) {
        Some(l) => config_stamp::over(
            config,
            "workflows"@,
            config_stamp::with_value("_lexiconLibrary"@, l),
        ),
        None => config,
    }
}

/// Gives every workflow the lexicon.
pub fn stamp_lexicon_library(config: Value) -> (r: Value)
    ensures
        r@ == lexicon_stamped(config@),
{
    let l = match config.get("lexicon") {
        None => {
            return config;
        },
        Some(l) => l.dup(),
    };
    config_stamp::stamp_all(config, "_lexiconLibrary", &l)
}

// ---------------------------------------------------------------------------
// Lookup and search
// ---------------------------------------------------------------------------

/// The entry belongs to the context, where one is asked for.
pub open spec fn in_context(entry: Json, ctx: Option<Seq<char>>) -> bool {
    match ctx {
        Some(c) => context_of(entry) == c,
        None => true,
    }
}

fn is_in_context(entry: &Value, ctx: Option<&str>) -> (r: bool)
    ensures
        r == in_context(entry@, text::opt_str(ctx)),
{
    match ctx {
        Some(c) => text::str_eq(entry_context(entry), c),
        None => true,
    }
}

/// The entry stands for a term that has no definition yet.
pub open spec fn is_placeholder(entry: Json) -> bool {
    entry.str_at("state"@) == Some("PENDING_DEFINITION"@)
}

/// The entry stands for a term that has no definition yet.
pub fn has_no_definition(entry: &Value) -> (r: bool)
    ensures
        r == is_placeholder(entry@),
{
    text::opt_is(entry.str_at("state"), "PENDING_DEFINITION")
}

/// Where the first placeholder from `i` on stands.
pub open spec fn placeholder_from(e: Seq<(Seq<char>, Json)>, i: int) -> Option<int>
    decreases e.len() - i,
{
    if i < 0 || i >= e.len() {
        None
    } else if is_placeholder(e[i].1) {
        Some(i)
    } else {
        placeholder_from(e, i + 1)
    }
}

/// The first term in the lexicon of a workflow that has no definition yet, with its
/// entry.
pub open spec fn undefined_term(def: Json) -> Option<(Seq<char>, Json)> {
    let e = def.entries_at("_lexiconLibrary"@);
    match placeholder_from(e, 0) {
        Some(i) => Some(e[i]),
        None => None,
    }
}

/// The first term in the lexicon of a workflow that has no definition yet, with its
/// bounded context.
pub fn find_undefined_term(def: &Value) -> (r: Option<(String, Option<String>)>)
    ensures
        match (r, undefined_term(def@)) {
            (Some((term, ctx)), Some((t, entry))) => term@ == t && text::opt_text(ctx)
                == entry.str_at("bounded_context"@),
            (None, None) => true,
            _ => false,
        },
{
    let lib = match def.object_at("_lexiconLibrary") {
        None => {
            return None;
        },
        Some(l) => l,
    };
    let ghost e = json::entries(lib@);
    let mut i: usize = 0;
    while i < lib.len()
        invariant
            i <= lib.len(),
            e == json::entries(lib@),
            e == def@.entries_at("_lexiconLibrary"@),
            placeholder_from(e, i as int) == placeholder_from(e, 0),
        decreases lib.len() - i,
    {
        assert(e[i as int] == (lib@[i as int].0@, lib@[i as int].1@));
        if has_no_definition(&lib[i].1) {
            return Some(
                (lib[i].0.clone(), text::opt_owned(lib[i].1.str_at("bounded_context"))),
            );
        }
        i = i + 1;
    }
    None
}

/// Where no placeholder is found from `i` on, there is none.
pub proof fn lemma_no_placeholder(e: Seq<(Seq<char>, Json)>, i: int, k: int)
    requires
        placeholder_from(e, i) is None,
        0 <= i <= k < e.len(),
    ensures
        !is_placeholder(e[k].1),
    decreases k - i,
{
    if i < k {
        lemma_no_placeholder(e, i + 1, k);
    }
}

/// The entry of a term in the lexicon of a workflow.
pub open spec fn term_entry(def: Json, term: Seq<char>, ctx: Option<Seq<char>>) -> Option<Json> {
    match json::find(def.entries_at("_lexiconLibrary"@), term) {
        Some(entry) => if in_context(entry, ctx) {
            Some(entry)
        } else {
            None
        },
        None => None,
    }
}

/// The entry of a term in the lexicon of a workflow.
pub fn lookup_term<'a>(def: &'a Value, term: &str, bounded_context: Option<&str>) -> (r: Option<
    &'a Value,
>)
    ensures
        json::opt_view(r) == term_entry(def@, term@, text::opt_str(bounded_context)),
{
    let lib = match def.object_at("_lexiconLibrary") {
        None => {
            return None;
        },
        Some(l) => l,
    };
    match json::lookup(lib, term) {
        None => None,
        Some(entry) => {
            if is_in_context(entry, bounded_context) {
                Some(entry)
            } else {
                None
            }
        },
    }
}

/// The query occurs in the term or in its definition, case aside.
pub open spec fn hit(term: Seq<char>, entry: Json, query: Seq<char>) -> bool {
    text::has_sub(text::lowercase_text(term), query) || match entry.str_at("definition_short"@) {
        Some(d) => text::has_sub(text::lowercase_text(d), query),
        None => false,
    }
}

/// The hits among the first `n` entries, in order, each with its term.
pub open spec fn term_hits(
    e: Seq<(Seq<char>, Json)>,
    query: Seq<char>,
    ctx: Option<Seq<char>>,
    n: int,
) -> Seq<Json>
    decreases n,
{
    if n <= 0 {
        Seq::empty()
    } else {
        let before = term_hits(e, query, ctx, n - 1);
        let (term, entry) = e[n - 1];
        if in_context(entry, ctx) && hit(term, entry, query) {
            before.push(entry.with("term"@, Json::String(term)))
        } else {
            before
        }
    }
}

/// The first `limit` hits.
pub open spec fn first_hits(s: Seq<Json>, limit: int) -> Seq<Json> {
    if s.len() <= limit {
        s
    } else {
        s.take(limit)
    }
}

/// The terms in the lexicon of a workflow that match a query, in order and not more
/// than `limit`, or ten.
pub fn search_terms(
    def: &Value,
    query: &str,
    bounded_context: Option<&str>,
    limit: Option<usize>,
) -> (r: Vec<Value>)
    ensures
        ({
            let e = def@.entries_at("_lexiconLibrary"@);
            let all = term_hits(
                e,
                text::lowercase_text(query@),
                text::opt_str(bounded_context),
                e.len() as int,
            );
            json::views(r@) == first_hits(
                all,
                match limit {
                    Some(n) => n as int,
                    None => 10,
                },
            )
        }),
{
    let most: usize = match limit {
        Some(n) => n,
        None => 10,
    };
    let q = query.to_lowercase();
    let ghost ctx = text::opt_str(bounded_context);
    let mut out: Vec<Value> = Vec::new();
    assert(json::views(out@) =~= Seq::empty());
    if let Some(lib) = def.object_at("_lexiconLibrary") {
        let ghost e = json::entries(lib@);
        let mut i: usize = 0;
        while i < lib.len()
            invariant
                i <= lib.len(),
                e == json::entries(lib@),
                ctx == text::opt_str(bounded_context),
                json::views(out@) == first_hits(
                    term_hits(e, q@, ctx, i as int),
                    most as int,
                ),
            decreases lib.len() - i,
        {
            let term = lib[i].0.as_str();
            let entry = &lib[i].1;
            assert(e[i as int] == (lib@[i as int].0@, lib@[i as int].1@));
            let ghost before = term_hits(e, q@, ctx, i as int);
            if is_in_context(entry, bounded_context) {
                let low = term.to_lowercase();
                let matches = text::contains_text(low.as_str(), q.as_str()) || match entry.str_at(
                    "definition_short",
                ) {
                    Some(d) => {
                        let dl = d.to_lowercase();
                        text::contains_text(dl.as_str(), q.as_str())
                    },
                    None => false,
                };
                if matches {
                    if out.len() < most {
                        let h = entry.dup().and("term", Value::text(term));
                        proof {
                            json::lemma_views_push(out@, h);
                            assert(json::views(out@).len() == out@.len());
                        }
                        out.push(h);
                    } else {
                        proof {
                            assert(json::views(out@).len() == out@.len());
                            let x = entry@.with("term"@, Json::String(term@));
                            assert(first_hits(before.push(x), most as int) =~= first_hits(
                                before,
                                most as int,
                            ));
                        }
                    }
                }
            }
            i = i + 1;
        }
    }
    out
}

// ---------------------------------------------------------------------------
// Governance
// ---------------------------------------------------------------------------

/// Who may define a term.
pub open spec fn governance(def: Json, term: Seq<char>) -> Seq<char> {
    match json::find(def.entries_at("_lexiconLibrary"@), term) {
        Some(entry) => match entry.str_at("governance"@) {
            Some(g) => g,
            None => DEFAULT_GOVERNANCE@,
        },
        None => DEFAULT_GOVERNANCE@,
    }
}

/// Who may define a term.
pub fn governance_for(def: &Value, term: &str) -> (r: String)
    ensures
        r@ == governance(def@, term@),
{
    if let Some(lib) = def.object_at("_lexiconLibrary") {
        if let Some(entry) = json::lookup(lib, term) {
            if let Some(g) = entry.str_at("governance") {
                return g.to_owned();
            }
        }
    }
    DEFAULT_GOVERNANCE.to_owned()
}

/// A human may define every term; an agent only a term whose governance says so.
pub open spec fn may_define(def: Json, term: Seq<char>, actor_is_human: bool) -> bool {
    actor_is_human || governance(def, term) == "agent-may-propose"@
}

/// Whether a term may be defined by the actor.
pub fn define_allowed(def: &Value, term: &str, actor_is_human: bool) -> (r: Result<(), String>)
    ensures
        r is Ok == may_define(def@, term@, actor_is_human),
        r matches Err(m) ==> m@ == "LEXICON_DEFINE_REQUIRES_HUMAN: term '"@ + term@
            + "' has governance '"@ + governance(def@, term@)
            + "'; an agent attempted to define it. Route through an actor: human transition to commit."@,
{
    if actor_is_human {
        return Ok(());
    }
    let g = governance_for(def, term);
    if text::str_eq(g.as_str(), "agent-may-propose") {
        Ok(())
    } else {
        Err(
            text::join5(
                "LEXICON_DEFINE_REQUIRES_HUMAN: term '",
                term,
                "' has governance '",
                g.as_str(),
                "'; an agent attempted to define it. Route through an actor: human transition to commit.",
            ),
        )
    }
}

/// An agent cannot define a term that the lexicon does not have, or that says nothing
/// of its governance.
pub proof fn law_agents_do_not_define_by_default(def: Json, term: Seq<char>)
    requires
        json::find(def.entries_at("_lexiconLibrary"@), term) matches Some(entry)
            ==> entry.str_at("governance"@) is None,
    ensures
        !may_define(def, term, false),
        may_define(def, term, true),
{
    reveal_strlit("human-only");
    reveal_strlit("agent-may-propose");
    assert("human-only"@.len() != "agent-may-propose"@.len());
}

/// The texts as values.
pub open spec fn text_values(s: Seq<Seq<char>>) -> Seq<Json> {
    Seq::new(s.len(), |i: int| Json::String(s[i]))
}

/// The entry that is built of its parts.
pub open spec fn built(
    definition: Seq<char>,
    ctx: Option<Seq<char>>,
    refs: Option<Seq<Seq<char>>>,
    governance: Seq<char>,
) -> Json {
    let a = Json::empty().with("definition_short"@, Json::String(definition));
    let b = match ctx {
        Some(c) => a.with("bounded_context"@, Json::String(c)),
        None => a,
    };
    let c = match refs {
        Some(s) => b.with("refs"@, Json::Array(text_values(s))),
        None => b,
    };
    c.with("governance"@, Json::String(governance))
}

/// Texts are texts.
proof fn lemma_texts_are_texts(s: Seq<Seq<char>>, i: int)
    requires
        0 <= i,
    ensures
        first_non_text(text_values(s), i) is None,
    decreases s.len() - i,
{
    if i < s.len() {
        lemma_texts_are_texts(s, i + 1);
    }
}

/// An entry built of a definition that says something and a known governance is
/// without fault.
pub proof fn law_built_entry_is_valid(
    term: Seq<char>,
    definition: Seq<char>,
    ctx: Option<Seq<char>>,
    refs: Option<Seq<Seq<char>>>,
    governance: Seq<char>,
)
    requires
        text::trimmed(definition).len() > 0,
        known_governance(governance),
    ensures
        entry_fault()(term, built(definition, ctx, refs, governance)) is None,
{
    let d = Json::String(definition);
    let g = Json::String(governance);
    let a = Json::empty().with("definition_short"@, d);
    let b = match ctx {
        Some(c) => a.with("bounded_context"@, Json::String(c)),
        None => a,
    };
    let c = match refs {
        Some(s) => b.with("refs"@, Json::Array(text_values(s))),
        None => b,
    };
    let v = c.with("governance"@, g);
    reveal_strlit("definition_short");
    reveal_strlit("bounded_context");
    reveal_strlit("refs");
    reveal_strlit("governance");
    assert("definition_short"@.len() == 16);
    assert("bounded_context"@.len() == 15);
    assert("refs"@.len() == 4);
    assert("governance"@.len() == 10);
    json::law_get_with(Json::empty(), "definition_short"@, d, "definition_short"@);
    json::law_get_with(Json::empty(), "definition_short"@, d, "refs"@);
    assert(Json::empty().get("refs"@) is None) by {
        reveal(Json::get);
    }
    if let Some(x) = ctx {
        json::law_get_with(a, "bounded_context"@, Json::String(x), "definition_short"@);
        json::law_get_with(a, "bounded_context"@, Json::String(x), "refs"@);
    }
    if let Some(s) = refs {
        json::law_get_with(b, "refs"@, Json::Array(text_values(s)), "definition_short"@);
        json::law_get_with(b, "refs"@, Json::Array(text_values(s)), "refs"@);
        lemma_texts_are_texts(s, 0);
    }
    json::law_get_with(c, "governance"@, g, "definition_short"@);
    json::law_get_with(c, "governance"@, g, "refs"@);
    json::law_get_with(c, "governance"@, g, "governance"@);
    assert(v == built(definition, ctx, refs, governance));
}

fn text_list(s: &Vec<String>) -> (r: Value)
    ensures
        r@ == Json::Array(text_values(text::texts(s@))),
{
    let ghost all = text_values(text::texts(s@));
    let mut out: Vec<Value> = Vec::new();
    let mut i: usize = 0;
    assert(json::views(out@) =~= all.take(0));
    while i < s.len()
        invariant
            i <= s.len(),
            all == text_values(text::texts(s@)),
            json::views(out@) == all.take(i as int),
        decreases s.len() - i,
    {
        let v = Value::text(s[i].as_str());
        proof {
            json::lemma_views_push(out@, v);
            assert(all.take(i + 1) =~= all.take(i as int).push(all[i as int]));
        }
        out.push(v);
        i = i + 1;
    }
    assert(all.take(i as int) =~= all);
    Value::Array(out)
}

/// The texts of an optional list.
pub open spec fn opt_texts(o: Option<&Vec<String>>) -> Option<Seq<Seq<char>>> {
    match o {
        Some(v) => Some(text::texts(v@)),
        None => None,
    }
}

/// Builds an entry of its parts.
pub fn build_entry(
    definition_short: &str,
    bounded_context: Option<&str>,
    refs: Option<&Vec<String>>,
    governance: Option<&str>,
) -> (r: Result<Value, String>)
    ensures
        ({
            let g = match governance {
                Some(g) => g@,
                None => DEFAULT_GOVERNANCE@,
            };
            match r {
                Ok(v) => text::trimmed(definition_short@).len() > 0 && known_governance(g) && v@
                    == built(
                    definition_short@,
                    text::opt_str(bounded_context),
                    opt_texts(refs),
                    g,
                ),
                Err(m) => if text::trimmed(definition_short@).len() == 0 {
                    m@ == "INVALID_LEXICON_ENTRY: definition must be non-empty"@
                } else {
                    !known_governance(g) && m@
                        == "INVALID_LEXICON_ENTRY: governance must be `human-only` or `agent-may-propose`; got '"@
                        + g + "'"@
                },
            }
        }),
{
    let t = text::trim(definition_short);
    if t.as_str().unicode_len() == 0 {
        return Err("INVALID_LEXICON_ENTRY: definition must be non-empty".to_owned());
    }
    let a = Value::object().and("definition_short", Value::text(definition_short));
    let b = match bounded_context {
        Some(c) => a.and("bounded_context", Value::text(c)),
        None => a,
    };
    let c = match refs {
        Some(s) => b.and("refs", text_list(s)),
        None => b,
    };
    let g = match governance {
        Some(g) => g,
        None => DEFAULT_GOVERNANCE,
    };
    if !is_known_governance(g) {
        return Err(
            text::join3(
                "INVALID_LEXICON_ENTRY: governance must be `human-only` or `agent-may-propose`; got '",
                g,
                "'",
            ),
        );
    }
    Ok(c.and("governance", Value::text(g)))
}

} // verus!
