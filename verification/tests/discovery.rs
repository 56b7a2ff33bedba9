use mcp_flowgate_core::discovery::{
    blessed_subject_roots, default_home, match_doc, match_field, tokenize, trigram_similarity,
    trigrams, DiscoveryItem, DiscoveryKind, FieldMatch, InMemoryDiscoveryIndex, Lifecycle,
    ScriptVerb, SearchRequest, Verb, BLESSED_SUBJECT_ROOTS,
};
use mcp_flowgate_core::json::{Number, Value};
use mcp_flowgate_core::lexicon::{
    build_combined_index, build_entry, define_allowed, governance_for, lookup_term, search_terms,
    stamp_lexicon_library, validate_lexicon, DEFAULT_GOVERNANCE,
};
use mcp_flowgate_core::lexicon_candidates::{
    candidates_to_json, levenshtein, rank_candidates, rank_candidates_from_definition, MatchKind,
};
use mcp_flowgate_core::proxy_workflow::{
    compile_proxy_workflow, compile_proxy_workflow_from_registry, DEFAULT_PROXY_STATE,
};

fn from_serde(v: &serde_json::Value) -> Value {
    match v {
        serde_json::Value::Null => Value::Null,
        serde_json::Value::Bool(b) => Value::Bool(*b),
        serde_json::Value::Number(n) => {
            if let Some(u) = n.as_u64() {
                Value::Number(Number::PosInt(u))
            } else if let Some(i) = n.as_i64() {
                Value::Number(Number::NegInt(i))
            } else {
                Value::Number(Number::Float(n.as_f64().unwrap().to_bits()))
            }
        }
        serde_json::Value::String(s) => Value::String(s.clone()),
        serde_json::Value::Array(a) => Value::Array(a.iter().map(from_serde).collect()),
        serde_json::Value::Object(m) => {
            let mut out = Value::object();
            for (k, x) in m {
                out.set(k, from_serde(x));
            }
            out
        }
    }
}

fn j(text: &str) -> Value {
    from_serde(&serde_json::from_str(text).unwrap())
}

fn item(id: &str, kind: DiscoveryKind, title: &str) -> DiscoveryItem {
    DiscoveryItem {
        id: id.into(),
        kind,
        title: title.into(),
        description: String::new(),
        tags: vec!["Alpha".into(), "Beta".into()],
        examples: vec![],
        aliases: vec![],
        text: String::new(),
        links: vec![],
        verb: None,
        body: None,
        source: None,
    }
}

#[test]
fn tokens_round_trip() {
    for t in Verb::ALL_TOKENS {
        assert_eq!(Verb::from_token(t).unwrap().as_token(), t);
    }
    for t in ScriptVerb::ALL_TOKENS {
        assert_eq!(ScriptVerb::from_token(t).unwrap().as_token(), t);
    }
    for t in Lifecycle::ALL_TOKENS {
        assert_eq!(Lifecycle::from_token(t).unwrap().as_token(), t);
    }
    assert!(Verb::from_token("dance").is_none());
    assert!(ScriptVerb::from_token("plan").is_none());
    assert!(Lifecycle::from_token("Stable").is_none());
    assert_eq!(DiscoveryKind::Guidance.as_str(), "guidance");
    assert_eq!(blessed_subject_roots().len(), BLESSED_SUBJECT_ROOTS.len());
}

#[test]
fn queries_are_cut_into_words() {
    assert_eq!(tokenize("Deploy-PROD, now!"), vec!["deploy", "prod", "now"]);
    assert_eq!(tokenize("  "), Vec::<String>::new());
    assert_eq!(tokenize("ÄRGER"), vec!["ärger"]);
}

#[test]
fn similarity_is_that_of_trigrams() {
    assert_eq!(trigrams("ab"), vec![]);
    assert_eq!(trigrams("abcabc").len(), 3);
    assert_eq!(trigram_similarity("night", "nacht"), (0, 6));
    assert_eq!(trigram_similarity("deploy", "deploys"), (4, 5));
    assert_eq!(trigram_similarity("ab", "cd"), (1, 1));
    assert_eq!(trigram_similarity("ab", "abc"), (0, 1));
}

#[test]
fn fields_match_terms() {
    assert!(matches!(match_field("deploy to prod", "ploy"), FieldMatch::Contains));
    assert!(matches!(match_field("x", "y"), FieldMatch::Nothing));
    match match_field("deploys now", "deploit") {
        FieldMatch::Similar(s) => assert_eq!(s.len(), 2),
        other => panic!("{other:?}"),
    }
    assert!(matches!(match_field("dep", "xyz"), FieldMatch::Nothing));
    let m = match_doc(&item("Deploy.X", DiscoveryKind::Workflow, "Ship It"), &vec!["ship".into(), "beta".into()]);
    assert_eq!(m.len(), 2);
    assert!(matches!(m[0].title, FieldMatch::Contains));
    assert!(!matches!(m[0].id, FieldMatch::Contains));
    assert!(matches!(m[1].tags, FieldMatch::Contains));
}

#[test]
fn searching_ranks_and_cuts() {
    let mut index = InMemoryDiscoveryIndex::new(vec![
        item("b", DiscoveryKind::Workflow, "B"),
        item("a", DiscoveryKind::Capability, "A"),
        item("g", DiscoveryKind::Guidance, "G"),
    ]);
    assert_eq!(index.len(), 3);
    let ids = |hits: Vec<mcp_flowgate_core::discovery::SearchHit>| -> Vec<String> {
        hits.iter().map(|h| h.item.id.clone()).collect()
    };
    let all = SearchRequest { query: "".into(), kind: None, limit: 0 };
    let hits = index.search(&all, &vec![0, 0, 0]);
    assert!(hits.iter().all(|h| h.score == 1f32.to_bits()));
    assert_eq!(ids(hits), vec!["a", "b"]);
    let some = SearchRequest { query: "x".into(), kind: None, limit: 5 };
    let scores = vec![6f32.to_bits(), 2.5f32.to_bits(), 9f32.to_bits()];
    assert_eq!(ids(index.search(&some, &scores)), vec!["b", "a"]);
    assert_eq!(ids(index.search(&some, &vec![0, 1f32.to_bits(), 0])), vec!["a"]);
    let one = SearchRequest { query: "x".into(), kind: None, limit: 1 };
    assert_eq!(ids(index.search(&one, &scores)), vec!["b"]);
    let guidance = SearchRequest { query: "".into(), kind: Some(DiscoveryKind::Guidance), limit: 0 };
    assert_eq!(ids(index.search(&guidance, &scores)), vec!["g"]);
    assert_eq!(index.describe("g").unwrap().title, "G");
    assert!(index.describe("z").is_none());
    assert_eq!(index.list(None).len(), 2);
    assert_eq!(index.list(Some(DiscoveryKind::Guidance)).len(), 1);
    index.extend(vec![item("z", DiscoveryKind::Workflow, "Z")]);
    assert_eq!(index.len(), 4);
    assert!(InMemoryDiscoveryIndex::default().is_empty());
}

#[test]
fn the_home_page_has_three_links() {
    let h = default_home();
    assert_eq!(h.pointer("/resource/id").and_then(Value::as_str), Some("home"));
    assert_eq!(h.array_at("links").unwrap().len(), 3);
    assert_eq!(h.pointer("/links/2/args/kind").and_then(Value::as_str), Some("capability"));
}

const TERMS: &str = r#"{
    "order": { "definition_short": "What a customer asked for.", "aliases": ["purchase"] },
    "invoice": { "definition_short": "A bill.", "bounded_context": "billing", "governance": "agent-may-propose" },
    "oder": { "definition_short": "x", "state": "PENDING_DEFINITION" }
}"#;

fn stamped() -> Value {
    let c = j(&format!(r#"{{ "lexicon": {TERMS}, "workflows": {{ "w": {{}} }} }}"#));
    stamp_lexicon_library(c).pointer("/workflows/w").unwrap().dup()
}

#[test]
fn terms_are_looked_up() {
    let w = stamped();
    assert!(lookup_term(&w, "order", None).is_some());
    assert!(lookup_term(&w, "order", Some("billing")).is_none());
    assert!(lookup_term(&w, "invoice", Some("billing")).is_some());
    assert!(lookup_term(&w, "none", None).is_none());
    let hits = search_terms(&w, "BILL", None, None);
    assert_eq!(hits.len(), 1);
    assert_eq!(hits[0].str_at("term"), Some("invoice"));
    assert_eq!(search_terms(&w, "", None, Some(1)).len(), 1);
    assert_eq!(search_terms(&w, "", None, Some(0)).len(), 0);
    assert_eq!(search_terms(&w, "", Some("billing"), None).len(), 1);
    assert_eq!(search_terms(&Value::object(), "", None, None).len(), 0);
}

#[test]
fn agents_define_where_they_may() {
    let w = stamped();
    assert_eq!(governance_for(&w, "order"), DEFAULT_GOVERNANCE);
    assert!(define_allowed(&w, "order", true).is_ok());
    assert!(define_allowed(&w, "order", false)
        .unwrap_err()
        .starts_with("LEXICON_DEFINE_REQUIRES_HUMAN"));
    assert!(define_allowed(&w, "invoice", false).is_ok());
    let e = build_entry("A thing.", Some("c"), Some(&vec!["order".into()]), None).unwrap();
    assert_eq!(
        e,
        j(r#"{ "definition_short": "A thing.", "bounded_context": "c", "refs": ["order"], "governance": "human-only" }"#)
    );
    assert!(validate_lexicon(&j(r#"{ "lexicon": {} }"#)).is_ok());
    assert!(build_entry(" ", None, None, None).is_err());
    assert!(build_entry("x", None, None, Some("anyone")).is_err());
}

#[test]
fn faults_of_terms_are_reported() {
    let fault = |e: &str| {
        validate_lexicon(&j(&format!(r#"{{ "lexicon": {{ "t": {e} }} }}"#))).unwrap_err()
    };
    assert!(fault("3").contains("must be an object"));
    assert!(fault("{}").contains("missing the required"));
    assert!(fault(r#"{ "definition_short": " " }"#).contains("has empty"));
    assert!(fault(r#"{ "definition_short": "d", "governance": "g" }"#).contains("unknown `governance"));
    assert!(fault(r#"{ "definition_short": "d", "refs": ["a", 1] }"#).contains("refs[1]"));
    let twice = r#"{ "lexicon": {
        "a": { "definition_short": "d", "aliases": ["x"] },
        "b": { "definition_short": "d", "aliases": ["x"] }
    } }"#;
    assert!(validate_lexicon(&j(twice)).unwrap_err().starts_with("LEXICON_ALIAS_COLLISION"));
    let apart = twice.replacen(r#""definition_short": "d""#, r#""definition_short": "d", "bounded_context": "c""#, 1);
    assert!(validate_lexicon(&j(&apart)).is_ok());
    let forms = build_combined_index(j(TERMS).as_object().unwrap(), "").unwrap();
    let keys: Vec<String> = forms.iter().map(|f| f.key.clone()).collect();
    assert_eq!(keys, vec!["oder", "order", "purchase"]);
}

#[test]
fn distances_count_edits() {
    assert_eq!(levenshtein("kitten", "sitting"), 3);
    assert_eq!(levenshtein("sitting", "kitten"), 3);
    assert_eq!(levenshtein("", "abc"), 3);
    assert_eq!(levenshtein("abc", ""), 3);
    assert_eq!(levenshtein("abc", "abc"), 0);
    assert_eq!(levenshtein("äb", "ab"), 1);
    assert_eq!(levenshtein("", ""), usize::MAX);
}

#[test]
fn candidates_are_ranked() {
    let w = stamped();
    let r = rank_candidates_from_definition("order", &w, None);
    assert_eq!(r.len(), 1);
    assert_eq!(r[0].match_kind, MatchKind::Exact);
    let r = rank_candidates_from_definition("purchase", &w, None);
    assert_eq!((r[0].match_kind, r[0].term.as_str()), (MatchKind::Alias, "order"));
    let r = rank_candidates_from_definition("ordr", &w, None);
    assert_eq!(r[0].match_kind, MatchKind::FuzzyClose);
    assert_eq!(r[0].distance, 1);
    let r = rank_candidates_from_definition("rder2", &w, None);
    assert_eq!(r[0].match_kind, MatchKind::FuzzyLoose);
    assert_eq!(rank_candidates_from_definition("order", &w, Some("billing")).len(), 1);
    assert_eq!(rank_candidates_from_definition("invoice", &w, Some("sales")).len(), 0);
    assert_eq!(rank_candidates_from_definition("order", &Value::object(), None).len(), 0);
    assert_eq!(
        candidates_to_json(&rank_candidates_from_definition("ordr", &w, None)),
        j(r#"[{ "term": "order", "distance": 1.0, "match_kind": "fuzzy_close", "definition_preview": "What a customer asked for." }]"#)
    );
    let many = j(r#"{ "a": {}, "b": {}, "c": {}, "d": {}, "e": {}, "f": {}, "ab": {} }"#);
    let r = rank_candidates("ab", many.as_object().unwrap(), None);
    let terms: Vec<String> = r.iter().map(|c| c.term.clone()).collect();
    assert_eq!(terms, vec!["ab", "a", "b", "c", "d"]);
}

#[test]
fn exposures_become_a_workflow() {
    let c = j(r#"{ "proxy": { "expose": [
        { "name": "echo", "title": "Echo", "executor": { "kind": "noop" } }
    ] } }"#);
    let w = compile_proxy_workflow(&c).unwrap();
    assert_eq!(w.str_at("initialState"), Some(DEFAULT_PROXY_STATE));
    let t = w.pointer("/states/ready/transitions/echo").unwrap();
    assert_eq!(t.str_at("target"), Some("ready"));
    assert!(compile_proxy_workflow(&Value::object()).is_none());
    assert!(compile_proxy_workflow_from_registry(&vec![]).is_none());
    assert!(compile_proxy_workflow_from_registry(&vec![j(r#"{ "name": "x", "executor": {} }"#)]).is_some());
}

#[test]
fn a_term_of_no_context_is_a_candidate_in_every_one() {
    let m = j(r#"{
        "order": { "definition_short": "d", "bounded_context": "" },
        "ordes": { "bounded_context": "sales" },
        "orderx": {}
    }"#);
    let r = rank_candidates("order", m.as_object().unwrap(), Some("billing"));
    let terms: Vec<&str> = r.iter().map(|c| c.term.as_str()).collect();
    assert_eq!(terms, vec!["order", "orderx"]);
    assert_eq!(r[0].match_kind, MatchKind::Exact);
    assert_eq!(r[0].definition_preview, "d");
    let r = rank_candidates("order", m.as_object().unwrap(), Some("sales"));
    assert_eq!(r.len(), 3);
}
