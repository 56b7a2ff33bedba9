use mcp_flowgate_core::guards::{
    compare_values, evaluate, evidence_satisfied, find_op_outside_quotes, parse_binary_expr,
    parse_evidence_requirement, path_to_pointer, resolve_operand, Answer, GuardError, Literal,
    NumericRelation, Operator, Order, Question, UnsetSlotError, Verdict,
};
use mcp_flowgate_core::json::{Number, Value};
use mcp_flowgate_core::mapping::{
    concat_value, merge_output, plain_text_of, plan_output, read_expr, read_in_scopes,
    resolve_value, ArithOp, Resolved,
};
use mcp_flowgate_core::model::{Evidence, Principal};

fn from_serde(v: &serde_json::Value) -> Value {
    match v {
        serde_json::Value::Null => Value::Null,
        serde_json::Value::Bool(b) => Value::Bool(*b),
        serde_json::Value::Number(n) => {
            if let Some(u) = n.as_u64() {
                Value::Number(Number::PosInt(u))
            } else if let Some(i) = n.as_i64() {
                Value::Number(Number::NegInt(i))
            } else {
                Value::Number(Number::Float(n.as_f64().unwrap().to_bits()))
            }
        }
        serde_json::Value::String(s) => Value::String(s.clone()),
        serde_json::Value::Array(a) => Value::Array(a.iter().map(from_serde).collect()),
        serde_json::Value::Object(m) => {
            let mut out = Value::object();
            for (k, x) in m {
                out.set(k, from_serde(x));
            }
            out
        }
    }
}

fn j(text: &str) -> Value {
    from_serde(&serde_json::from_str(text).unwrap())
}

fn literal(s: &str) -> Literal {
    match s.trim().parse::<f64>() {
        Ok(n) if n.is_finite() => Literal::Finite(n.to_bits()),
        Ok(_) => Literal::NonFinite,
        Err(_) => Literal::NotNumber,
    }
}

fn number(v: &Value) -> f64 {
    match v {
        Value::Number(Number::PosInt(n)) => *n as f64,
        Value::Number(Number::NegInt(n)) => *n as f64,
        Value::Number(Number::Float(b)) => f64::from_bits(*b),
        _ => panic!("no number"),
    }
}

fn relation(a: &Value, b: &Value) -> NumericRelation {
    let (x, y) = (number(a), number(b));
    let order = if x < y {
        Order::Less
    } else if x > y {
        Order::Greater
    } else {
        Order::Equal
    };
    NumericRelation { order, close: (x - y).abs() < f64::EPSILON }
}

fn judged(guard: &str, context: &str, principal: &Principal, kept: Option<Vec<Evidence>>) -> Verdict {
    let guard = j(guard);
    let context = j(context);
    let none = Value::object();
    let mut answers: Vec<Answer> = Vec::new();
    loop {
        match evaluate(&guard, &context, &none, &none, principal, &answers, 0).0 {
            Verdict::Ask(Question::Literals { left, right }) => answers.push(Answer::Literals {
                left: literal(&left),
                right: literal(&right),
            }),
            Verdict::Ask(Question::Relation(a, b)) => {
                answers.push(Answer::Relation(relation(&a, &b)))
            }
            Verdict::Ask(Question::Evidence) => answers.push(match &kept {
                Some(list) => Answer::Evidence(list.iter().map(|e| e.dup()).collect()),
                None => Answer::NoEvidenceStore,
            }),
            done => return done,
        }
    }
}

fn passes(guard: &str, context: &str) -> bool {
    match judged(guard, context, &Principal::anonymous(), None) {
        Verdict::Pass(b) => b,
        other => panic!("{other:?}"),
    }
}

fn expr(e: &str, context: &str) -> bool {
    passes(&format!(r#"{{ "kind": "expr", "expr": "{e}" }}"#), context)
}

#[test]
fn expressions_compare_numbers_texts_and_null() {
    assert!(expr("$.context.n >= 3", r#"{ "n": 3 }"#));
    assert!(!expr("$.context.n < 3", r#"{ "n": 3.5 }"#));
    assert!(expr("$.context.n == 3.0", r#"{ "n": 3 }"#));
    assert!(expr("$.context.s == 'a < b'", r#"{ "s": "a < b" }"#));
    assert!(expr("$.context.s starts_with 'ab'", r#"{ "s": "abc" }"#));
    assert!(expr("$.context.s contains 'bc'", r#"{ "s": "abc" }"#));
    assert!(expr("$.context.s == null", r#"{ "s": null }"#));
    assert!(expr("$.arguments.absent == null", "{}"));
    assert!(expr("$.context.l[0].x != 2", r#"{ "l": [ { "x": 1 } ] }"#));
    assert!(!expr("$.context.s < 'b'", r#"{ "s": "a" }"#));
    assert!(!expr("nonsense", "{}"));
    assert!(expr("true == true", "{}"));
}

#[test]
fn an_unset_slot_is_named() {
    match judged(
        r#"{ "kind": "expr", "expr": "1 == $.context.x" }"#,
        "{}",
        &Principal::anonymous(),
        None,
    ) {
        Verdict::Failed(GuardError::UnsetSlot(p)) => assert_eq!(p, "$.context.x"),
        other => panic!("{other:?}"),
    }
    assert_eq!(
        UnsetSlotError { path: "$.context.x".into() }.message(),
        "GUARD_UNSET_SLOT: guard reads `$.context.x` which is not set on the workflow context"
    );
}

#[test]
fn groups_of_guards_are_judged() {
    let yes = r#"{ "kind": "expr", "expr": "1 == 1" }"#;
    let no = r#"{ "kind": "expr", "expr": "1 == 2" }"#;
    let unset = r#"{ "kind": "expr", "expr": "$.context.x == 1" }"#;
    let group = |kind: &str, a: &str, b: &str| {
        format!(r#"{{ "kind": "{kind}", "guards": [{a}, {b}] }}"#)
    };
    assert!(passes(&group("all_of", yes, yes), "{}"));
    assert!(!passes(&group("all_of", yes, no), "{}"));
    assert!(passes(&group("any_of", no, yes), "{}"));
    assert!(!passes(&group("any_of", no, no), "{}"));
    assert!(passes(&group("any_of", unset, yes), "{}"));
    assert!(!passes(&group("all_of", no, unset), "{}"));
    let p = Principal::anonymous();
    assert!(matches!(
        judged(&group("any_of", unset, no), "{}", &p, None),
        Verdict::Failed(GuardError::UnsetSlot(_))
    ));
    assert!(passes(r#"{ "kind": "all_of", "guards": [] }"#, "{}"));
    assert!(!passes(r#"{ "kind": "any_of", "guards": [] }"#, "{}"));
    assert!(passes(&format!(r#"{{ "kind": "not", "guard": {no} }}"#), "{}"));
    assert!(matches!(
        judged(r#"{ "kind": "not" }"#, "{}", &p, None),
        Verdict::Failed(GuardError::Malformed(_))
    ));
    assert!(!passes(r#"{ "kind": "unknown" }"#, "{}"));
}

#[test]
fn roles_and_permissions_are_those_of_the_principal() {
    let p = Principal {
        subject: "u".into(),
        roles: vec!["admin".into()],
        permissions: vec!["deploy".into()],
    };
    let pass = |g: &str| matches!(judged(g, "{}", &p, None), Verdict::Pass(true));
    assert!(pass(r#"{ "kind": "role", "role": "admin" }"#));
    assert!(!pass(r#"{ "kind": "role", "role": "other" }"#));
    assert!(pass(r#"{ "kind": "permission", "permission": "deploy" }"#));
    assert!(!pass(r#"{ "kind": "permission", "permission": "admin" }"#));
}

fn evidence(kind: &str) -> Evidence {
    Evidence {
        kind: kind.into(),
        id: "1".into(),
        uri: None,
        summary: None,
        digest: None,
        confidence: None,
    }
}

#[test]
fn evidence_is_counted() {
    let g = r#"{ "kind": "evidence", "requires": ["review", { "kind": "vote", "count": 2 }] }"#;
    let p = Principal::anonymous();
    let pass = |e: Vec<Evidence>| matches!(judged(g, "{}", &p, Some(e)), Verdict::Pass(true));
    assert!(pass(vec![evidence("vote"), evidence("review"), evidence("vote")]));
    assert!(!pass(vec![evidence("review"), evidence("vote")]));
    assert!(passes(g, "{}"));
    assert_eq!(parse_evidence_requirement(&j(r#"{ "kind": "a" }"#)), Some(("a".into(), 1)));
    assert_eq!(parse_evidence_requirement(&j("3")), None);
    assert!(evidence_satisfied(&vec![j("3")], &vec![]));
    match evaluate(
        &j(g),
        &j("{}"),
        &j("{}"),
        &j("{}"),
        &p,
        &vec![Answer::EvidenceUnavailable("down".into())],
        0,
    )
    .0
    {
        Verdict::Failed(GuardError::Unavailable(m)) => assert_eq!(m, "down"),
        other => panic!("{other:?}"),
    }
}

#[test]
fn expressions_are_split_outside_quotes() {
    let p = |s: &str| parse_binary_expr(s).map(|(l, o, r)| (l, o.token(), r));
    assert_eq!(p("a <= b"), Some(("a".into(), "<=", "b".into())));
    assert_eq!(p("'x == y' != z"), Some(("'x == y'".into(), "!=", "z".into())));
    assert_eq!(p("a b"), None);
    assert_eq!(find_op_outside_quotes("\"<\" < 1", "<"), Some(4));
    assert_eq!(find_op_outside_quotes("'<'", "<"), None);
    assert_eq!(find_op_outside_quotes("é<", "<"), Some(2));
    assert_eq!(find_op_outside_quotes("'é<' €< x", "<"), Some(9));
    assert_eq!(p("é <= €"), Some(("é".into(), "<=", "€".into())));
    assert_eq!(path_to_pointer("items[0].name"), "/items/0/name");
    assert_eq!(path_to_pointer("items.0.name"), "/items/0/name");
}

#[test]
fn operands_denote_values() {
    let none = Value::object();
    let at = |s: &str| resolve_operand(s, literal(s), &j(r#"{ "a": null }"#), &none, &none);
    assert_eq!(at(" 'q' ").unwrap(), Value::text("q"));
    assert_eq!(at("\"").unwrap(), Value::Null);
    assert_eq!(at("true").unwrap(), Value::Bool(true));
    assert_eq!(at("$.context.a").unwrap(), Value::Null);
    assert!(at("$.context.b").is_err());
    assert_eq!(at("inf").unwrap(), Value::Null);
    assert_eq!(at("2").unwrap(), Value::Number(Number::Float(2f64.to_bits())));
}

#[test]
fn relations_of_numbers_decide() {
    let a = Value::uint(1);
    let less = NumericRelation { order: Order::Less, close: false };
    assert!(compare_values(&a, Operator::Less, &Value::uint(2), less));
    assert!(compare_values(&a, Operator::LessEqual, &Value::uint(2), less));
    assert!(compare_values(&a, Operator::NotEqual, &Value::uint(2), less));
    assert!(!compare_values(&a, Operator::Greater, &Value::uint(2), less));
    assert!(!compare_values(&a, Operator::Contains, &Value::uint(2), less));
    assert!(!compare_values(&a, Operator::Equal, &Value::text("1"), less));
    let zero = Value::Array(vec![Value::Number(Number::Float(0.0_f64.to_bits()))]);
    let minus = Value::Array(vec![Value::Number(Number::Float((-0.0_f64).to_bits()))]);
    assert!(compare_values(&zero, Operator::Equal, &minus, less));
    assert!(!compare_values(&zero, Operator::Equal, &j("[0]"), less));
    assert!(compare_values(&j(r#"{"a":[1]}"#), Operator::Equal, &j(r#"{"a":[1]}"#), less));
    assert!(compare_values(&j(r#"{"a":[1]}"#), Operator::NotEqual, &j(r#"{"a":[2]}"#), less));
}

#[test]
fn paths_are_read_in_their_scopes() {
    let args = j(r#"{ "a": { "b": 1 } }"#);
    let ctx = j(r#"{ "c": [ 7, 8 ] }"#);
    let input = j(r#"{ "i": "in" }"#);
    let out = j(r#"{ "o": true }"#);
    let read = |e: &str| read_in_scopes(e, &args, &ctx, &input, Some(&out));
    assert_eq!(read("$.arguments.a.b"), Some(Value::uint(1)));
    assert_eq!(read("$.context.c.1"), Some(Value::uint(8)));
    assert_eq!(read("$.workflow.input.i"), Some(Value::text("in")));
    assert_eq!(read("$.output.o"), Some(Value::Bool(true)));
    assert_eq!(read("$"), Some(out.dup()));
    assert_eq!(read("$.other"), None);
    assert_eq!(read_in_scopes("$.output", &args, &ctx, &input, None), None);
    assert_eq!(read_expr(&out, "$.output.o"), Some(Value::Bool(true)));
    assert_eq!(read_expr(&out, "$.context.c"), None);
}

#[test]
fn mapping_values_are_resolved() {
    let ctx = j(r#"{ "n": 2 }"#);
    let none = Value::object();
    let at = |s: &str| resolve_value(&j(s), &none, &ctx, &none, &none);
    assert!(matches!(at(r#""main""#), Resolved::Value(Value::String(s)) if s == "main"));
    assert!(matches!(at(r#""$.context.x""#), Resolved::Value(Value::Null)));
    assert!(matches!(at(r#"{ "set": "$.context.n" }"#), Resolved::Value(Value::String(s)) if s == "$.context.n"));
    assert!(matches!(
        at(r#"{ "add": ["$.context.n", "$.context.missing"] }"#),
        Resolved::Value(Value::Number(Number::PosInt(2)))
    ));
    match at(r#"{ "divide": ["$.context.n", 4] }"#) {
        Resolved::Arithmetic { op: ArithOp::Divide, left, right } => {
            assert_eq!(left, Number::PosInt(2));
            assert_eq!(right, Number::PosInt(4));
        }
        other => panic!("{other:?}"),
    }
    assert!(matches!(at(r#"{ "add": [1] }"#), Resolved::Value(Value::Null)));
    assert!(matches!(at(r#"{ "add": [1, true] }"#), Resolved::Value(Value::Null)));
    assert!(matches!(at(r#"{ "concat": 1 }"#), Resolved::Value(Value::Null)));
    assert!(matches!(
        at(r#"{ "concat": ["a", "$.context.n", true] }"#),
        Resolved::Value(Value::String(s)) if s == "a2true"
    ));
    match at(r#"{ "concat": ["a", { "divide": [1, 3] }] }"#) {
        Resolved::Concat(parts) => assert_eq!(parts.len(), 2),
        other => panic!("{other:?}"),
    }
    assert!(matches!(at(r#"{ "other": 1 }"#), Resolved::Value(Value::Object(_))));
    assert_eq!(plain_text_of(&Value::text("t")).as_deref(), Some("t"));
    assert_eq!(plain_text_of(&Value::Null).as_deref(), Some("null"));
    assert_eq!(plain_text_of(&Value::Bool(true)).as_deref(), Some("true"));
    assert_eq!(concat_value(&vec!["a".into(), "b".into()]), Value::text("ab"));
}

#[test]
fn outputs_are_written_to_the_context() {
    let none = Value::object();
    let mapping = j(r#"{ "x": "$.output.v", "y": "$.context.a" }"#);
    let planned =
        plan_output(&j(r#"{ "a": 1 }"#), Some(&mapping), &none, &none, &j(r#"{ "v": 5 }"#)).unwrap();
    let values = planned
        .into_iter()
        .map(|(k, r)| match r {
            Resolved::Value(v) => (k, v),
            other => panic!("{other:?}"),
        })
        .collect();
    let mut ctx = j(r#"{ "a": 1 }"#);
    merge_output(&mut ctx, Some(values)).unwrap();
    assert_eq!(ctx, j(r#"{ "a": 1, "x": 5, "y": 1 }"#));
    assert!(plan_output(&ctx, None, &none, &none, &none).is_none());
    let mut scalar = Value::uint(1);
    assert!(merge_output(&mut scalar, Some(vec![])).is_err());
    assert!(merge_output(&mut scalar, None).is_ok());
}
