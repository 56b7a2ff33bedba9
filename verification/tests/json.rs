use mcp_flowgate_core::json::{list1, list3, unescape, Number, Value};
use mcp_flowgate_core::runtime_links::pointer_escape;
use mcp_flowgate_core::text::{
    contains_text, decimal_of, parse_index, replace_text, split_on, split_once, str_lt,
    strip_prefix, trim,
};

fn from_serde(v: &serde_json::Value) -> Value {
    match v {
        serde_json::Value::Null => Value::Null,
        serde_json::Value::Bool(b) => Value::Bool(*b),
        serde_json::Value::Number(n) => {
            if let Some(u) = n.as_u64() {
                Value::Number(Number::PosInt(u))
            } else if let Some(i) = n.as_i64() {
                Value::Number(Number::NegInt(i))
            } else {
                Value::Number(Number::Float(n.as_f64().unwrap().to_bits()))
            }
        }
        serde_json::Value::String(s) => Value::String(s.clone()),
        serde_json::Value::Array(a) => Value::Array(a.iter().map(from_serde).collect()),
        serde_json::Value::Object(m) => {
            let mut out = Value::object();
            for (k, x) in m {
                out.set(k, from_serde(x));
            }
            out
        }
    }
}

fn j(text: &str) -> Value {
    from_serde(&serde_json::from_str(text).unwrap())
}

#[test]
fn keys_are_written_and_read() {
    let mut v = Value::object();
    v.set("b", Value::uint(2));
    v.set("a", Value::uint(1));
    assert_eq!(v.get("a"), Some(&Value::uint(1)));
    v.set("a", Value::uint(3));
    assert_eq!(v.u64_at("a"), Some(3));
    assert_eq!(v.u64_at("b"), Some(2));
    let order: Vec<String> = v.as_object().unwrap().iter().map(|e| e.0.clone()).collect();
    assert_eq!(order, vec!["a".to_string(), "b".to_string()]);
    v.unset("a");
    assert!(!v.has("a"));
    assert!(v.has("b"));
    let mut text = Value::text("x");
    text.set("a", Value::Null);
    assert_eq!(text, Value::text("x"));
}

#[test]
fn values_are_copied_and_compared() {
    let v = j(r#"{ "a": [1, -2, 1.5, "s", null, true] }"#);
    assert!(v.same(&v.dup()));
    assert!(!v.same(&j(r#"{ "a": [] }"#)));
    assert!(!Value::uint(1).same(&Value::Number(Number::Float(1f64.to_bits()))));
    assert_eq!(list1(Value::Null), j("[null]"));
    assert_eq!(list3(Value::uint(1), Value::uint(2), Value::uint(3)), j("[1, 2, 3]"));
}

#[test]
fn pointers_are_followed() {
    let v = j(r#"{ "a/b": { "c~d": [10, 20] } }"#);
    assert_eq!(v.pointer("/a~1b/c~0d/1"), Some(&Value::uint(20)));
    assert_eq!(v.pointer("/a~1b/c~0d/01"), None);
    assert_eq!(v.pointer("/a~1b/c~0d/2"), None);
    assert_eq!(v.pointer(""), Some(&v));
    assert_eq!(v.pointer("a"), None);
    assert_eq!(v.step("a/b").unwrap().step("c~d").unwrap().step("0"), Some(&Value::uint(10)));
}

#[test]
fn tokens_are_read_back() {
    for s in ["a/b~c", "~1", "~01", "", "//~~"] {
        assert_eq!(unescape(&pointer_escape(s)), s);
        assert!(!pointer_escape(s).contains('/'));
    }
    assert_eq!(pointer_escape("a/b~c"), "a~1b~0c");
}

#[test]
fn texts_are_taken_apart() {
    assert_eq!(split_on("a..b", '.'), vec!["a".to_string(), String::new(), "b".to_string()]);
    assert_eq!(split_once("a/b/c", '/'), Some(("a".to_string(), "b/c".to_string())));
    assert_eq!(split_once("abc", '/'), None);
    assert_eq!(trim(" \u{3000}a b\n"), "a b");
    assert_eq!(replace_text("aaa", "aa", "b"), "ba");
    assert!(contains_text("abc", "bc"));
    assert!(contains_text("abc", ""));
    assert!(str_lt("a", "b") && str_lt("a", "aa") && !str_lt("b", "a") && !str_lt("a", "a"));
    assert_eq!(strip_prefix("$.context.x", "$.context."), Some("x"));
    assert_eq!(strip_prefix("x", "$"), None);
    assert_eq!(decimal_of(0), "0");
    assert_eq!(decimal_of(u64::MAX), u64::MAX.to_string());
    assert_eq!(parse_index("12"), Some(12));
    assert_eq!(parse_index("012"), None);
    assert_eq!(parse_index("+1"), None);
    assert_eq!(parse_index(""), None);
    assert_eq!(parse_index("99999999999999999999999"), None);
}
