//! Guards: conditions on a transition.
//!
//! A guard is judged by a function of the guard, of what it reads and of a list
//! of answers to the questions that only the caller can answer: how two numbers
//! in double precision compare, which number a literal denotes, which evidence
//! was recorded. Where the answers run out, the verdict is the next question.
use crate::json;
use crate::json::{Json, Value};
use crate::model::{Evidence, EvidenceView, Principal, PrincipalView};
use crate::text;
use vstd::prelude::*;

verus! {

/// A guard read a slot of the context that was never set.
#[derive(Debug)]
pub struct UnsetSlotError {
    pub path: String,
}

impl UnsetSlotError {
    /// What the error says to a reader.
    pub open spec fn message_text(path: Seq<char>) -> Seq<char> {
        "GUARD_UNSET_SLOT: guard reads `"@ + path + "` which is not set on the workflow context"@
    }

    /// What the error says to a reader.
    pub fn message(&self) -> (r: String)
        ensures
            r@ == Self::message_text(self.path@),
    {
        text::join3(
            "GUARD_UNSET_SLOT: guard reads `",
            self.path.as_str(),
            "` which is not set on the workflow context",
        )
    }
}

/// An operator of a guard expression.
#[derive(Debug, Clone, Copy, PartialEq, Eq, Structural)]
pub enum Operator {
    StartsWith,
    Contains,
    LessEqual,
    GreaterEqual,
    Equal,
    NotEqual,
    Less,
    Greater,
}

/// The operators in the order in which an expression is searched for them.
pub open spec fn operator_at(k: int) -> Operator {
    if k == 0 {
        Operator::StartsWith
    } else if k == 1 {
        Operator::Contains
    } else if k == 2 {
        Operator::LessEqual
    } else if k == 3 {
        Operator::GreaterEqual
    } else if k == 4 {
        Operator::Equal
    } else if k == 5 {
        Operator::NotEqual
    } else if k == 6 {
        Operator::Less
    } else {
        Operator::Greater
    }
}

impl Operator {
    /// How the operator is written.
    pub open spec fn token_text(self) -> Seq<char> {
        match self {
            Operator::StartsWith => "starts_with"@,
            Operator::Contains => "contains"@,
            Operator::LessEqual => "<="@,
            Operator::GreaterEqual => ">="@,
            Operator::Equal => "=="@,
            Operator::NotEqual => "!="@,
            Operator::Less => "<"@,
            Operator::Greater => ">"@,
        }
    }

    /// How the operator is written.
    pub fn token(self) -> (r: &'static str)
        ensures
            r@ == self.token_text(),
            r@.len() > 0,
    {
        proof {
            reveal_strlit("starts_with");
            reveal_strlit("contains");
            reveal_strlit("<=");
            reveal_strlit(">=");
            reveal_strlit("==");
            reveal_strlit("!=");
            reveal_strlit("<");
            reveal_strlit(">");
        }
        match self {
            Operator::StartsWith => "starts_with",
            Operator::Contains => "contains",
            Operator::LessEqual => "<=",
            Operator::GreaterEqual => ">=",
            Operator::Equal => "==",
            Operator::NotEqual => "!=",
            Operator::Less => "<",
            Operator::Greater => ">",
        }
    }
}

/// Whether a position of an expression stands inside a quoted region.
#[derive(Clone, Copy, PartialEq, Eq, Structural)]
pub enum Quote {
    Outside,
    Single,
    Double,
}

/// The quoting at position `i`: which quote, if any, was opened before it and
/// not closed.
pub open spec fn quote_at(s: Seq<char>, i: int) -> Quote
    decreases i,
{
    if i <= 0 {
        Quote::Outside
    } else {
        let before = quote_at(s, i - 1);
        let c = s[i - 1];
        if c == '"' && before == Quote::Outside {
            Quote::Double
        } else if c == '"' && before == Quote::Double {
            Quote::Outside
        } else if c == '\'' && before == Quote::Outside {
            Quote::Single
        } else if c == '\'' && before == Quote::Single {
            Quote::Outside
        } else {
            before
        }
    }
}

/// `needle` stands at position `i`, outside quotes and not on a quote.
pub open spec fn stands_outside(s: Seq<char>, needle: Seq<char>, i: int) -> bool {
    text::occurs_at(s, needle, i) && quote_at(s, i) == Quote::Outside && s[i] != '"' && s[i] != '\''
}

/// `i` is the first position at which `needle` stands outside quotes.
pub open spec fn first_outside(s: Seq<char>, needle: Seq<char>, i: int) -> bool {
    stands_outside(s, needle, i) && forall|j: int| 0 <= j < i ==> !stands_outside(s, needle, j)
}

/// The first position at which `needle` stands outside quotes.
pub open spec fn outside_position(s: Seq<char>, needle: Seq<char>) -> Option<int> {
    if exists|i: int| first_outside(s, needle, i) {
        Some(choose|i: int| first_outside(s, needle, i))
    } else {
        None
    }
}

/// The first position at which `needle` stands outside single and double quotes,
/// as a byte index.
pub fn find_op_outside_quotes(haystack: &str, needle: &str) -> (r: Option<usize>)
    requires
        needle@.len() > 0,
    ensures
        match (r, outside_position(haystack@, needle@)) {
            (Some(at), Some(i)) => at == text::byte_index(haystack@, i),
            (None, None) => true,
            _ => false,
        },
{
    let h = text::chars_of(haystack);
    let n = text::chars_of(needle);
    let mut quote = Quote::Outside;
    let mut i: usize = 0;
    while i < h.len() && n.len() <= h.len() - i
        invariant
            i <= h.len(),
            h@ == haystack@,
            n@ == needle@,
            n.len() > 0,
            quote == quote_at(h@, i as int),
            forall|j: int| 0 <= j < i ==> !stands_outside(h@, n@, j),
        decreases h.len() - i,
    {
        let c = h[i];
        if quote == Quote::Outside && c != '"' && c != '\'' && text::match_at(&h, &n, i) {
            proof {
                assert(first_outside(h@, n@, i as int));
                lemma_outside_position(h@, n@, i as int);
            }
            let before = text::string_of_range(&h, 0, i);
            assert(before@ =~= haystack@.take(i as int));
            return Some(before.as_str().as_bytes().len());
        }
        if c == '"' && quote == Quote::Outside {
            quote = Quote::Double;
        } else if c == '"' && quote == Quote::Double {
            quote = Quote::Outside;
        } else if c == '\'' && quote == Quote::Outside {
            quote = Quote::Single;
        } else if c == '\'' && quote == Quote::Single {
            quote = Quote::Outside;
        }
        i = i + 1;
    }
    proof {
        assert forall|k: int| !first_outside(h@, n@, k) by {
            if first_outside(h@, n@, k) {
                assert(text::occurs_at(h@, n@, k));
            }
        }
    }
    None
}

/// A first position is the only one.
pub proof fn lemma_outside_position(s: Seq<char>, needle: Seq<char>, i: int)
    requires
        first_outside(s, needle, i),
        i >= 0,
    ensures
        outside_position(s, needle) == Some(i),
{
    let k = choose|k: int| first_outside(s, needle, k);
    assert(first_outside(s, needle, k));
    assert(text::occurs_at(s, needle, k));
    assert(k == i);
}

/// The two trimmed sides of an expression and its operator: the first operator,
/// in search order from the `k`-th on, that stands in it outside quotes.
pub open spec fn parsed_from(expr: Seq<char>, k: int) -> Option<(Seq<char>, Operator, Seq<char>)>
    decreases 8 - k,
{
    if k >= 8 {
        None
    } else {
        let op = operator_at(k);
        match outside_position(expr, op.token_text()) {
            Some(i) => Some(
                (
                    text::trimmed(expr.take(i)),
                    op,
                    text::trimmed(expr.skip(i + op.token_text().len())),
                ),
            ),
            None => parsed_from(expr, k + 1),
        }
    }
}

fn operator_number(k: usize) -> (r: Operator)
    requires
        k < 8,
    ensures
        r == operator_at(k as int),
{
    if k == 0 {
        Operator::StartsWith
    } else if k == 1 {
        Operator::Contains
    } else if k == 2 {
        Operator::LessEqual
    } else if k == 3 {
        Operator::GreaterEqual
    } else if k == 4 {
        Operator::Equal
    } else if k == 5 {
        Operator::NotEqual
    } else if k == 6 {
        Operator::Less
    } else {
        Operator::Greater
    }
}

/// Splits an expression at its operator.
pub fn parse_binary_expr(expr: &str) -> (r: Option<(String, Operator, String)>)
    ensures
        match r {
            Some(p) => parsed_from(expr@, 0) == Some((p.0@, p.1, p.2@)),
            None => parsed_from(expr@, 0) is None,
        },
{
    let mut k: usize = 0;
    while k < 8
        invariant
            k <= 8,
            parsed_from(expr@, k as int) == parsed_from(expr@, 0),
        decreases 8 - k,
    {
        let op = operator_number(k);
        let token = op.token();
        if let Some(at) = find_op_outside_quotes(expr, token) {
            let ghost i = outside_position(expr@, token@)->0;
            proof {
                let k = choose|k: int| first_outside(expr@, token@, k);
                assert(first_outside(expr@, token@, k));
                assert(text::occurs_at(expr@, token@, i));
                text::lemma_boundary(expr@, i);
            }
            let (left, rest) = expr.split_at(at);
            proof {
                text::lemma_split(expr@, i, left@, rest@);
                assert(rest@.take(token@.len() as int) =~= token@);
                text::lemma_boundary(rest@, token@.len() as int);
            }
            let (own, right) = rest.split_at(token.as_bytes().len());
            proof {
                text::lemma_split(rest@, token@.len() as int, own@, right@);
                assert(right@ =~= expr@.skip(i + op.token_text().len()));
            }
            return Some((text::trim(left), op, text::trim(right)));
        }
        k = k + 1;
    }
    None
}

/// The bytes of a path as pointer text, from position `i` on: a dot and an
/// opening bracket begin a new token, and a closing bracket ends one.
pub open spec fn pointer_text(bytes: Seq<u8>, i: int, in_brackets: bool) -> Seq<char>
    decreases bytes.len() - i,
{
    if i >= bytes.len() {
        Seq::empty()
    } else if in_brackets {
        if bytes[i] == 93 {
            pointer_text(bytes, i + 1, false)
        } else {
            seq![bytes[i] as char] + pointer_text(bytes, i + 1, true)
        }
    } else if bytes[i] == 46 {
        seq!['/'] + pointer_text(bytes, i + 1, false)
    } else if bytes[i] == 91 {
        seq!['/'] + pointer_text(bytes, i + 1, true)
    } else {
        seq![bytes[i] as char] + pointer_text(bytes, i + 1, false)
    }
}

/// The JSON pointer that a path such as `items[0].name` stands for. The path is
/// read byte by byte.
pub open spec fn path_pointer(path: Seq<char>) -> Seq<char> {
    seq!['/'] + pointer_text(vstd::utf8::encode_utf8(path), 0, false)
}

/// The JSON pointer that a path such as `items[0].name` stands for.
pub fn path_to_pointer(path: &str) -> (r: String)
    ensures
        r@ == path_pointer(path@),
{
    let bytes = path.as_bytes();
    let mut result: String = String::new();
    result.push('/');
    let mut i: usize = 0;
    let mut in_brackets = false;
    while i < bytes.len()
        invariant
            i <= bytes.len(),
            bytes@ == vstd::utf8::encode_utf8(path@),
            result@ + pointer_text(bytes@, i as int, in_brackets) == path_pointer(path@),
        decreases bytes.len() - i,
    {
        let b = bytes[i];
        let ghost before = result@;
        if in_brackets {
            if b == 93 {
                in_brackets = false;
            } else {
                result.push(b as char);
                assert(result@ + pointer_text(bytes@, i + 1, true) =~= before + (seq![b as char]
                    + pointer_text(bytes@, i + 1, true)));
            }
        } else if b == 46 {
            result.push('/');
            assert(result@ + pointer_text(bytes@, i + 1, false) =~= before + (seq!['/']
                + pointer_text(bytes@, i + 1, false)));
        } else if b == 91 {
            result.push('/');
            in_brackets = true;
            assert(result@ + pointer_text(bytes@, i + 1, true) =~= before + (seq!['/']
                + pointer_text(bytes@, i + 1, true)));
        } else {
            result.push(b as char);
            assert(result@ + pointer_text(bytes@, i + 1, false) =~= before + (seq![b as char]
                + pointer_text(bytes@, i + 1, false)));
        }
        i = i + 1;
    }
    assert(result@ + Seq::<char>::empty() =~= result@);
    result
}

/// Which number, if any, the text of an operand denotes as a double-precision
/// literal. A finite number is given by its bit pattern.
#[derive(Debug, Clone, Copy, PartialEq, Eq, Structural)]
pub enum Literal {
    NotNumber,
    NonFinite,
    Finite(u64),
}

/// How two numbers compare in double precision.
#[derive(Debug, Clone, Copy, PartialEq, Eq, Structural)]
pub enum Order {
    Less,
    Equal,
    Greater,
}

/// How two numbers compare in double precision: their order, and whether they
/// differ by less than the machine epsilon.
#[derive(Debug, Clone, Copy, PartialEq, Eq, Structural)]
pub struct NumericRelation {
    pub order: Order,
    pub close: bool,
}

/// The text stands between two quotes of the given kind.
pub open spec fn quoted_by(s: Seq<char>, q: char) -> bool {
    s.len() >= 2 && s[0] == q && s.last() == q
}

/// What an operand denotes: a quoted string, a boolean, null, a number, or what
/// a path reads. A path into the context that reads nothing is an error.
pub open spec fn operand_value(
    text_of: Seq<char>,
    literal: Literal,
    context: Json,
    arguments: Json,
    input: Json,
) -> Result<Json, Seq<char>> {
    let s = text::trimmed(text_of);
    if quoted_by(s, '"') || quoted_by(s, '\'') {
        Ok(Json::String(s.subrange(1, s.len() - 1)))
    } else if s == "true"@ {
        Ok(Json::Bool(true))
    } else if s == "false"@ {
        Ok(Json::Bool(false))
    } else if s == "null"@ {
        Ok(Json::Null)
    } else if literal is NonFinite {
        Ok(Json::Null)
    } else if literal is Finite {
        Ok(Json::Number(json::Number::Float(literal->Finite_0)))
    } else {
        match text::after_prefix(s, "$.context."@) {
            Some(path) => match context.pointer(path_pointer(path)) {
                Some(v) => Ok(v),
                None => Err("$.context."@ + path),
            },
            None => match text::after_prefix(s, "$.arguments."@) {
                Some(path) => match arguments.pointer(path_pointer(path)) {
                    Some(v) => Ok(v),
                    None => Ok(Json::Null),
                },
                None => match text::after_prefix(s, "$.workflow.input."@) {
                    Some(path) => match input.pointer(path_pointer(path)) {
                        Some(v) => Ok(v),
                        None => Ok(Json::Null),
                    },
                    None => Ok(Json::Null),
                },
            },
        }
    }
}

fn or_null(o: Option<&Value>) -> (r: Value)
    ensures
        r@ == match json::opt_view(o) {
            Some(v) => v,
            None => Json::Null,
        },
{
    match o {
        Some(v) => v.dup(),
        None => Value::Null,
    }
}

/// What an operand denotes; the unset path when it reads an unset slot.
pub fn resolve_operand(
    s: &str,
    literal: Literal,
    context: &Value,
    arguments: &Value,
    input: &Value,
) -> (r: Result<Value, UnsetSlotError>)
    ensures
        match r {
            Ok(v) => operand_value(s@, literal, context@, arguments@, input@) == Ok::<
                Json,
                Seq<char>,
            >(v@),
            Err(e) => operand_value(s@, literal, context@, arguments@, input@) == Err::<
                Json,
                Seq<char>,
            >(e.path@),
        },
{
    let s = text::trim(s);
    let cs = text::chars_of(s.as_str());
    let n: usize = cs.len();
    if n >= 2 && ((cs[0] == '"' && cs[n - 1] == '"') || (cs[0] == '\'' && cs[n - 1] == '\'')) {
        return Ok(Value::String(text::string_of_range(&cs, 1, n - 1)));
    }
    if text::str_eq(s.as_str(), "true") {
        return Ok(Value::Bool(true));
    }
    if text::str_eq(s.as_str(), "false") {
        return Ok(Value::Bool(false));
    }
    if text::str_eq(s.as_str(), "null") {
        return Ok(Value::Null);
    }
    match literal {
        Literal::NonFinite => {
            return Ok(Value::Null);
        },
        Literal::Finite(bits) => {
            return Ok(Value::Number(json::Number::Float(bits)));
        },
        Literal::NotNumber => {},
    }
    if let Some(path) = text::strip_prefix(s.as_str(), "$.context.") {
        let p = path_to_pointer(path);
        return match context.pointer(p.as_str()) {
            Some(v) => Ok(v.dup()),
            None => Err(UnsetSlotError { path: text::join2("$.context.", path) }),
        };
    }
    if let Some(path) = text::strip_prefix(s.as_str(), "$.arguments.") {
        let p = path_to_pointer(path);
        return Ok(or_null(arguments.pointer(p.as_str())));
    }
    if let Some(path) = text::strip_prefix(s.as_str(), "$.workflow.input.") {
        let p = path_to_pointer(path);
        return Ok(or_null(input.pointer(p.as_str())));
    }
    Ok(Value::Null)
}

/// The text of a string value; empty for anything else.
pub open spec fn text_or_empty(v: Json) -> Seq<char> {
    match v {
        Json::String(s) => s,
        _ => Seq::empty(),
    }
}

/// Whether a comparison holds. Numbers compare by the given relation; strings
/// also by prefix and by substring; anything by equality.
pub open spec fn holds(a: Json, op: Operator, b: Json, relation: NumericRelation) -> bool {
    if a is Number && b is Number {
        match op {
            Operator::Equal => relation.close,
            Operator::NotEqual => !relation.close,
            Operator::Less => relation.order == Order::Less,
            Operator::LessEqual => relation.order != Order::Greater,
            Operator::Greater => relation.order == Order::Greater,
            Operator::GreaterEqual => relation.order != Order::Less,
            _ => false,
        }
    } else {
        match op {
            Operator::StartsWith => text_or_empty(b).is_prefix_of(text_or_empty(a)),
            Operator::Contains => text::has_sub(text_or_empty(a), text_or_empty(b)),
            Operator::Equal => a.alike(b),
            Operator::NotEqual => !a.alike(b),
            _ => false,
        }
    }
}

fn str_or_empty(v: &Value) -> (r: &str)
    ensures
        r@ == text_or_empty(v@),
{
    match v {
        Value::String(s) => s.as_str(),
        _ => {
            proof {
                reveal_strlit("");
            }
            assert(""@ =~= Seq::empty());
            ""
        },
    }
}

fn is_number(v: &Value) -> (r: bool)
    ensures
        r == (v@ is Number),
{
    match v {
        Value::Number(_) => true,
        _ => false,
    }
}

/// Whether a comparison holds.
pub fn compare_values(a: &Value, op: Operator, b: &Value, relation: NumericRelation) -> (r: bool)
    ensures
        r == holds(a@, op, b@, relation),
{
    if is_number(a) && is_number(b) {
        return match op {
            Operator::Equal => relation.close,
            Operator::NotEqual => !relation.close,
            Operator::Less => relation.order == Order::Less,
            Operator::LessEqual => relation.order != Order::Greater,
            Operator::Greater => relation.order == Order::Greater,
            Operator::GreaterEqual => relation.order != Order::Less,
            _ => false,
        };
    }
    match op {
        Operator::StartsWith => text::starts_with(str_or_empty(a), str_or_empty(b)),
        Operator::Contains => text::contains_text(str_or_empty(a), str_or_empty(b)),
        Operator::Equal => a.alike(b),
        Operator::NotEqual => !a.alike(b),
        _ => false,
    }
}

/// A kind of evidence and how many records of it are required.
pub open spec fn requirement(v: Json) -> Option<(Seq<char>, u64)> {
    match v {
        Json::String(s) => Some((s, 1)),
        Json::Object(_) => match v.str_at("kind"@) {
            Some(kind) => Some(
                (
                    kind,
                    match v.u64_at("count"@) {
                        Some(n) => n,
                        None => 1,
                    },
                ),
            ),
            None => None,
        },
        _ => None,
    }
}

/// A kind of evidence and how many records of it are required.
pub fn parse_evidence_requirement(v: &Value) -> (r: Option<(String, u64)>)
    ensures
        match r {
            Some(p) => requirement(v@) == Some((p.0@, p.1)),
            None => requirement(v@) is None,
        },
{
    match v {
        Value::String(s) => Some((s.clone(), 1)),
        Value::Object(_) => match v.str_at("kind") {
            Some(kind) => {
                let count: u64 = match v.u64_at("count") {
                    Some(n) => n,
                    None => 1,
                };
                Some((kind.to_owned(), count))
            },
            None => None,
        },
        _ => None,
    }
}

/// How many of the first `n` records are of the given kind.
pub open spec fn kind_count(recorded: Seq<EvidenceView>, kind: Seq<char>, n: int) -> nat
    decreases n,
{
    if n <= 0 {
        0
    } else {
        kind_count(recorded, kind, n - 1) + (if recorded[n - 1].kind == kind {
            1nat
        } else {
            0nat
        })
    }
}

/// Every requirement is met by the recorded evidence.
pub open spec fn evidence_met(requires_items: Seq<Json>, recorded: Seq<EvidenceView>) -> bool {
    forall|i: int|
        0 <= i < requires_items.len() ==> (requirement(#[trigger] requires_items[i]) matches Some(q)
            ==> kind_count(recorded, q.0, recorded.len() as int) >= q.1)
}

fn count_kind(recorded: &Vec<Evidence>, kind: &str) -> (r: usize)
    ensures
        r == kind_count(
            crate::model::evidence_views(recorded@),
            kind@,
            recorded@.len() as int,
        ),
{
    let mut n: usize = 0;
    let mut i: usize = 0;
    while i < recorded.len()
        invariant
            i <= recorded.len(),
            n <= i,
            n == kind_count(crate::model::evidence_views(recorded@), kind@, i as int),
        decreases recorded.len() - i,
    {
        if text::str_eq(recorded[i].kind.as_str(), kind) {
            n = n + 1;
        }
        i = i + 1;
    }
    n
}

/// Whether every requirement is met by the recorded evidence.
pub fn evidence_satisfied(requires_items: &Vec<Value>, recorded: &Vec<Evidence>) -> (r: bool)
    ensures
        r == evidence_met(
            json::views(requires_items@),
            crate::model::evidence_views(recorded@),
        ),
{
    let ghost items = json::views(requires_items@);
    let ghost rec = crate::model::evidence_views(recorded@);
    let mut i: usize = 0;
    while i < requires_items.len()
        invariant
            i <= requires_items.len(),
            items == json::views(requires_items@),
            rec == crate::model::evidence_views(recorded@),
            forall|j: int|
                0 <= j < i ==> (requirement(#[trigger] items[j]) matches Some(q) ==> kind_count(
                    rec,
                    q.0,
                    rec.len() as int,
                ) >= q.1),
        decreases requires_items.len() - i,
    {
        assert(items[i as int] == requires_items@[i as int]@);
        if let Some((kind, count)) = parse_evidence_requirement(&requires_items[i]) {
            let n = count_kind(recorded, kind.as_str());
            if (n as u64) < count {
                return false;
            }
        }
        i = i + 1;
    }
    true
}

/// What only the caller can answer.
#[derive(Debug)]
pub enum Question {
    /// Which numbers do the texts of the two operands denote?
    Literals { left: String, right: String },
    /// How do these two numbers compare?
    Relation(Value, Value),
    /// Which evidence was recorded for the workflow?
    Evidence,
}

/// The caller's answer to a question.
#[derive(Debug)]
pub enum Answer {
    Literals { left: Literal, right: Literal },
    Relation(NumericRelation),
    Evidence(Vec<Evidence>),
    NoEvidenceStore,
    EvidenceUnavailable(String),
}

/// Why a guard could not be judged.
#[derive(Debug)]
pub enum GuardError {
    /// It reads a slot that was never set.
    UnsetSlot(String),
    /// It is malformed.
    Malformed(String),
    /// The evidence could not be read.
    Unavailable(String),
}

/// The outcome of judging a guard with the answers given so far.
#[derive(Debug)]
pub enum Verdict {
    Pass(bool),
    Failed(GuardError),
    Ask(Question),
}

/// A question as mathematical values.
pub enum QuestionView {
    Literals { left: Seq<char>, right: Seq<char> },
    Relation(Json, Json),
    Evidence,
}

/// An answer as mathematical values.
pub enum AnswerView {
    Literals { left: Literal, right: Literal },
    Relation(NumericRelation),
    Evidence(Seq<EvidenceView>),
    NoEvidenceStore,
    EvidenceUnavailable(Seq<char>),
}

/// An error as mathematical values.
pub enum GuardErrorView {
    UnsetSlot(Seq<char>),
    Malformed(Seq<char>),
    Unavailable(Seq<char>),
}

/// A verdict as mathematical values.
pub enum VerdictView {
    Pass(bool),
    Failed(GuardErrorView),
    Ask(QuestionView),
}

impl View for Question {
    type V = QuestionView;

    open spec fn view(&self) -> QuestionView {
        match self {
            Question::Literals { left, right } => QuestionView::Literals {
                left: left@,
                right: right@,
            },
            Question::Relation(a, b) => QuestionView::Relation(a@, b@),
            Question::Evidence => QuestionView::Evidence,
        }
    }
}

impl View for Answer {
    type V = AnswerView;

    open spec fn view(&self) -> AnswerView {
        match self {
            Answer::Literals { left, right } => AnswerView::Literals {
                left: *left,
                right: *right,
            },
            Answer::Relation(r) => AnswerView::Relation(*r),
            Answer::Evidence(v) => AnswerView::Evidence(crate::model::evidence_views(v@)),
            Answer::NoEvidenceStore => AnswerView::NoEvidenceStore,
            Answer::EvidenceUnavailable(m) => AnswerView::EvidenceUnavailable(m@),
        }
    }
}

impl View for GuardError {
    type V = GuardErrorView;

    open spec fn view(&self) -> GuardErrorView {
        match self {
            GuardError::UnsetSlot(s) => GuardErrorView::UnsetSlot(s@),
            GuardError::Malformed(s) => GuardErrorView::Malformed(s@),
            GuardError::Unavailable(s) => GuardErrorView::Unavailable(s@),
        }
    }
}

impl View for Verdict {
    type V = VerdictView;

    open spec fn view(&self) -> VerdictView {
        match self {
            Verdict::Pass(b) => VerdictView::Pass(*b),
            Verdict::Failed(e) => VerdictView::Failed(e@),
            Verdict::Ask(q) => VerdictView::Ask(q@),
        }
    }
}

/// The answers, in order.
pub open spec fn answer_views(s: Seq<Answer>) -> Seq<AnswerView> {
    Seq::new(s.len(), |i: int| s[i]@)
}

/// What a guard is judged against.
pub struct Scope {
    pub context: Json,
    pub arguments: Json,
    pub input: Json,
    pub principal: PrincipalView,
}

/// The verdict on an expression, and how many answers were used, from the
/// `k`-th answer on.
pub open spec fn judge_expr(
    expr: Seq<char>,
    scope: Scope,
    answers: Seq<AnswerView>,
    k: int,
) -> (VerdictView, int) {
    match parsed_from(expr, 0) {
        None => (VerdictView::Pass(false), k),
        Some((left, op, right)) => {
            let ask = (VerdictView::Ask(QuestionView::Literals { left, right }), k);
            if k >= answers.len() {
                ask
            } else {
                match answers[k] {
                    AnswerView::Literals { left: ll, right: rl } => {
                        match operand_value(
                            left,
                            ll,
                            scope.context,
                            scope.arguments,
                            scope.input,
                        ) {
                            Err(path) => (
                                VerdictView::Failed(GuardErrorView::UnsetSlot(path)),
                                k + 1,
                            ),
                            Ok(a) => match operand_value(
                                right,
                                rl,
                                scope.context,
                                scope.arguments,
                                scope.input,
                            ) {
                                Err(path) => (
                                    VerdictView::Failed(GuardErrorView::UnsetSlot(path)),
                                    k + 1,
                                ),
                                Ok(b) => judge_values(a, op, b, answers, k + 1),
                            },
                        }
                    },
                    _ => ask,
                }
            }
        },
    }
}

/// The verdict on a comparison of two values.
pub open spec fn judge_values(
    a: Json,
    op: Operator,
    b: Json,
    answers: Seq<AnswerView>,
    k: int,
) -> (VerdictView, int) {
    if a is Number && b is Number {
        let ask = (VerdictView::Ask(QuestionView::Relation(a, b)), k);
        if k >= answers.len() {
            ask
        } else {
            match answers[k] {
                AnswerView::Relation(r) => (VerdictView::Pass(holds(a, op, b, r)), k + 1),
                _ => ask,
            }
        }
    } else {
        let any = NumericRelation { order: Order::Equal, close: true };
        (VerdictView::Pass(holds(a, op, b, any)), k)
    }
}

/// The verdict on an evidence guard.
pub open spec fn judge_evidence(
    requires_items: Seq<Json>,
    answers: Seq<AnswerView>,
    k: int,
) -> (VerdictView, int) {
    let ask = (VerdictView::Ask(QuestionView::Evidence), k);
    if k >= answers.len() {
        ask
    } else {
        match answers[k] {
            AnswerView::NoEvidenceStore => (VerdictView::Pass(true), k + 1),
            AnswerView::Evidence(recorded) => (
                VerdictView::Pass(evidence_met(requires_items, recorded)),
                k + 1,
            ),
            AnswerView::EvidenceUnavailable(m) => (
                VerdictView::Failed(GuardErrorView::Unavailable(m)),
                k + 1,
            ),
            _ => ask,
        }
    }
}

/// The text under a key; empty when there is none.
pub open spec fn str_or(v: Json, key: Seq<char>) -> Seq<char> {
    match v.str_at(key) {
        Some(s) => s,
        None => Seq::empty(),
    }
}

/// The verdict on a guard, and the number of answers used up to there.
pub open spec fn judge(guard: Json, scope: Scope, answers: Seq<AnswerView>, k: int) -> (
    VerdictView,
    int,
)
    decreases guard, 0int,
{
    proof {
        json::lemma_get_smaller(guard, "guards"@);
        json::lemma_get_smaller(guard, "guard"@);
    }
    let kind = str_or(guard, "kind"@);
    if kind == "permission"@ {
        (VerdictView::Pass(scope.principal.permissions.contains(str_or(guard, "permission"@))), k)
    } else if kind == "role"@ {
        (VerdictView::Pass(scope.principal.roles.contains(str_or(guard, "role"@))), k)
    } else if kind == "expr"@ || kind == "jsonpath"@ {
        judge_expr(str_or(guard, "expr"@), scope, answers, k)
    } else if kind == "all_of"@ {
        match guard.array_at("guards"@) {
            Some(items) => judge_all(items, 0, scope, answers, k),
            None => (VerdictView::Pass(true), k),
        }
    } else if kind == "any_of"@ {
        match guard.array_at("guards"@) {
            Some(items) => judge_any(items, 0, None, scope, answers, k),
            None => (VerdictView::Pass(false), k),
        }
    } else if kind == "not"@ {
        match guard.get("guard"@) {
            Some(inner) => {
                let (v, n) = judge(inner, scope, answers, k);
                match v {
                    VerdictView::Pass(b) => (VerdictView::Pass(!b), n),
                    other => (other, n),
                }
            },
            None => (
                VerdictView::Failed(
                    GuardErrorView::Malformed("`not` guard needs a `guard:` body"@),
                ),
                k,
            ),
        }
    } else if kind == "evidence"@ {
        judge_evidence(guard.items_at("requires"@), answers, k)
    } else {
        (VerdictView::Pass(false), k)
    }
}

/// The verdict on a conjunction, from guard `i` on: the first guard that does
/// not pass decides.
pub open spec fn judge_all(
    items: Seq<Json>,
    i: int,
    scope: Scope,
    answers: Seq<AnswerView>,
    k: int,
) -> (VerdictView, int)
    decreases items, items.len() - i,
{
    if i < 0 || i >= items.len() {
        (VerdictView::Pass(true), k)
    } else {
        let (v, n) = judge(items[i], scope, answers, k);
        match v {
            VerdictView::Pass(true) => judge_all(items, i + 1, scope, answers, n),
            other => (other, n),
        }
    }
}

/// The verdict on a disjunction, from guard `i` on: the first guard that passes
/// decides; with none, the first error, where there was one.
pub open spec fn judge_any(
    items: Seq<Json>,
    i: int,
    first_error: Option<GuardErrorView>,
    scope: Scope,
    answers: Seq<AnswerView>,
    k: int,
) -> (VerdictView, int)
    decreases items, items.len() - i,
{
    if i < 0 || i >= items.len() {
        match first_error {
            Some(e) => (VerdictView::Failed(e), k),
            None => (VerdictView::Pass(false), k),
        }
    } else {
        let (v, n) = judge(items[i], scope, answers, k);
        match v {
            VerdictView::Pass(true) => (VerdictView::Pass(true), n),
            VerdictView::Pass(false) => judge_any(items, i + 1, first_error, scope, answers, n),
            VerdictView::Failed(e) => judge_any(
                items,
                i + 1,
                match first_error {
                    Some(f) => Some(f),
                    None => Some(e),
                },
                scope,
                answers,
                n,
            ),
            other => (other, n),
        }
    }
}

/// Judges an expression with the answers given so far.
pub fn eval_expr(
    expr: &str,
    context: &Value,
    arguments: &Value,
    input: &Value,
    principal: &Principal,
    answers: &Vec<Answer>,
    k: usize,
) -> (r: (Verdict, usize))
    requires
        k <= answers.len(),
    ensures
        (r.0@, r.1 as int) == judge_expr(
            expr@,
            (Scope {
                context: context@,
                arguments: arguments@,
                input: input@,
                principal: principal@,
            }),
            answer_views(answers@),
            k as int,
        ),
        r.1 <= answers.len(),
{
    let (left, op, right) = match parse_binary_expr(expr) {
        None => {
            return (Verdict::Pass(false), k);
        },
        Some(p) => p,
    };
    if k < answers.len() {
        assert(answer_views(answers@)[k as int] == answers@[k as int]@);
        if let Answer::Literals { left: ll, right: rl } = &answers[k] {
            let a = match resolve_operand(left.as_str(), *ll, context, arguments, input) {
                Ok(a) => a,
                Err(e) => {
                    return (Verdict::Failed(GuardError::UnsetSlot(e.path)), k + 1);
                },
            };
            let b = match resolve_operand(right.as_str(), *rl, context, arguments, input) {
                Ok(b) => b,
                Err(e) => {
                    return (Verdict::Failed(GuardError::UnsetSlot(e.path)), k + 1);
                },
            };
            return eval_values(a, op, b, answers, k + 1);
        }
    }
    (Verdict::Ask(Question::Literals { left, right }), k)
}

fn eval_values(a: Value, op: Operator, b: Value, answers: &Vec<Answer>, k: usize) -> (r: (
    Verdict,
    usize,
))
    requires
        k <= answers.len(),
    ensures
        (r.0@, r.1 as int) == judge_values(a@, op, b@, answer_views(answers@), k as int),
        r.1 <= answers.len(),
{
    if is_number(&a) && is_number(&b) {
        if k < answers.len() {
            assert(answer_views(answers@)[k as int] == answers@[k as int]@);
            if let Answer::Relation(rel) = &answers[k] {
                return (Verdict::Pass(compare_values(&a, op, &b, *rel)), k + 1);
            }
        }
        return (Verdict::Ask(Question::Relation(a, b)), k);
    }
    let any = NumericRelation { order: Order::Equal, close: true };
    (Verdict::Pass(compare_values(&a, op, &b, any)), k)
}

fn eval_evidence(requires_items: Option<&Vec<Value>>, answers: &Vec<Answer>, k: usize) -> (r: (
    Verdict,
    usize,
))
    requires
        k <= answers.len(),
    ensures
        (r.0@, r.1 as int) == judge_evidence(
            match requires_items {
                Some(v) => json::views(v@),
                None => Seq::empty(),
            },
            answer_views(answers@),
            k as int,
        ),
        r.1 <= answers.len(),
{
    if k < answers.len() {
        assert(answer_views(answers@)[k as int] == answers@[k as int]@);
        match &answers[k] {
            Answer::NoEvidenceStore => {
                return (Verdict::Pass(true), k + 1);
            },
            Answer::Evidence(recorded) => {
                let pass = match requires_items {
                    Some(items) => evidence_satisfied(items, recorded),
                    None => true,
                };
                return (Verdict::Pass(pass), k + 1);
            },
            Answer::EvidenceUnavailable(m) => {
                return (Verdict::Failed(GuardError::Unavailable(m.clone())), k + 1);
            },
            _ => {},
        }
    }
    (Verdict::Ask(Question::Evidence), k)
}

fn str_at_or_empty<'a>(v: &'a Value, key: &str) -> (r: &'a str)
    ensures
        r@ == str_or(v@, key@),
{
    match v.str_at(key) {
        Some(s) => s,
        None => {
            proof {
                reveal_strlit("");
            }
            assert(""@ =~= Seq::empty());
            ""
        },
    }
}

/// Judges a guard with the answers given so far, from the `k`-th on: the
/// verdict, and the number of answers used up to there.
pub fn evaluate(
    guard: &Value,
    context: &Value,
    arguments: &Value,
    input: &Value,
    principal: &Principal,
    answers: &Vec<Answer>,
    k: usize,
) -> (r: (Verdict, usize))
    requires
        k <= answers.len(),
    ensures
        (r.0@, r.1 as int) == judge(
            guard@,
            (Scope {
                context: context@,
                arguments: arguments@,
                input: input@,
                principal: principal@,
            }),
            answer_views(answers@),
            k as int,
        ),
        r.1 <= answers.len(),
    decreases guard@, 0int,
{
    let ghost scope = Scope {
        context: context@,
        arguments: arguments@,
        input: input@,
        principal: principal@,
    };
    proof {
        json::lemma_get_smaller(guard@, "guards"@);
        json::lemma_get_smaller(guard@, "guard"@);
    }
    let kind = str_at_or_empty(guard, "kind");
    if text::str_eq(kind, "permission") {
        let required = str_at_or_empty(guard, "permission");
        return (Verdict::Pass(text::has_text(&principal.permissions, required)), k);
    }
    if text::str_eq(kind, "role") {
        let required = str_at_or_empty(guard, "role");
        return (Verdict::Pass(text::has_text(&principal.roles, required)), k);
    }
    if text::str_eq(kind, "expr") || text::str_eq(kind, "jsonpath") {
        let expr = str_at_or_empty(guard, "expr");
        return eval_expr(expr, context, arguments, input, principal, answers, k);
    }
    if text::str_eq(kind, "all_of") {
        return match guard.array_at("guards") {
            Some(items) => evaluate_all(items, context, arguments, input, principal, answers, k),
            None => (Verdict::Pass(true), k),
        };
    }
    if text::str_eq(kind, "any_of") {
        return match guard.array_at("guards") {
            Some(items) => evaluate_any(items, context, arguments, input, principal, answers, k),
            None => (Verdict::Pass(false), k),
        };
    }
    if text::str_eq(kind, "not") {
        return match guard.get("guard") {
            Some(inner) => {
                let (v, n) = evaluate(inner, context, arguments, input, principal, answers, k);
                match v {
                    Verdict::Pass(b) => (Verdict::Pass(!b), n),
                    other => (other, n),
                }
            },
            None => (
                Verdict::Failed(
                    GuardError::Malformed("`not` guard needs a `guard:` body".to_owned()),
                ),
                k,
            ),
        };
    }
    if text::str_eq(kind, "evidence") {
        return eval_evidence(guard.array_at("requires"), answers, k);
    }
    (Verdict::Pass(false), k)
}

fn evaluate_all(
    items: &Vec<Value>,
    context: &Value,
    arguments: &Value,
    input: &Value,
    principal: &Principal,
    answers: &Vec<Answer>,
    k: usize,
) -> (r: (Verdict, usize))
    requires
        k <= answers.len(),
    ensures
        (r.0@, r.1 as int) == judge_all(
            json::views(items@),
            0,
            (Scope {
                context: context@,
                arguments: arguments@,
                input: input@,
                principal: principal@,
            }),
            answer_views(answers@),
            k as int,
        ),
        r.1 <= answers.len(),
    decreases json::views(items@), items.len(),
{
    let ghost scope = Scope {
        context: context@,
        arguments: arguments@,
        input: input@,
        principal: principal@,
    };
    let ghost js = json::views(items@);
    let ghost av = answer_views(answers@);
    let mut n: usize = k;
    let mut i: usize = 0;
    while i < items.len()
        invariant
            i <= items.len(),
            n <= answers.len(),
            js == json::views(items@),
            av == answer_views(answers@),
            scope == (Scope {
                context: context@,
                arguments: arguments@,
                input: input@,
                principal: principal@,
            }),
            judge_all(js, i as int, scope, av, n as int) == judge_all(js, 0, scope, av, k as int),
        decreases items.len() - i,
    {
        assert(js[i as int] == items@[i as int]@);
        assert(decreases_to!(js => js[i as int]));
        let (v, m) = evaluate(&items[i], context, arguments, input, principal, answers, n);
        match v {
            Verdict::Pass(true) => {
                n = m;
            },
            other => {
                return (other, m);
            },
        }
        i = i + 1;
    }
    (Verdict::Pass(true), n)
}

fn evaluate_any(
    items: &Vec<Value>,
    context: &Value,
    arguments: &Value,
    input: &Value,
    principal: &Principal,
    answers: &Vec<Answer>,
    k: usize,
) -> (r: (Verdict, usize))
    requires
        k <= answers.len(),
    ensures
        (r.0@, r.1 as int) == judge_any(
            json::views(items@),
            0,
            None,
            (Scope {
                context: context@,
                arguments: arguments@,
                input: input@,
                principal: principal@,
            }),
            answer_views(answers@),
            k as int,
        ),
        r.1 <= answers.len(),
    decreases json::views(items@), items.len(),
{
    let ghost scope = Scope {
        context: context@,
        arguments: arguments@,
        input: input@,
        principal: principal@,
    };
    let ghost js = json::views(items@);
    let ghost av = answer_views(answers@);
    let mut first: Option<GuardError> = None;
    let mut n: usize = k;
    let mut i: usize = 0;
    while i < items.len()
        invariant
            i <= items.len(),
            n <= answers.len(),
            js == json::views(items@),
            av == answer_views(answers@),
            scope == (Scope {
                context: context@,
                arguments: arguments@,
                input: input@,
                principal: principal@,
            }),
            judge_any(js, i as int, error_view(first), scope, av, n as int) == judge_any(
                js,
                0,
                None,
                scope,
                av,
                k as int,
            ),
        decreases items.len() - i,
    {
        assert(js[i as int] == items@[i as int]@);
        assert(decreases_to!(js => js[i as int]));
        let (v, m) = evaluate(&items[i], context, arguments, input, principal, answers, n);
        n = m;
        match v {
            Verdict::Pass(true) => {
                return (Verdict::Pass(true), m);
            },
            Verdict::Pass(false) => {},
            Verdict::Failed(e) => {
                if first.is_none() {
                    first = Some(e);
                }
            },
            Verdict::Ask(q) => {
                return (Verdict::Ask(q), m);
            },
        }
        i = i + 1;
    }
    match first {
        Some(e) => (Verdict::Failed(e), n),
        None => (Verdict::Pass(false), n),
    }
}

/// An optional error as a mathematical value.
pub open spec fn error_view(e: Option<GuardError>) -> Option<GuardErrorView> {
    match e {
        Some(x) => Some(x@),
        None => None,
    }
}

// ---------------------------------------------------------------------------
// Laws
// ---------------------------------------------------------------------------

/// An expression that reads an unset slot of the context fails and names the slot,
/// whatever it compares it with: it is never judged as false.
pub proof fn law_unset_slots_fail(
    expr: Seq<char>,
    scope: Scope,
    answers: Seq<AnswerView>,
    k: int,
    path: Seq<char>,
)
    requires
        0 <= k < answers.len(),
        parsed_from(expr, 0) matches Some((left, op, right)) && (
        answers[k] matches AnswerView::Literals { left: ll, right: rl } && (operand_value(
            left,
            ll,
            scope.context,
            scope.arguments,
            scope.input,
        ) == Err::<Json, Seq<char>>(path) || (operand_value(
            left,
            ll,
            scope.context,
            scope.arguments,
            scope.input,
        ) is Ok && operand_value(right, rl, scope.context, scope.arguments, scope.input) == Err::<
            Json,
            Seq<char>,
        >(path)))),
    ensures
        judge_expr(expr, scope, answers, k).0 == VerdictView::Failed(
            GuardErrorView::UnsetSlot(path),
        ),
{
}

/// In a disjunction an error of one guard never takes away that another one passes, and
/// it comes out where none passes: the verdict is not silently false.
pub proof fn law_errors_do_not_hide_a_pass(
    items: Seq<Json>,
    i: int,
    error: GuardErrorView,
    scope: Scope,
    answers: Seq<AnswerView>,
    k: int,
)
    ensures
        judge_any(items, i, Some(error), scope, answers, k).0 == VerdictView::Pass(true)
            <==> judge_any(items, i, None, scope, answers, k).0 == VerdictView::Pass(true),
        judge_any(items, i, Some(error), scope, answers, k).0 != VerdictView::Pass(false),
        judge_any(items, i, Some(error), scope, answers, k).0 is Failed ==> judge_any(
            items,
            i,
            Some(error),
            scope,
            answers,
            k,
        ).0 == VerdictView::Failed(error),
    decreases items.len() - i,
{
    if 0 <= i < items.len() {
        let (v, n) = judge(items[i], scope, answers, k);
        law_errors_do_not_hide_a_pass(items, i + 1, error, scope, answers, n);
        if let VerdictView::Failed(e) = v {
            law_errors_do_not_hide_a_pass(items, i + 1, e, scope, answers, n);
        }
    }
}

/// A conjunction of no guards passes, and a disjunction of none does not.
pub proof fn law_empty_groups(scope: Scope, answers: Seq<AnswerView>, k: int)
    ensures
        judge_all(Seq::empty(), 0, scope, answers, k).0 == VerdictView::Pass(true),
        judge_any(Seq::empty(), 0, None, scope, answers, k).0 == VerdictView::Pass(false),
{
}

/// Values that are not both numbers are ordered in no way, and are equal where they
/// compare as equal: `null` equals `null` and nothing else.
pub proof fn law_plain_values_are_compared_by_equality(a: Json, b: Json, r: NumericRelation)
    requires
        !(a is Number && b is Number),
    ensures
        holds(a, Operator::Equal, b, r) == a.alike(b),
        holds(a, Operator::NotEqual, b, r) == !a.alike(b),
        a is Null || a is Bool || a is String ==> holds(a, Operator::Equal, b, r) == (a == b),
        !holds(a, Operator::Less, b, r),
        !holds(a, Operator::LessEqual, b, r),
        !holds(a, Operator::Greater, b, r),
        !holds(a, Operator::GreaterEqual, b, r),
{
}

} // verus!
