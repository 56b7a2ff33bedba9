//! Output mappings: how values are read from the scopes of a workflow and
//! written to its context.
//!
//! A mapping value is a path (`"$.output.plan"`), an operator object
//! (`{ add: [a, b] }`, `{ concat: [..] }`, `{ set: x }`) or a literal. Sums,
//! differences, products and quotients of integers that a double-precision
//! number holds exactly are computed here. Any other arithmetic, and the text of
//! a value that takes a serializer, is left to the caller as a `Resolved` that
//! names what is still to be computed.
use crate::json;
use crate::json::{Json, Number, Value};
use crate::text;
use vstd::prelude::*;

verus! {

/// An arithmetic operator.
#[derive(Debug, Clone, Copy, PartialEq, Eq, Structural)]
pub enum ArithOp {
    Add,
    Subtract,
    Multiply,
    Divide,
}

/// A mapping value after every path in it was read.
#[derive(Debug)]
pub enum Resolved {
    /// The value itself.
    Value(Value),
    /// A floating-point operation that remains to be computed.
    Arithmetic { op: ArithOp, left: Number, right: Number },
    /// A concatenation with a part that remains to be computed or rendered.
    Concat(Vec<Resolved>),
}

/// A resolved mapping value as a mathematical value.
#[verifier::ext_equal]
pub enum ResolvedView {
    Value(Json),
    Arithmetic { op: ArithOp, left: Number, right: Number },
    Concat(Seq<ResolvedView>),
}

/// The resolved values of a sequence.
pub open spec fn resolved_views(s: Seq<Resolved>) -> Seq<ResolvedView>
    decreases s,
{
    Seq::new(
        s.len(),
        |i: int|
            if 0 <= i < s.len() {
                s[i].view()
            } else {
                ResolvedView::Value(Json::Null)
            },
    )
}

impl Resolved {
    /// The mathematical value.
    pub open spec fn view(&self) -> ResolvedView
        decreases self,
    {
        match self {
            Resolved::Value(v) => ResolvedView::Value(v@),
            Resolved::Arithmetic { op, left, right } => ResolvedView::Arithmetic {
                op: *op,
                left: *left,
                right: *right,
            },
            Resolved::Concat(parts) => ResolvedView::Concat(resolved_views(parts@)),
        }
    }
}

/// The pointer that a dotted path stands for.
pub open spec fn dotted_pointer(path: Seq<char>) -> Seq<char> {
    "/"@ + text::replaced_char(path, '.', "/"@)
}

fn dotted(path: &str) -> (r: String)
    ensures
        r@ == dotted_pointer(path@),
{
    let p = text::replace_char(path, '.', "/");
    text::join2("/", p.as_str())
}

/// A copy of an optional value.
pub fn opt_dup(o: Option<&Value>) -> (r: Option<Value>)
    ensures
        json::opt_owned_view(r) == json::opt_view(o),
{
    match o {
        Some(v) => Some(v.dup()),
        None => None,
    }
}

/// What `$.output[.path]` reads from an executor's output.
pub open spec fn expr_value(value: Json, expr: Seq<char>) -> Option<Json> {
    if expr == "$"@ || expr == "$.output"@ {
        Some(value)
    } else {
        match text::after_prefix(expr, "$.output."@) {
            Some(path) => value.pointer(dotted_pointer(path)),
            None => None,
        }
    }
}

/// Reads `$.output[.path]` against an executor's output.
pub fn read_expr(value: &Value, expr: &str) -> (r: Option<Value>)
    ensures
        json::opt_owned_view(r) == expr_value(value@, expr@),
{
    if text::str_eq(expr, "$") || text::str_eq(expr, "$.output") {
        return Some(value.dup());
    }
    match text::strip_prefix(expr, "$.output.") {
        Some(path) => {
            let p = dotted(path);
            opt_dup(value.pointer(p.as_str()))
        },
        None => None,
    }
}

/// What a path expression reads from the scopes.
pub open spec fn scope_value(
    expr: Seq<char>,
    arguments: Json,
    context: Json,
    input: Json,
    output: Option<Json>,
) -> Option<Json> {
    match text::after_prefix(expr, "$.arguments."@) {
        Some(path) => arguments.pointer(dotted_pointer(path)),
        None => match text::after_prefix(expr, "$.context."@) {
            Some(path) => context.pointer(dotted_pointer(path)),
            None => match text::after_prefix(expr, "$.workflow.input."@) {
                Some(path) => input.pointer(dotted_pointer(path)),
                None => match output {
                    Some(out) => expr_value(out, expr),
                    None => None,
                },
            },
        },
    }
}

/// Reads a path expression from the scopes.
pub fn read_in_scopes(
    expr: &str,
    arguments: &Value,
    context: &Value,
    workflow_input: &Value,
    executor_output: Option<&Value>,
) -> (r: Option<Value>)
    ensures
        json::opt_owned_view(r) == scope_value(
            expr@,
            arguments@,
            context@,
            workflow_input@,
            json::opt_view(executor_output),
        ),
{
    if let Some(path) = text::strip_prefix(expr, "$.arguments.") {
        let p = dotted(path);
        return opt_dup(arguments.pointer(p.as_str()));
    }
    if let Some(path) = text::strip_prefix(expr, "$.context.") {
        let p = dotted(path);
        return opt_dup(context.pointer(p.as_str()));
    }
    if let Some(path) = text::strip_prefix(expr, "$.workflow.input.") {
        let p = dotted(path);
        return opt_dup(workflow_input.pointer(p.as_str()));
    }
    match executor_output {
        Some(out) => read_expr(out, expr),
        None => None,
    }
}

/// The integer that a number is, when it is one.
pub open spec fn integer(n: Number) -> Option<int> {
    match n {
        Number::PosInt(u) => Some(u as int),
        Number::NegInt(i) => Some(i as int),
        Number::Float(_) => None,
    }
}

/// The integers that a double-precision number represents without gaps.
pub open spec fn exact(i: int) -> bool {
    -0x20_0000_0000_0000 <= i <= 0x20_0000_0000_0000
}

/// The JSON number of an integer.
pub open spec fn integer_number(i: int) -> Number {
    if i >= 0 {
        Number::PosInt(i as u64)
    } else {
        Number::NegInt(i as i64)
    }
}

/// The number is zero.
pub open spec fn zero(n: Number) -> bool {
    match n {
        Number::PosInt(u) => u == 0,
        Number::NegInt(i) => i == 0,
        Number::Float(bits) => bits == 0 || bits == 0x8000_0000_0000_0000,
    }
}

/// The result of an operator on two integers, when it is an integer.
pub open spec fn integer_result(op: ArithOp, a: int, b: int) -> Option<int> {
    match op {
        ArithOp::Add => Some(a + b),
        ArithOp::Subtract => Some(a - b),
        ArithOp::Multiply => Some(a * b),
        ArithOp::Divide => if b != 0 && a % b == 0 {
            Some(a / b)
        } else {
            None
        },
    }
}

/// What an arithmetic operator gives: nothing for a division by zero, the
/// integer where operands and result are exact, and otherwise the operation
/// itself, still to be computed.
pub open spec fn arithmetic(op: ArithOp, left: Number, right: Number) -> ResolvedView {
    let pending = ResolvedView::Arithmetic { op, left, right };
    if op == ArithOp::Divide && zero(right) {
        ResolvedView::Value(Json::Null)
    } else {
        match (integer(left), integer(right)) {
            (Some(a), Some(b)) => if exact(a) && exact(b) {
                match integer_result(op, a, b) {
                    Some(c) => if exact(c) {
                        ResolvedView::Value(Json::Number(integer_number(c)))
                    } else {
                        pending
                    },
                    None => pending,
                }
            } else {
                pending
            },
            _ => pending,
        }
    }
}

fn integer_of(n: Number) -> (r: Option<i128>)
    ensures
        match r {
            Some(i) => integer(n) == Some(i as int),
            None => integer(n) is None,
        },
{
    match n {
        Number::PosInt(u) => Some(u as i128),
        Number::NegInt(i) => Some(i as i128),
        Number::Float(_) => None,
    }
}

fn is_zero(n: Number) -> (r: bool)
    ensures
        r == zero(n),
{
    match n {
        Number::PosInt(u) => u == 0,
        Number::NegInt(i) => i == 0,
        Number::Float(bits) => bits == 0 || bits == 0x8000_0000_0000_0000,
    }
}

fn is_exact(i: i128) -> (r: bool)
    ensures
        r == exact(i as int),
{
    -0x20_0000_0000_0000 <= i && i <= 0x20_0000_0000_0000
}

fn to_number(i: i128) -> (r: Number)
    requires
        exact(i as int),
    ensures
        r == integer_number(i as int),
{
    if i >= 0 {
        Number::PosInt(i as u64)
    } else {
        Number::NegInt(i as i64)
    }
}

/// The quotient of two integers, when the division leaves no remainder.
fn exact_quotient(a: i128, b: i128) -> (r: Option<i128>)
    requires
        exact(a as int),
        exact(b as int),
        b != 0,
    ensures
        match r {
            Some(c) => integer_result(ArithOp::Divide, a as int, b as int) == Some(c as int),
            None => integer_result(ArithOp::Divide, a as int, b as int) is None,
        },
{
    let x: u64 = if a < 0 {
        (-a) as u64
    } else {
        a as u64
    };
    let y: u64 = if b < 0 {
        (-b) as u64
    } else {
        b as u64
    };
    let q: u64 = x / y;
    proof {
        let ai = a as int;
        let bi = b as int;
        let xi = x as int;
        let yi = y as int;
        vstd::arithmetic::div_mod::lemma_fundamental_div_mod(ai, bi);
        vstd::arithmetic::div_mod::lemma_fundamental_div_mod(xi, yi);
        assert(yi * (x as int / y as int) == yi * (q as int));
        if xi % yi == 0 {
            assert(xi == yi * q as int);
            let c: int = if (ai < 0) == (bi < 0) {
                q as int
            } else {
                -(q as int)
            };
            assert(ai == bi * c) by (nonlinear_arith)
                requires
                    xi == yi * q as int,
                    xi == if ai < 0 { -ai } else { ai },
                    yi == if bi < 0 { -bi } else { bi },
                    c == if (ai < 0) == (bi < 0) { q as int } else { -(q as int) },
            ;
            lemma_exact_division(ai, bi, c);
        } else {
            if ai % bi == 0 {
                let d = ai / bi;
                assert(ai == bi * d);
                let e: int = if (ai < 0) == (bi < 0) {
                    d
                } else {
                    -d
                };
                assert(xi == yi * e) by (nonlinear_arith)
                    requires
                        ai == bi * d,
                        xi == if ai < 0 { -ai } else { ai },
                        yi == if bi < 0 { -bi } else { bi },
                        e == if (ai < 0) == (bi < 0) { d } else { -d },
                ;
                lemma_exact_division(xi, yi, e);
            }
        }
    }
    if x % y == 0 {
        assert(q <= x) by (nonlinear_arith)
            requires
                q == x / y,
                y > 0,
        ;
        if (a < 0) == (b < 0) {
            Some(q as i128)
        } else {
            Some(-(q as i128))
        }
    } else {
        None
    }
}

/// A product divides by its factor without remainder.
proof fn lemma_exact_division(a: int, b: int, c: int)
    requires
        b != 0,
        a == b * c,
    ensures
        a % b == 0,
        a / b == c,
{
    vstd::arithmetic::div_mod::lemma_fundamental_div_mod(a, b);
    let q = a / b;
    let m = a % b;
    assert(0 <= m && (m < b || m < -b)) by (nonlinear_arith)
        requires
            b != 0,
            m == a % b,
    ;
    assert(m == 0 && q == c) by (nonlinear_arith)
        requires
            a == b * q + m,
            a == b * c,
            b != 0,
            0 <= m,
            m < b || m < -b,
    ;
}

fn compute(op: ArithOp, left: Number, right: Number) -> (r: Resolved)
    ensures
        r@ == arithmetic(op, left, right),
{
    if op == ArithOp::Divide && is_zero(right) {
        return Resolved::Value(Value::Null);
    }
    if let (Some(a), Some(b)) = (integer_of(left), integer_of(right)) {
        if is_exact(a) && is_exact(b) {
            let c: Option<i128> = match op {
                ArithOp::Add => Some(a + b),
                ArithOp::Subtract => Some(a - b),
                ArithOp::Multiply => {
                    assert(-0x400_0000_0000_0000_0000_0000_0000 <= a * b
                        <= 0x400_0000_0000_0000_0000_0000_0000) by (nonlinear_arith)
                        requires
                            exact(a as int),
                            exact(b as int),
                    ;
                    Some(a * b)
                },
                ArithOp::Divide => exact_quotient(a, b),
            };
            if let Some(n) = c {
                if is_exact(n) {
                    return Resolved::Value(Value::Number(to_number(n)));
                }
            }
        }
    }
    Resolved::Arithmetic { op, left, right }
}

/// The number that an operand stands for: a literal number, or what a path
/// reads; nothing counts as zero, and anything else is no number.
pub open spec fn operand(
    v: Json,
    arguments: Json,
    context: Json,
    input: Json,
    output: Json,
) -> Option<Number> {
    let resolved = match v {
        Json::String(s) => match scope_value(s, arguments, context, input, Some(output)) {
            Some(x) => x,
            None => Json::Null,
        },
        other => other,
    };
    match resolved {
        Json::Null => Some(Number::PosInt(0)),
        Json::Number(n) => Some(n),
        _ => None,
    }
}

/// The first `n` operands, when each of them is a number.
pub open spec fn operands(
    items: Seq<Json>,
    n: int,
    arguments: Json,
    context: Json,
    input: Json,
    output: Json,
) -> Option<Seq<Number>>
    decreases n,
{
    if n <= 0 {
        Some(Seq::empty())
    } else {
        match (
            operands(items, n - 1, arguments, context, input, output),
            operand(items[n - 1], arguments, context, input, output),
        ) {
            (Some(before), Some(x)) => Some(before.push(x)),
            _ => None,
        }
    }
}

fn resolve_operand(
    v: &Value,
    arguments: &Value,
    context: &Value,
    workflow_input: &Value,
    executor_output: &Value,
) -> (r: Option<Number>)
    ensures
        r == operand(v@, arguments@, context@, workflow_input@, executor_output@),
{
    match v {
        Value::String(s) => match read_in_scopes(
            s.as_str(),
            arguments,
            context,
            workflow_input,
            Some(executor_output),
        ) {
            Some(x) => number_or_zero(&x),
            None => Some(Number::PosInt(0)),
        },
        other => number_or_zero(other),
    }
}

fn number_or_zero(v: &Value) -> (r: Option<Number>)
    ensures
        r == match v@ {
            Json::Null => Some(Number::PosInt(0)),
            Json::Number(n) => Some(n),
            _ => None::<Number>,
        },
{
    match v {
        Value::Null => Some(Number::PosInt(0)),
        Value::Number(n) => Some(*n),
        _ => None,
    }
}

/// A prefix of operands that is not all numbers leaves none for the whole.
proof fn lemma_operands_none(
    items: Seq<Json>,
    i: int,
    n: int,
    arguments: Json,
    context: Json,
    input: Json,
    output: Json,
)
    requires
        0 <= i <= n,
        operands(items, i, arguments, context, input, output) is None,
    ensures
        operands(items, n, arguments, context, input, output) is None,
    decreases n - i,
{
    if i < n {
        lemma_operands_none(items, i + 1, n, arguments, context, input, output);
    }
}

fn resolve_operands(
    spec_value: &Value,
    arguments: &Value,
    context: &Value,
    workflow_input: &Value,
    executor_output: &Value,
) -> (r: Option<Vec<Number>>)
    ensures
        match (r, spec_value@) {
            (Some(v), Json::Array(items)) => operands(
                items,
                items.len() as int,
                arguments@,
                context@,
                workflow_input@,
                executor_output@,
            ) == Some(v@),
            (None, Json::Array(items)) => operands(
                items,
                items.len() as int,
                arguments@,
                context@,
                workflow_input@,
                executor_output@,
            ) is None,
            (r, _) => r is None,
        },
{
    let items = match spec_value {
        Value::Array(v) => v,
        _ => {
            return None;
        },
    };
    let ghost seq = json::views(items@);
    let mut out: Vec<Number> = Vec::new();
    let mut i: usize = 0;
    while i < items.len()
        invariant
            i <= items.len(),
            seq == json::views(items@),
            spec_value@ == Json::Array(seq),
            operands(seq, i as int, arguments@, context@, workflow_input@, executor_output@)
                == Some(out@),
        decreases items.len() - i,
    {
        match resolve_operand(&items[i], arguments, context, workflow_input, executor_output) {
            Some(n) => {
                out.push(n);
            },
            None => {
                proof {
                    lemma_operands_none(
                        seq,
                        i + 1,
                        seq.len() as int,
                        arguments@,
                        context@,
                        workflow_input@,
                        executor_output@,
                    );
                }
                return None;
            },
        }
        i = i + 1;
    }
    Some(out)
}

/// The text of a value inside a concatenation, when no serializer is needed.
pub open spec fn plain_text(v: Json) -> Option<Seq<char>> {
    match v {
        Json::String(s) => Some(s),
        Json::Number(Number::PosInt(n)) => Some(text::decimal(n as nat)),
        Json::Number(Number::NegInt(i)) => Some(
            if i < 0 {
                "-"@ + text::decimal((-i) as nat)
            } else {
                text::decimal(i as nat)
            },
        ),
        Json::Bool(b) => Some(
            if b {
                "true"@
            } else {
                "false"@
            },
        ),
        Json::Null => Some("null"@),
        _ => None,
    }
}

/// The text of a value inside a concatenation, when no serializer is needed.
pub fn plain_text_of(v: &Value) -> (r: Option<String>)
    ensures
        text::opt_text(r) == plain_text(v@),
{
    match v {
        Value::String(s) => Some(s.clone()),
        Value::Number(Number::PosInt(n)) => Some(text::decimal_of(*n)),
        Value::Number(Number::NegInt(i)) => {
            if *i < 0 {
                let m: u64 = (-(*i as i128)) as u64;
                let d = text::decimal_of(m);
                Some(text::join2("-", d.as_str()))
            } else {
                Some(text::decimal_of(*i as u64))
            }
        },
        Value::Bool(b) => if *b {
            Some("true".to_owned())
        } else {
            Some("false".to_owned())
        },
        Value::Null => Some("null".to_owned()),
        _ => None,
    }
}

/// The text of a resolved part, when no more computation is needed for it.
pub open spec fn part_text(p: ResolvedView) -> Option<Seq<char>> {
    match p {
        ResolvedView::Value(v) => plain_text(v),
        _ => None,
    }
}

/// The text of the first `n` parts, when each has one.
pub open spec fn joined(parts: Seq<ResolvedView>, n: int) -> Option<Seq<char>>
    decreases n,
{
    if n <= 0 {
        Some(Seq::empty())
    } else {
        match (joined(parts, n - 1), part_text(parts[n - 1])) {
            (Some(a), Some(b)) => Some(a + b),
            _ => None,
        }
    }
}

/// A concatenation: its text where every part has one, otherwise the parts.
pub open spec fn concatenation(parts: Seq<ResolvedView>) -> ResolvedView {
    match joined(parts, parts.len() as int) {
        Some(s) => ResolvedView::Value(Json::String(s)),
        None => ResolvedView::Concat(parts),
    }
}

/// The arithmetic operator that a key names.
pub open spec fn arith_op(name: Seq<char>) -> Option<ArithOp> {
    if name == "add"@ {
        Some(ArithOp::Add)
    } else if name == "subtract"@ {
        Some(ArithOp::Subtract)
    } else if name == "multiply"@ {
        Some(ArithOp::Multiply)
    } else if name == "divide"@ {
        Some(ArithOp::Divide)
    } else {
        None
    }
}

fn arith_op_of(name: &str) -> (r: Option<ArithOp>)
    ensures
        r == arith_op(name@),
{
    if text::str_eq(name, "add") {
        Some(ArithOp::Add)
    } else if text::str_eq(name, "subtract") {
        Some(ArithOp::Subtract)
    } else if text::str_eq(name, "multiply") {
        Some(ArithOp::Multiply)
    } else if text::str_eq(name, "divide") {
        Some(ArithOp::Divide)
    } else {
        None
    }
}

/// Strings that begin with `$.`, and `$` itself, are paths.
pub open spec fn is_path(s: Seq<char>) -> bool {
    "$."@.is_prefix_of(s) || s == "$"@
}

/// What each of the mapping values resolves to.
pub open spec fn resolutions(
    items: Seq<Json>,
    arguments: Json,
    context: Json,
    input: Json,
    output: Json,
) -> Seq<ResolvedView>
    decreases items,
{
    Seq::new(
        items.len(),
        |i: int|
            if 0 <= i < items.len() {
                resolution(items[i], arguments, context, input, output)
            } else {
                ResolvedView::Value(Json::Null)
            },
    )
}

/// What a mapping value resolves to.
pub open spec fn resolution(
    spec_value: Json,
    arguments: Json,
    context: Json,
    input: Json,
    output: Json,
) -> ResolvedView
    decreases spec_value,
{
    match spec_value {
        Json::String(s) => if is_path(s) {
            ResolvedView::Value(
                match scope_value(s, arguments, context, input, Some(output)) {
                    Some(v) => v,
                    None => Json::Null,
                },
            )
        } else {
            ResolvedView::Value(spec_value)
        },
        Json::Object(e) => if e.len() == 1 {
            let op = e[0].0;
            let args = e[0].1;
            if op == "set"@ {
                ResolvedView::Value(args)
            } else if arith_op(op) is Some {
                match args {
                    Json::Array(items) => match operands(
                        items,
                        items.len() as int,
                        arguments,
                        context,
                        input,
                        output,
                    ) {
                        Some(nums) => if nums.len() == 2 {
                            arithmetic(arith_op(op)->0, nums[0], nums[1])
                        } else {
                            ResolvedView::Value(Json::Null)
                        },
                        None => ResolvedView::Value(Json::Null),
                    },
                    _ => ResolvedView::Value(Json::Null),
                }
            } else if op == "concat"@ {
                match args {
                    Json::Array(items) => concatenation(
                        resolutions(items, arguments, context, input, output),
                    ),
                    _ => ResolvedView::Value(Json::Null),
                }
            } else {
                ResolvedView::Value(spec_value)
            }
        } else {
            ResolvedView::Value(spec_value)
        },
        other => ResolvedView::Value(other),
    }
}

/// Resolves a mapping value against the scopes.
pub fn resolve_value(
    spec_value: &Value,
    arguments: &Value,
    context: &Value,
    workflow_input: &Value,
    executor_output: &Value,
) -> (r: Resolved)
    ensures
        r@ == resolution(spec_value@, arguments@, context@, workflow_input@, executor_output@),
    decreases spec_value,
{
    match spec_value {
        Value::String(s) => {
            if text::starts_with(s.as_str(), "$.") || text::str_eq(s.as_str(), "$") {
                match read_in_scopes(
                    s.as_str(),
                    arguments,
                    context,
                    workflow_input,
                    Some(executor_output),
                ) {
                    Some(v) => Resolved::Value(v),
                    None => Resolved::Value(Value::Null),
                }
            } else {
                Resolved::Value(spec_value.dup())
            }
        },
        Value::Object(obj) => {
            if obj.len() != 1 {
                return Resolved::Value(spec_value.dup());
            }
            let op = obj[0].0.as_str();
            let args = &obj[0].1;
            proof {
                assert(json::entries(obj@)[0] == (op@, args@));
            }
            if text::str_eq(op, "set") {
                return Resolved::Value(args.dup());
            }
            if let Some(o) = arith_op_of(op) {
                return match resolve_operands(
                    args,
                    arguments,
                    context,
                    workflow_input,
                    executor_output,
                ) {
                    Some(nums) => if nums.len() == 2 {
                        compute(o, nums[0], nums[1])
                    } else {
                        Resolved::Value(Value::Null)
                    },
                    None => Resolved::Value(Value::Null),
                };
            }
            if text::str_eq(op, "concat") {
                proof {
                    assert(decreases_to!(*spec_value => spec_value->Object_0));
                    assert(decreases_to!(*obj => obj@));
                    assert(decreases_to!(obj@ => obj@[0]));
                    assert(decreases_to!(obj@[0] => obj@[0].1));
                }
                return match args {
                    Value::Array(items) => resolve_parts(
                        args,
                        items,
                        arguments,
                        context,
                        workflow_input,
                        executor_output,
                    ),
                    _ => Resolved::Value(Value::Null),
                };
            }
            Resolved::Value(spec_value.dup())
        },
        other => Resolved::Value(other.dup()),
    }
}

/// Resolves and concatenates the parts of a concatenation.
fn resolve_parts(
    args: &Value,
    items: &Vec<Value>,
    arguments: &Value,
    context: &Value,
    workflow_input: &Value,
    executor_output: &Value,
) -> (r: Resolved)
    requires
        *args == Value::Array(*items),
    ensures
        r@ == concatenation(
            resolutions(json::views(items@), arguments@, context@, workflow_input@, executor_output@),
        ),
    decreases args,
{
    let ghost all = resolutions(
        json::views(items@),
        arguments@,
        context@,
        workflow_input@,
        executor_output@,
    );
    let mut parts: Vec<Resolved> = Vec::new();
    let mut out: Option<String> = Some(String::new());
    let mut i: usize = 0;
    while i < items.len()
        invariant
            i <= items.len(),
            *args == Value::Array(*items),
            all == resolutions(
                json::views(items@),
                arguments@,
                context@,
                workflow_input@,
                executor_output@,
            ),
            resolved_views(parts@) == all.take(i as int),
            text::opt_text(out) == joined(all, i as int),
        decreases items.len() - i,
    {
        proof {
            assert(decreases_to!(*args => args->Array_0));
            assert(decreases_to!(*items => items@));
            assert(decreases_to!(items@ => items@[i as int]));
        }
        let p = resolve_value(&items[i], arguments, context, workflow_input, executor_output);
        assert(p@ == all[i as int]);
        let t: Option<String> = match &p {
            Resolved::Value(v) => plain_text_of(v),
            _ => None,
        };
        assert(text::opt_text(t) == part_text(p@));
        out = match (out, t) {
            (Some(a), Some(b)) => Some(text::join2(a.as_str(), b.as_str())),
            _ => None,
        };
        proof {
            assert(resolved_views(parts@.push(p)) =~= resolved_views(parts@).push(p@));
        }
        parts.push(p);
        i = i + 1;
    }
    assert(all.take(i as int) =~= all);
    match out {
        Some(s) => Resolved::Value(Value::String(s)),
        None => Resolved::Concat(parts),
    }
}

/// The text of the given parts in a row.
pub open spec fn all_text(parts: Seq<Seq<char>>) -> Seq<char>
    decreases parts.len(),
{
    if parts.len() == 0 {
        Seq::empty()
    } else {
        all_text(parts.drop_last()) + parts.last()
    }
}

/// The value of a concatenation, from the rendered text of each of its parts.
pub fn concat_value(parts: &Vec<String>) -> (r: Value)
    ensures
        r@ == Json::String(all_text(text::texts(parts@))),
{
    let mut out: String = String::new();
    let mut i: usize = 0;
    while i < parts.len()
        invariant
            i <= parts.len(),
            out@ == all_text(text::texts(parts@).take(i as int)),
        decreases parts.len() - i,
    {
        assert(text::texts(parts@).take(i + 1).drop_last() =~= text::texts(parts@).take(i as int));
        out = text::join2(out.as_str(), parts[i].as_str());
        i = i + 1;
    }
    assert(text::texts(parts@).take(i as int) =~= text::texts(parts@));
    Value::String(out)
}

/// The resolved entries of a mapping.
pub open spec fn pending_views(s: Seq<(String, Resolved)>) -> Seq<(Seq<char>, ResolvedView)> {
    Seq::new(s.len(), |i: int| (s[i].0@, s[i].1@))
}

/// What each entry of an output mapping resolves to, against the context as it
/// was before any of them is written.
pub open spec fn output_resolution(
    mapping: Seq<(Seq<char>, Json)>,
    arguments: Json,
    context: Json,
    input: Json,
    output: Json,
) -> Seq<(Seq<char>, ResolvedView)> {
    Seq::new(
        mapping.len(),
        |i: int| (mapping[i].0, resolution(mapping[i].1, arguments, context, input, output)),
    )
}

/// Resolves every entry of an output mapping; `None` when there is no mapping.
pub fn plan_output(
    context: &Value,
    mapping: Option<&Value>,
    arguments: &Value,
    workflow_input: &Value,
    executor_output: &Value,
) -> (r: Option<Vec<(String, Resolved)>>)
    ensures
        match (r, json::opt_view(mapping)) {
            (Some(v), Some(Json::Object(e))) => pending_views(v@) == output_resolution(
                e,
                arguments@,
                context@,
                workflow_input@,
                executor_output@,
            ),
            (r, Some(Json::Object(e))) => false,
            (r, _) => r is None,
        },
{
    let m = match mapping {
        Some(Value::Object(m)) => m,
        _ => {
            return None;
        },
    };
    let ghost e = json::entries(m@);
    let ghost all = output_resolution(
        e,
        arguments@,
        context@,
        workflow_input@,
        executor_output@,
    );
    let mut out: Vec<(String, Resolved)> = Vec::new();
    let mut i: usize = 0;
    while i < m.len()
        invariant
            i <= m.len(),
            e == json::entries(m@),
            all == output_resolution(
                e,
                arguments@,
                context@,
                workflow_input@,
                executor_output@,
            ),
            pending_views(out@) == all.take(i as int),
        decreases m.len() - i,
    {
        let k = m[i].0.clone();
        let v = resolve_value(&m[i].1, arguments, context, workflow_input, executor_output);
        assert(e[i as int] == (m@[i as int].0@, m@[i as int].1@));
        proof {
            assert(pending_views(out@.push((k, v))) =~= pending_views(out@).push((k@, v@)));
        }
        out.push((k, v));
        i = i + 1;
    }
    assert(all.take(i as int) =~= all);
    Some(out)
}

/// The context with the first `n` values written to it, in order.
pub open spec fn written(context: Json, values: Seq<(Seq<char>, Json)>, n: int) -> Json
    decreases n,
{
    if n <= 0 {
        context
    } else {
        written(context, values, n - 1).with(values[n - 1].0, values[n - 1].1)
    }
}

/// Writes the values of an output mapping to the workflow's context; `None`
/// stands for no mapping, which changes nothing. A context that is no object
/// takes no output.
pub fn merge_output(context: &mut Value, values: Option<Vec<(String, Value)>>) -> (r: Result<
    (),
    String,
>)
    ensures
        match values {
            None => r is Ok && final(context)@ == old(context)@,
            Some(v) => if old(context)@ is Object {
                &&& r is Ok
                &&& final(context)@ == written(
                    old(context)@,
                    json::entries(v@),
                    v@.len() as int,
                )
            } else {
                &&& r matches Err(m) && m@ == "workflow context must be an object"@
                &&& final(context)@ == old(context)@
            },
        },
{
    let v = match values {
        None => {
            return Ok(());
        },
        Some(v) => v,
    };
    if !context.is_object() {
        return Err("workflow context must be an object".to_owned());
    }
    let ghost before = context@;
    let ghost e = json::entries(v@);
    let mut i: usize = 0;
    while i < v.len()
        invariant
            i <= v.len(),
            e == json::entries(v@),
            context@ == written(before, e, i as int),
        decreases v.len() - i,
    {
        let x = v[i].1.dup();
        assert(e[i as int] == (v@[i as int].0@, v@[i as int].1@));
        context.set(v[i].0.as_str(), x);
        i = i + 1;
    }
    Ok(())
}

/// An increment counts: adding integers that are small enough to be exact gives
/// their sum, and an operand that reads nothing counts as zero.
pub proof fn law_add_exact(
    a: Json,
    b: Json,
    arguments: Json,
    context: Json,
    input: Json,
    output: Json,
)
    requires
        operand(a, arguments, context, input, output) is Some,
        operand(b, arguments, context, input, output) is Some,
        integer(operand(a, arguments, context, input, output)->0) is Some,
        integer(operand(b, arguments, context, input, output)->0) is Some,
        exact(integer(operand(a, arguments, context, input, output)->0)->0),
        exact(integer(operand(b, arguments, context, input, output)->0)->0),
        exact(
            integer(operand(a, arguments, context, input, output)->0)->0 + integer(
                operand(b, arguments, context, input, output)->0,
            )->0,
        ),
    ensures
        resolution(
            Json::Object(seq![("add"@, Json::Array(seq![a, b]))]),
            arguments,
            context,
            input,
            output,
        ) == ResolvedView::Value(
            Json::Number(
                integer_number(
                    integer(operand(a, arguments, context, input, output)->0)->0 + integer(
                        operand(b, arguments, context, input, output)->0,
                    )->0,
                ),
            ),
        ),
{
    let items = seq![a, b];
    reveal_strlit("add");
    reveal_strlit("set");
    assert("add"@[0] != "set"@[0]);
    let x = operand(a, arguments, context, input, output)->0;
    let y = operand(b, arguments, context, input, output)->0;
    assert(operands(items, 0, arguments, context, input, output) == Some(Seq::<Number>::empty()));
    assert(operands(items, 1, arguments, context, input, output) == Some(
        Seq::<Number>::empty().push(x),
    ));
    assert(operands(items, 2, arguments, context, input, output) == Some(
        Seq::<Number>::empty().push(x).push(y),
    ));
}

} // verus!
