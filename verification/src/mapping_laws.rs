//! What pointers, paths and output mappings are for: laws about what they read and write.
use crate::json;
use crate::json::{Json, Number};
use crate::mapping;
use crate::mapping::{ArithOp, ResolvedView};
use crate::text;
use vstd::prelude::*;

verus! {

// ---------------------------------------------------------------------------
// Pointers
// ---------------------------------------------------------------------------

pub proof fn lemma_split_more(s: Seq<char>, p: Seq<char>, c: char)
    requires
        !p.contains(c),
    ensures
        text::split(s, c).len() > 0,
        text::split(s + p, c) == text::split(s, c).drop_last().push(text::split(s, c).last() + p),
    decreases s.len() + p.len(),
{
    if p.len() == 0 {
        assert(s + p =~= s);
        if s.len() > 0 {
            assert(!Seq::<char>::empty().contains(c));
            lemma_split_more(s.drop_last(), Seq::empty(), c);
        }
        let parts = text::split(s, c);
        assert(parts.last() + p =~= parts.last());
        assert(parts.drop_last().push(parts.last()) =~= parts);
    } else {
        let q = p.drop_last();
        assert(!q.contains(c)) by {
            if q.contains(c) {
                let i = choose|i: int| 0 <= i < q.len() && q[i] == c;
                assert(p[i] == c);
            }
        }
        lemma_split_more(s, q, c);
        assert((s + p).drop_last() =~= s + q);
        assert((s + p).last() == p.last());
        assert(p.last() != c) by {
            assert(p[p.len() - 1] == p.last());
        }
        let parts = text::split(s, c);
        let before = text::split(s + q, c);
        assert(before.drop_last() =~= parts.drop_last());
        assert(before.last() == parts.last() + q);
        assert((parts.last() + q).push(p.last()) =~= parts.last() + p);
    }
}

pub proof fn lemma_split_at(s: Seq<char>, c: char)
    ensures
        text::split(s.push(c), c) == text::split(s, c).push(Seq::empty()),
{
    assert(s.push(c).drop_last() =~= s);
}

proof fn lemma_replaced_absent(s: Seq<char>, pat: Seq<char>, t: Seq<char>)
    requires
        pat.len() > 0,
        !s.contains(pat[0]),
    ensures
        text::replaced(s, pat, t) == s,
    decreases s.len(),
{
    if s.len() >= pat.len() {
        if s.take(pat.len() as int) == pat {
            assert(s[0] == pat[0]);
        }
        let rest = s.skip(1);
        assert(!rest.contains(pat[0])) by {
            if rest.contains(pat[0]) {
                let i = choose|i: int| 0 <= i < rest.len() && rest[i] == pat[0];
                assert(s[i + 1] == pat[0]);
            }
        }
        lemma_replaced_absent(rest, pat, t);
        assert(seq![s[0]] + rest =~= s);
    }
}

/// A name that stands in a pointer as it is.
pub open spec fn plain_token(s: Seq<char>) -> bool {
    !s.contains('/') && !s.contains('~')
}

/// A plain token stands for itself.
proof fn lemma_plain_token(s: Seq<char>)
    requires
        plain_token(s),
    ensures
        json::unescaped(s) == s,
{
    reveal_strlit("~1");
    reveal_strlit("~0");
    lemma_replaced_absent(s, "~1"@, "/"@);
    lemma_replaced_absent(s, "~0"@, "~"@);
}

/// A pointer is walked name by name: `/a` leads to what stands under `a`, and `/a/b` to what
/// stands under `b` in that; in an object that is the value of the key.
pub proof fn law_pointers_are_walked(v: Json, a: Seq<char>, b: Seq<char>)
    requires
        plain_token(a),
        plain_token(b),
    ensures
        v.pointer(Seq::empty()) == Some(v),
        v.pointer(seq!['/'] + a) == v.step(a),
        v.pointer(seq!['/'] + a + seq!['/'] + b) == match v.step(a) {
            Some(x) => x.step(b),
            None => None,
        },
        v is Object ==> v.step(a) == v.get(a),
        v matches Json::Array(items) ==> (text::array_index(a) matches Some(n) ==> (n
            < items.len() ==> v.step(a) == Some(items[n as int]))),
{
    reveal(Json::pointer);
    reveal(Json::step);
    reveal(Json::get);
    lemma_plain_token(a);
    lemma_plain_token(b);
    reveal_with_fuel(Json::walk, 4);
    let none = Seq::<char>::empty();
    assert(none.push('/') =~= seq!['/']);
    lemma_split_at(none, '/');
    let first = text::split(seq!['/'], '/');
    assert(first =~= seq![none, none]);
    let p = seq!['/'] + a;
    lemma_split_more(seq!['/'], a, '/');
    let parts = text::split(p, '/');
    assert(none + a =~= a);
    assert(parts =~= seq![none, a]);
    lemma_split_at(p, '/');
    assert(p.push('/') =~= p + seq!['/']);
    lemma_split_more(p + seq!['/'], b, '/');
    assert(none + b =~= b);
    assert(text::split(p + seq!['/'] + b, '/') =~= seq![none, a, b]);
}

// ---------------------------------------------------------------------------
// Paths
// ---------------------------------------------------------------------------

proof fn lemma_replaced_char_absent(s: Seq<char>, c: char, t: Seq<char>)
    requires
        !s.contains(c),
    ensures
        text::replaced_char(s, c, t) == s,
    decreases s.len(),
{
    if s.len() > 0 {
        let q = s.drop_last();
        assert(!q.contains(c)) by {
            if q.contains(c) {
                let i = choose|i: int| 0 <= i < q.len() && q[i] == c;
                assert(s[i] == c);
            }
        }
        lemma_replaced_char_absent(q, c, t);
        assert(s[s.len() - 1] == s.last());
        assert(q.push(s.last()) =~= s);
    }
}

proof fn lemma_replaced_char_sum(a: Seq<char>, b: Seq<char>, c: char, t: Seq<char>)
    ensures
        text::replaced_char(a + b, c, t) == text::replaced_char(a, c, t) + text::replaced_char(
            b,
            c,
            t,
        ),
    decreases b.len(),
{
    if b.len() == 0 {
        assert(a + b =~= a);
        assert(text::replaced_char(a, c, t) + b =~= text::replaced_char(a, c, t));
    } else {
        let q = b.drop_last();
        lemma_replaced_char_sum(a, q, c, t);
        assert((a + b).drop_last() =~= a + q);
        assert((a + b).last() == b.last());
        let (x, y) = (text::replaced_char(a, c, t), text::replaced_char(q, c, t));
        if b.last() == c {
            assert((x + y) + t =~= x + (y + t));
        } else {
            assert((x + y).push(b.last()) =~= x + y.push(b.last()));
        }
    }
}

/// A dotted path is a pointer of its names: `a` stands for `/a`, and `a.b` for the pointer of
/// `a` followed by that of `b`.
pub proof fn law_dotted_paths_are_pointers(a: Seq<char>, b: Seq<char>)
    ensures
        !a.contains('.') ==> mapping::dotted_pointer(a) == seq!['/'] + a,
        mapping::dotted_pointer(a + seq!['.'] + b) == mapping::dotted_pointer(a)
            + mapping::dotted_pointer(b),
{
    reveal_strlit("/");
    assert("/"@ =~= seq!['/']);
    if !a.contains('.') {
        lemma_replaced_char_absent(a, '.', "/"@);
    }
    lemma_replaced_char_sum(a + seq!['.'], b, '.', "/"@);
    lemma_replaced_char_sum(a, seq!['.'], '.', "/"@);
    let dot = seq!['.'];
    assert(dot.drop_last() =~= Seq::empty());
    assert(dot.last() == '.');
    assert(text::replaced_char(dot.drop_last(), '.', "/"@) =~= Seq::empty());
    assert(text::replaced_char(dot, '.', "/"@) =~= "/"@);
    assert(mapping::dotted_pointer(a + dot + b) =~= mapping::dotted_pointer(a)
        + mapping::dotted_pointer(b));
}

/// A path reads the part that it names: the arguments, the context, the input of the workflow
/// or the output of the executor; `$` and `$.output` read the whole output.
pub proof fn law_paths_read_their_scope(
    expr: Seq<char>,
    path: Seq<char>,
    arguments: Json,
    context: Json,
    input: Json,
    output: Json,
)
    ensures
        ({
            let v = mapping::scope_value(expr, arguments, context, input, Some(output));
            let p = mapping::dotted_pointer(path);
            &&& expr == "$.arguments."@ + path ==> v == arguments.pointer(p)
            &&& expr == "$.context."@ + path ==> v == context.pointer(p)
            &&& expr == "$.workflow.input."@ + path ==> v == input.pointer(p)
            &&& expr == "$.output."@ + path ==> v == output.pointer(p)
            &&& expr == "$.output"@ || expr == "$"@ ==> v == Some(output)
        }),
{
    reveal_strlit("$");
    reveal_strlit("$.output");
    reveal_strlit("$.output.");
    reveal_strlit("$.context.");
    reveal_strlit("$.arguments.");
    reveal_strlit("$.workflow.input.");
    let (a, c, w, o) = ("$.arguments."@, "$.context."@, "$.workflow.input."@, "$.output."@);
    assert(a.len() == 12 && a[2] == 'a');
    assert(c.len() == 10 && c[2] == 'c');
    assert(w.len() == 17 && w[2] == 'w');
    assert(o.len() == 9 && o[2] == 'o');
    assert("$"@.len() == 1 && "$.output"@.len() == 8 && "$.output"@[2] == 'o');
    assert(a.is_prefix_of(expr) ==> expr.len() >= 12 && expr[2] == 'a') by {
        if a.is_prefix_of(expr) {
            assert(expr.take(12)[2] == 'a');
        }
    }
    assert(c.is_prefix_of(expr) ==> expr.len() >= 10 && expr[2] == 'c') by {
        if c.is_prefix_of(expr) {
            assert(expr.take(10)[2] == 'c');
        }
    }
    assert(w.is_prefix_of(expr) ==> expr.len() >= 17 && expr[2] == 'w') by {
        if w.is_prefix_of(expr) {
            assert(expr.take(17)[2] == 'w');
        }
    }
    if expr == a + path {
        assert(expr.take(12) =~= a && expr.skip(12) =~= path);
    }
    if expr == c + path {
        assert(expr[2] == 'c');
        assert(expr.take(10) =~= c && expr.skip(10) =~= path);
    }
    if expr == w + path {
        assert(expr[2] == 'w');
        assert(expr.take(17) =~= w && expr.skip(17) =~= path);
    }
    if expr == o + path {
        assert(expr[2] == 'o');
        assert(expr.take(9) =~= o && expr.skip(9) =~= path);
    }
}

/// A mapping value that is no path and no operation stands for itself; a path stands for what
/// it reads, or for null; `set` hands on its value as it is.
pub proof fn law_plain_values_are_kept(
    v: Json,
    arguments: Json,
    context: Json,
    input: Json,
    output: Json,
)
    ensures
        ({
            let r = mapping::resolution(v, arguments, context, input, output);
            &&& v is Null || v is Bool || v is Number || v is Array ==> r == ResolvedView::Value(v)
            &&& v matches Json::String(s) ==> (s.len() == 0 || s[0] != '$' ==> r
                == ResolvedView::Value(v))
            &&& v matches Json::String(s) ==> (s.len() >= 2 && s[0] == '$' && s[1] == '.' ==> r
                == ResolvedView::Value(
                match mapping::scope_value(s, arguments, context, input, Some(output)) {
                    Some(x) => x,
                    None => Json::Null,
                },
            ))
            &&& v matches Json::Object(e) ==> (e.len() != 1 ==> r == ResolvedView::Value(v))
            &&& v matches Json::Object(e) ==> (e.len() == 1 && e[0].0 == "set"@ ==> r
                == ResolvedView::Value(e[0].1))
        }),
{
    reveal_strlit("$.");
    reveal_strlit("$");
    if let Json::String(s) = v {
        if s.len() == 0 || s[0] != '$' {
            if "$."@.is_prefix_of(s) {
                assert(s.take(2)[0] == '$');
            }
        } else if s.len() >= 2 && s[1] == '.' {
            assert(s.take(2) =~= "$."@);
        }
    }
}

/// Arithmetic on whole numbers is exact: where the numbers and the result are small enough to
/// be exact, a sum is the sum, a difference the difference, a product the product, and a
/// quotient without a remainder the quotient; a division by zero gives null.
pub proof fn law_arithmetic_is_exact(op: ArithOp, m: Number, n: Number, a: int, b: int, c: int)
    requires
        m == Number::PosInt(a as u64) && a >= 0 || m == Number::NegInt(a as i64) && a < 0,
        n == Number::PosInt(b as u64) && b >= 0 || n == Number::NegInt(b as i64) && b < 0,
        -0x20_0000_0000_0000 <= a <= 0x20_0000_0000_0000,
        -0x20_0000_0000_0000 <= b <= 0x20_0000_0000_0000,
        -0x20_0000_0000_0000 <= c <= 0x20_0000_0000_0000,
        match op {
            ArithOp::Add => c == a + b,
            ArithOp::Subtract => c == a - b,
            ArithOp::Multiply => c == a * b,
            ArithOp::Divide => b != 0 && c * b == a,
        },
    ensures
        mapping::arithmetic(op, m, n) == ResolvedView::Value(
            Json::Number(
                if c >= 0 {
                    Number::PosInt(c as u64)
                } else {
                    Number::NegInt(c as i64)
                },
            ),
        ),
{
    if op == ArithOp::Divide {
        assert(a % b == 0 && a / b == c) by (nonlinear_arith)
            requires
                b != 0,
                c * b == a,
        ;
    }
}

/// A division by zero gives null, whatever is divided.
pub proof fn law_division_by_zero_gives_null(m: Number)
    ensures
        mapping::arithmetic(ArithOp::Divide, m, Number::PosInt(0)) == ResolvedView::Value(
            Json::Null,
        ),
{
}

/// The operations of a mapping are those that their names say, on their two operands in the
/// order in which they stand.
pub proof fn law_operations_by_name(
    name: Seq<char>,
    a: Json,
    b: Json,
    arguments: Json,
    context: Json,
    input: Json,
    output: Json,
    m: Number,
    n: Number,
)
    requires
        mapping::operand(a, arguments, context, input, output) == Some(m),
        mapping::operand(b, arguments, context, input, output) == Some(n),
    ensures
        ({
            let r = mapping::resolution(
                Json::Object(seq![(name, Json::Array(seq![a, b]))]),
                arguments,
                context,
                input,
                output,
            );
            &&& name == "add"@ ==> r == mapping::arithmetic(ArithOp::Add, m, n)
            &&& name == "subtract"@ ==> r == mapping::arithmetic(ArithOp::Subtract, m, n)
            &&& name == "multiply"@ ==> r == mapping::arithmetic(ArithOp::Multiply, m, n)
            &&& name == "divide"@ ==> r == mapping::arithmetic(ArithOp::Divide, m, n)
        }),
        a matches Json::Number(x) ==> m == x,
        a is Null ==> m == Number::PosInt(0),
{
    reveal_strlit("add");
    reveal_strlit("set");
    reveal_strlit("subtract");
    reveal_strlit("multiply");
    reveal_strlit("divide");
    assert("add"@.len() == 3 && "add"@[0] == 'a' && "set"@.len() == 3 && "set"@[0] == 's');
    assert("subtract"@.len() == 8 && "subtract"@[0] == 's');
    assert("multiply"@.len() == 8 && "multiply"@[0] == 'm');
    assert("divide"@.len() == 6);
    let items = seq![a, b];
    let none = Seq::<Number>::empty();
    assert(mapping::operands(items, 0, arguments, context, input, output) == Some(none));
    assert(mapping::operands(items, 1, arguments, context, input, output) == Some(none.push(m)));
    assert(mapping::operands(items, 2, arguments, context, input, output) == Some(
        none.push(m).push(n),
    ));
}

/// A concatenation of texts is the texts in a row.
pub proof fn law_concatenation(
    a: Seq<char>,
    b: Seq<char>,
    arguments: Json,
    context: Json,
    input: Json,
    output: Json,
)
    requires
        a.len() == 0 || a[0] != '$',
        b.len() == 0 || b[0] != '$',
    ensures
        mapping::resolution(
            Json::Object(
                seq![("concat"@, Json::Array(seq![Json::String(a), Json::String(b)]))],
            ),
            arguments,
            context,
            input,
            output,
        ) == ResolvedView::Value(Json::String(a + b)),
{
    reveal_strlit("add");
    reveal_strlit("set");
    reveal_strlit("subtract");
    reveal_strlit("multiply");
    reveal_strlit("divide");
    reveal_strlit("concat");
    assert("concat"@.len() == 6 && "concat"@[0] == 'c');
    assert("divide"@.len() == 6 && "divide"@[0] == 'd');
    assert("add"@.len() == 3 && "set"@.len() == 3 && "subtract"@.len() == 8 && "multiply"@.len()
        == 8);
    let items = seq![Json::String(a), Json::String(b)];
    law_plain_values_are_kept(items[0], arguments, context, input, output);
    law_plain_values_are_kept(items[1], arguments, context, input, output);
    let parts = mapping::resolutions(items, arguments, context, input, output);
    assert(parts.len() == 2);
    assert(parts[0] == ResolvedView::Value(items[0]));
    assert(parts[1] == ResolvedView::Value(items[1]));
    reveal_with_fuel(mapping::joined, 3);
    assert(Seq::<char>::empty() + a =~= a);
    assert(mapping::joined(parts, 1) == Some(Seq::<char>::empty() + a));
    assert(mapping::joined(parts, 2) == Some(Seq::<char>::empty() + a + b));
}

// ---------------------------------------------------------------------------
// Outputs
// ---------------------------------------------------------------------------

/// Every entry of an output mapping is resolved under its own key, all of them against the
/// context as it was before any of them is written.
pub proof fn law_outputs_are_resolved_by_key(
    entries: Seq<(Seq<char>, Json)>,
    arguments: Json,
    context: Json,
    input: Json,
    output: Json,
    k: int,
)
    requires
        0 <= k < entries.len(),
    ensures
        ({
            let r = mapping::output_resolution(entries, arguments, context, input, output);
            &&& r.len() == entries.len()
            &&& r[k].0 == entries[k].0
            &&& r[k].1 == mapping::resolution(entries[k].1, arguments, context, input, output)
        }),
{
}

/// Writing an output changes the slots that it names, each to its last value, and no other
/// slot.
pub proof fn law_outputs_are_written(
    context: Json,
    values: Seq<(Seq<char>, Json)>,
    n: int,
    key: Seq<char>,
)
    requires
        context is Object,
        0 <= n <= values.len(),
    ensures
        ({
            let c = mapping::written(context, values, n);
            &&& c is Object
            &&& (forall|k: int| 0 <= k < n ==> (#[trigger] values[k]).0 != key) ==> c.get(key)
                == context.get(key)
            &&& forall|k: int|
                0 <= k < n && (#[trigger] values[k]).0 == key && (forall|h: int|
                    k < h < n ==> (#[trigger] values[h]).0 != key) ==> c.get(key) == Some(
                    values[k].1,
                )
        }),
    decreases n,
{
    json::lemma_reads();
    if n > 0 {
        law_outputs_are_written(context, values, n - 1, key);
        let last = values[n - 1];
        if last.0 != key {
            assert forall|k: int|
                0 <= k < n && (#[trigger] values[k]).0 == key && (forall|h: int|
                    k < h < n ==> (#[trigger] values[h]).0 != key) implies mapping::written(
                context,
                values,
                n,
            ).get(key) == Some(values[k].1) by {
                assert(k < n - 1);
            }
        }
    }
}

} // verus!
