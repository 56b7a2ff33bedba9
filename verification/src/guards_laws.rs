//! What guards are for: laws about comparisons, operands, groups of guards and evidence.
use crate::guards;
use crate::guards::{
    AnswerView, GuardErrorView, Literal, NumericRelation, Operator, Order, Quote, Scope,
    VerdictView,
};
use crate::json::{Json, Number};
use crate::model::EvidenceView;
use crate::text;
use vstd::prelude::*;

verus! {

// ---------------------------------------------------------------------------
// Comparisons
// ---------------------------------------------------------------------------

/// The relation between two numbers, seen from the other one.
pub open spec fn mirrored(r: NumericRelation) -> NumericRelation {
    NumericRelation {
        order: match r.order {
            Order::Less => Order::Greater,
            Order::Equal => Order::Equal,
            Order::Greater => Order::Less,
        },
        close: r.close,
    }
}

/// Numbers are compared as numbers are: one is greater than another exactly where it comes
/// after it, less where it comes before it, at least where it is not less, at most where it
/// is not greater, and equal where the two are close. Turning a comparison round turns the
/// relation round.
pub proof fn law_numbers_are_ordered(m: Number, n: Number, r: NumericRelation)
    ensures
        ({
            let (a, b) = (Json::Number(m), Json::Number(n));
            &&& guards::holds(a, Operator::Greater, b, r) <==> r.order == Order::Greater
            &&& guards::holds(a, Operator::Less, b, r) <==> r.order == Order::Less
            &&& guards::holds(a, Operator::GreaterEqual, b, r) <==> !guards::holds(
                a,
                Operator::Less,
                b,
                r,
            )
            &&& guards::holds(a, Operator::LessEqual, b, r) <==> !guards::holds(
                a,
                Operator::Greater,
                b,
                r,
            )
            &&& guards::holds(a, Operator::Equal, b, r) <==> r.close
            &&& guards::holds(a, Operator::NotEqual, b, r) <==> !guards::holds(
                a,
                Operator::Equal,
                b,
                r,
            )
            &&& guards::holds(a, Operator::Greater, b, r) <==> guards::holds(
                b,
                Operator::Less,
                a,
                mirrored(r),
            )
            &&& guards::holds(a, Operator::GreaterEqual, b, r) <==> guards::holds(
                b,
                Operator::LessEqual,
                a,
                mirrored(r),
            )
            &&& guards::holds(a, Operator::Equal, b, r) <==> guards::holds(
                b,
                Operator::Equal,
                a,
                mirrored(r),
            )
            &&& !guards::holds(a, Operator::Contains, b, r)
            &&& !guards::holds(a, Operator::StartsWith, b, r)
        }),
{
}

/// A text contains another exactly where it is that text with something before and after it,
/// and starts with another exactly where it is that text with something after it.
pub proof fn law_texts_are_searched(a: Seq<char>, b: Seq<char>, r: NumericRelation)
    ensures
        guards::holds(Json::String(a), Operator::Contains, Json::String(b), r) <==> exists|
            front: Seq<char>,
            back: Seq<char>,
        |
            a == #[trigger] (front + b + back),
        guards::holds(Json::String(a), Operator::StartsWith, Json::String(b), r) <==> exists|
            back: Seq<char>,
        |
            a == #[trigger] (b + back),
{
    if guards::holds(Json::String(a), Operator::Contains, Json::String(b), r) {
        let i = choose|i: int| text::occurs_at(a, b, i);
        assert(a =~= a.take(i) + b + a.skip(i + b.len()));
    }
    if exists|front: Seq<char>, back: Seq<char>| a == #[trigger] (front + b + back) {
        let (front, back) = choose|front: Seq<char>, back: Seq<char>|
            a == #[trigger] (front + b + back);
        assert(a.subrange(front.len() as int, (front.len() + b.len()) as int) =~= b);
        assert(text::occurs_at(a, b, front.len() as int));
    }
    if guards::holds(Json::String(a), Operator::StartsWith, Json::String(b), r) {
        assert(a =~= b + a.skip(b.len() as int));
    }
    if exists|back: Seq<char>| a == #[trigger] (b + back) {
        let back = choose|back: Seq<char>| a == #[trigger] (b + back);
        assert(a.take(b.len() as int) =~= b);
    }
}

// ---------------------------------------------------------------------------
// Expressions
// ---------------------------------------------------------------------------

/// A text holds no quote and none of the signs that operators are made of.
pub open spec fn signless(s: Seq<char>) -> bool {
    forall|i: int|
        0 <= i < s.len() ==> #[trigger] s[i] != '"' && s[i] != '\'' && s[i] != '<' && s[i] != '>'
            && s[i] != '=' && s[i] != '!'
}

/// Without a quote no position is quoted.
proof fn lemma_unquoted(s: Seq<char>, i: int)
    requires
        i <= s.len(),
        forall|j: int| 0 <= j < s.len() ==> #[trigger] s[j] != '"' && s[j] != '\'',
    ensures
        guards::quote_at(s, i) == Quote::Outside,
    decreases i,
{
    if i > 0 {
        lemma_unquoted(s, i - 1);
    }
}

/// Where a text occurs, its characters stand.
proof fn lemma_occurs_char(s: Seq<char>, sub: Seq<char>, i: int, m: int)
    requires
        text::occurs_at(s, sub, i),
        0 <= m < sub.len(),
    ensures
        s[i + m] == sub[m],
{
    assert(s.subrange(i, i + sub.len())[m] == s[i + m]);
}

/// An operator is not found where its signs stand nowhere together.
proof fn lemma_sign_absent(s: Seq<char>, needle: Seq<char>)
    requires
        needle.len() == 1 || needle.len() == 2,
        forall|i: int|
            0 <= i && i + needle.len() <= s.len() ==> !(#[trigger] s[i] == needle[0] && s[i
                + needle.len() - 1] == needle[needle.len() - 1]),
    ensures
        guards::outside_position(s, needle) is None,
{
    if exists|i: int| guards::first_outside(s, needle, i) {
        let i = choose|i: int| guards::first_outside(s, needle, i);
        lemma_occurs_char(s, needle, i, 0);
        lemma_occurs_char(s, needle, i, needle.len() - 1);
        assert(s[i] == needle[0]);
    }
}

/// An operator is not found where its word does not occur.
proof fn lemma_word_absent(s: Seq<char>, needle: Seq<char>)
    requires
        !text::has_sub(s, needle),
    ensures
        guards::outside_position(s, needle) is None,
{
    if exists|i: int| guards::first_outside(s, needle, i) {
        let i = choose|i: int| guards::first_outside(s, needle, i);
        assert(text::occurs_at(s, needle, i));
    }
}

/// An operator is found after a text that holds none of its signs.
proof fn lemma_sign_found(l: Seq<char>, needle: Seq<char>, r: Seq<char>)
    requires
        signless(l),
        signless(r),
        0 < needle.len(),
        forall|i: int| 0 <= i < l.len() ==> #[trigger] l[i] != needle[0],
        forall|i: int| 0 <= i < needle.len() ==> #[trigger] needle[i] != '"' && needle[i] != '\'',
    ensures
        guards::outside_position(l + needle + r, needle) == Some(l.len() as int),
{
    let s = l + needle + r;
    let p = l.len() as int;
    assert(s.subrange(p, p + needle.len()) =~= needle);
    assert forall|j: int| 0 <= j < s.len() implies #[trigger] s[j] != '"' && s[j] != '\'' by {
        if j < p {
            assert(s[j] == l[j]);
        } else if j < p + needle.len() {
            assert(s[j] == needle[j - p]);
        } else {
            assert(s[j] == r[j - p - needle.len()]);
        }
    }
    lemma_unquoted(s, p);
    assert(s[p] == needle[0]);
    assert(guards::stands_outside(s, needle, p));
    assert forall|j: int| 0 <= j < p implies !guards::stands_outside(s, needle, j) by {
        if text::occurs_at(s, needle, j) {
            lemma_occurs_char(s, needle, j, 0);
            assert(s[j] == l[j]);
        }
    }
    guards::lemma_outside_position(s, needle, p);
}

/// An expression of two sides round an operator is read as that comparison, with the white
/// space round its sides taken off: `a <= b` is no comparison by `<`, and `a != b` none by
/// equality.
#[verifier::rlimit(30)]
pub proof fn law_expressions_are_read(l: Seq<char>, op: Operator, r: Seq<char>)
    requires
        signless(l),
        signless(r),
        !(op is Contains) && !(op is StartsWith),
        !text::has_sub(l + op.token_text() + r, "contains"@),
        !text::has_sub(l + op.token_text() + r, "starts_with"@),
    ensures
        guards::parsed_from(l + op.token_text() + r, 0) == Some(
            (text::trimmed(l), op, text::trimmed(r)),
        ),
        op.token_text() == match op {
            Operator::LessEqual => "<="@,
            Operator::GreaterEqual => ">="@,
            Operator::Equal => "=="@,
            Operator::NotEqual => "!="@,
            Operator::Less => "<"@,
            _ => ">"@,
        },
{
    reveal_strlit("<=");
    reveal_strlit(">=");
    reveal_strlit("==");
    reveal_strlit("!=");
    reveal_strlit("<");
    reveal_strlit(">");
    reveal_with_fuel(guards::parsed_from, 9);
    let t = op.token_text();
    let s = l + t + r;
    let p = l.len() as int;
    lemma_word_absent(s, "starts_with"@);
    lemma_word_absent(s, "contains"@);
    assert forall|i: int| 0 <= i < s.len() implies #[trigger] s[i] == (if i < p {
        l[i]
    } else if i < p + t.len() {
        t[i - p]
    } else {
        r[i - p - t.len()]
    }) by {}
    lemma_sign_found(l, t, r);
    if !(op is LessEqual) {
        lemma_sign_absent(s, "<="@);
        if !(op is GreaterEqual) {
            lemma_sign_absent(s, ">="@);
            if !(op is Equal) {
                lemma_sign_absent(s, "=="@);
                if !(op is NotEqual) {
                    lemma_sign_absent(s, "!="@);
                    if !(op is Less) {
                        lemma_sign_absent(s, "<"@);
                    }
                }
            }
        }
    }
    assert(s.take(p) =~= l);
    assert(s.skip(p + t.len()) =~= r);
}

/// An expression is judged by the values of its two sides: values that are not both numbers
/// at once, and numbers by the relation that is answered for them.
pub proof fn law_expressions_compare_their_sides(
    expr: Seq<char>,
    scope: Scope,
    answers: Seq<AnswerView>,
    k: int,
    left: Seq<char>,
    op: Operator,
    right: Seq<char>,
    ll: Literal,
    rl: Literal,
    a: Json,
    b: Json,
)
    requires
        0 <= k < answers.len(),
        guards::parsed_from(expr, 0) == Some((left, op, right)),
        answers[k] == (AnswerView::Literals { left: ll, right: rl }),
        guards::operand_value(left, ll, scope.context, scope.arguments, scope.input) == Ok::<
            Json,
            Seq<char>,
        >(a),
        guards::operand_value(right, rl, scope.context, scope.arguments, scope.input) == Ok::<
            Json,
            Seq<char>,
        >(b),
    ensures
        a is String && b is String && op is Equal ==> guards::judge_expr(
            expr,
            scope,
            answers,
            k,
        ).0 == VerdictView::Pass(a == b),
        !(a is Number && b is Number) ==> forall|r: NumericRelation|
            guards::judge_expr(expr, scope, answers, k).0 == VerdictView::Pass(
                #[trigger] guards::holds(a, op, b, r),
            ),
        a is Number && b is Number && k + 1 < answers.len() ==> (
        answers[k + 1] matches AnswerView::Relation(r) ==> guards::judge_expr(
            expr,
            scope,
            answers,
            k,
        ).0 == VerdictView::Pass(guards::holds(a, op, b, r))),
{
}

/// An operand between quotes is the text between them; `true`, `false` and `null` are what
/// they say; a number is that number.
pub proof fn law_literal_operands(
    operand: Seq<char>,
    literal: Literal,
    context: Json,
    arguments: Json,
    input: Json,
    body: Seq<char>,
)
    ensures
        ({
            let v = guards::operand_value(operand, literal, context, arguments, input);
            let s = text::trimmed(operand);
            &&& s == seq!['"'] + body + seq!['"'] || s == seq!['\''] + body + seq!['\''] ==> v
                == Ok::<Json, Seq<char>>(Json::String(body))
            &&& s == "true"@ ==> v == Ok::<Json, Seq<char>>(Json::Bool(true))
            &&& s == "false"@ ==> v == Ok::<Json, Seq<char>>(Json::Bool(false))
            &&& s == "null"@ ==> v == Ok::<Json, Seq<char>>(Json::Null)
            &&& s.len() > 0 && s[0] != '"' && s[0] != '\'' && s != "true"@ && s != "false"@ && s
                != "null"@ ==> (literal matches Literal::Finite(bits) ==> v == Ok::<
                Json,
                Seq<char>,
            >(Json::Number(Number::Float(bits))))
        }),
{
    reveal_strlit("true");
    reveal_strlit("false");
    reveal_strlit("null");
    let s = text::trimmed(operand);
    if s == seq!['"'] + body + seq!['"'] || s == seq!['\''] + body + seq!['\''] {
        assert(s.subrange(1, s.len() - 1) =~= body);
    }
    assert("true"@.len() == 4 && "true"@[0] == 't');
    assert("false"@.len() == 5 && "false"@[0] == 'f');
    assert("null"@.len() == 4 && "null"@[0] == 'n');
}

/// A path reads the part that it names: the context, the arguments or the input of the
/// workflow. What is not set in the context is an error that names the path; in the other
/// two it is null.
pub proof fn law_path_operands(
    operand: Seq<char>,
    context: Json,
    arguments: Json,
    input: Json,
    path: Seq<char>,
)
    ensures
        ({
            let v = guards::operand_value(
                operand,
                Literal::NotNumber,
                context,
                arguments,
                input,
            );
            let s = text::trimmed(operand);
            &&& s == "$.context."@ + path ==> match context.pointer(guards::path_pointer(path)) {
                Some(x) => v == Ok::<Json, Seq<char>>(x),
                None => v == Err::<Json, Seq<char>>(s),
            }
            &&& s == "$.arguments."@ + path ==> match arguments.pointer(
                guards::path_pointer(path),
            ) {
                Some(x) => v == Ok::<Json, Seq<char>>(x),
                None => v == Ok::<Json, Seq<char>>(Json::Null),
            }
            &&& s == "$.workflow.input."@ + path ==> match input.pointer(
                guards::path_pointer(path),
            ) {
                Some(x) => v == Ok::<Json, Seq<char>>(x),
                None => v == Ok::<Json, Seq<char>>(Json::Null),
            }
        }),
{
    reveal_strlit("true");
    reveal_strlit("false");
    reveal_strlit("null");
    reveal_strlit("$.context.");
    reveal_strlit("$.arguments.");
    reveal_strlit("$.workflow.input.");
    assert("$.context."@.len() == 10 && "$.context."@[0] == '$' && "$.context."@[2] == 'c');
    assert("$.arguments."@.len() == 12 && "$.arguments."@[0] == '$' && "$.arguments."@[2] == 'a');
    assert("$.workflow.input."@.len() == 17 && "$.workflow.input."@[0] == '$'
        && "$.workflow.input."@[2] == 'w');
    assert("true"@[0] == 't' && "false"@[0] == 'f' && "null"@[0] == 'n');
    let s = text::trimmed(operand);
    if s == "$.context."@ + path {
        assert(s[0] == '$' && s[2] == 'c');
        assert(s.take(10) =~= "$.context."@);
        assert(s.skip(10) =~= path);
    } else if s == "$.arguments."@ + path {
        assert(s[0] == '$' && s[2] == 'a');
        assert(!"$.context."@.is_prefix_of(s)) by {
            if "$.context."@.is_prefix_of(s) {
                assert(s.take(10)[2] == 'c');
            }
        }
        assert(s.take(12) =~= "$.arguments."@);
        assert(s.skip(12) =~= path);
    } else if s == "$.workflow.input."@ + path {
        assert(s[0] == '$' && s[2] == 'w');
        assert(!"$.context."@.is_prefix_of(s)) by {
            if "$.context."@.is_prefix_of(s) {
                assert(s.take(10)[2] == 'c');
            }
        }
        assert(!"$.arguments."@.is_prefix_of(s)) by {
            if "$.arguments."@.is_prefix_of(s) {
                assert(s.take(12)[2] == 'a');
            }
        }
        assert(s.take(17) =~= "$.workflow.input."@);
        assert(s.skip(17) =~= path);
    }
}

/// A name of a path: plain characters without dots and brackets.
pub open spec fn plain_name(s: Seq<char>) -> bool {
    vstd::utf8::is_ascii_chars(s) && forall|i: int|
        0 <= i < s.len() ==> #[trigger] s[i] != '.' && s[i] != '[' && s[i] != ']'
}

/// The characters of a name are kept.
proof fn lemma_name_text(bytes: Seq<u8>, i: int, name: Seq<char>, in_brackets: bool)
    requires
        plain_name(name),
        0 <= i,
        i + name.len() <= bytes.len(),
        forall|j: int| 0 <= j < name.len() ==> bytes[i + j] == #[trigger] name[j] as u8,
    ensures
        guards::pointer_text(bytes, i, in_brackets) == name + guards::pointer_text(
            bytes,
            i + name.len(),
            in_brackets,
        ),
    decreases name.len(),
{
    if name.len() == 0 {
        assert(name + guards::pointer_text(bytes, i, in_brackets) =~= guards::pointer_text(
            bytes,
            i,
            in_brackets,
        ));
    } else {
        let rest = name.skip(1);
        let c = name[0];
        assert forall|j: int| 0 <= j < rest.len() implies bytes[i + 1 + j] == #[trigger] rest[j]
            as u8 by {
            assert(rest[j] == name[j + 1]);
            assert(bytes[i + (j + 1)] == name[j + 1] as u8);
        }
        assert(plain_name(rest)) by {
            assert forall|j: int| 0 <= j < rest.len() implies '\0' <= #[trigger] rest[j]
                <= '\u{7f}' && rest[j] != '.' && rest[j] != '[' && rest[j] != ']' by {
                assert(rest[j] == name[j + 1]);
            }
        }
        lemma_name_text(bytes, i + 1, rest, in_brackets);
        assert(bytes[i + 0] == name[0] as u8);
        assert('\0' <= c <= '\u{7f}');
        assert(c != '.' && c != '[' && c != ']');
        let b = bytes[i];
        assert(b as char == c);
        assert(b != 46 && b != 91 && b != 93);
        let tail = guards::pointer_text(bytes, i + name.len(), in_brackets);
        assert(seq![c] + (rest + tail) =~= name + tail);
    }
}

/// A path of names is a pointer of the same names: `a` stands for `/a`, `a.b` for `/a/b` and
/// `a[b]` for `/a/b`.
pub proof fn law_paths_are_pointers(a: Seq<char>, b: Seq<char>)
    requires
        plain_name(a),
        plain_name(b),
    ensures
        guards::path_pointer(a) == seq!['/'] + a,
        guards::path_pointer(a + seq!['.'] + b) == seq!['/'] + a + seq!['/'] + b,
        guards::path_pointer(a + seq!['['] + b + seq![']']) == seq!['/'] + a + seq!['/'] + b,
{
    let n = a.len() as int;
    let m = n + 1 + b.len();
    let bytes = vstd::utf8::encode_utf8(a);
    vstd::utf8::is_ascii_chars_encode_utf8(a);
    lemma_name_text(bytes, 0, a, false);
    assert(a + Seq::<char>::empty() =~= a);

    let s = a + seq!['.'] + b;
    assert(vstd::utf8::is_ascii_chars(s));
    let bytes = vstd::utf8::encode_utf8(s);
    vstd::utf8::is_ascii_chars_encode_utf8(s);
    assert forall|j: int| 0 <= j < a.len() implies bytes[0 + j] == #[trigger] a[j] as u8 by {
        assert(s[j] == a[j]);
    }
    lemma_name_text(bytes, 0, a, false);
    assert(s[n] == '.');
    assert(bytes[n] == 46);
    assert forall|j: int| 0 <= j < b.len() implies bytes[n + 1 + j] == #[trigger] b[j]
        as u8 by {
        assert(s[n + 1 + j] == b[j]);
    }
    lemma_name_text(bytes, n + 1, b, false);
    assert(guards::path_pointer(s) =~= seq!['/'] + a + seq!['/'] + b);

    let s = a + seq!['['] + b + seq![']'];
    assert(vstd::utf8::is_ascii_chars(s));
    let bytes = vstd::utf8::encode_utf8(s);
    vstd::utf8::is_ascii_chars_encode_utf8(s);
    assert forall|j: int| 0 <= j < a.len() implies bytes[0 + j] == #[trigger] a[j] as u8 by {
        assert(s[j] == a[j]);
    }
    lemma_name_text(bytes, 0, a, false);
    assert(s[n] == '[');
    assert(bytes[n] == 91);
    assert forall|j: int| 0 <= j < b.len() implies bytes[n + 1 + j] == #[trigger] b[j]
        as u8 by {
        assert(s[n + 1 + j] == b[j]);
    }
    lemma_name_text(bytes, n + 1, b, true);
    assert(s[m] == ']');
    assert(bytes[m] == 93);
    assert(guards::pointer_text(bytes, m + 1, false) =~= Seq::empty());
    assert(guards::path_pointer(s) =~= seq!['/'] + a + seq!['/'] + b);
}

// ---------------------------------------------------------------------------
// Kinds of guards
// ---------------------------------------------------------------------------

/// The kinds of guards differ from one another.
proof fn lemma_kinds()
    ensures
        "permission"@.len() == 10,
        "role"@.len() == 4,
        "expr"@.len() == 4,
        "role"@ != "expr"@,
        "jsonpath"@.len() == 8,
        "all_of"@.len() == 6,
        "any_of"@.len() == 6,
        "all_of"@ != "any_of"@,
        "not"@.len() == 3,
        "evidence"@.len() == 8,
        "jsonpath"@ != "evidence"@,
{
    reveal_strlit("permission");
    reveal_strlit("role");
    reveal_strlit("expr");
    reveal_strlit("jsonpath");
    reveal_strlit("all_of");
    reveal_strlit("any_of");
    reveal_strlit("not");
    reveal_strlit("evidence");
    assert("role"@[0] == 'r' && "expr"@[0] == 'e');
    assert("all_of"@[1] == 'l' && "any_of"@[1] == 'n');
    assert("jsonpath"@[0] == 'j' && "evidence"@[0] == 'e');
}

/// A permission guard passes exactly for those who have the permission, and a role guard
/// exactly for those who have the role; neither asks for anything.
pub proof fn law_principals_are_judged_by_what_they_have(
    guard: Json,
    name: Seq<char>,
    scope: Scope,
    answers: Seq<AnswerView>,
    k: int,
)
    ensures
        guard.str_at("kind"@) == Some("permission"@) && guard.str_at("permission"@) == Some(name)
            ==> guards::judge(guard, scope, answers, k) == (
            VerdictView::Pass(scope.principal.permissions.contains(name)),
            k,
        ),
        guard.str_at("kind"@) == Some("role"@) && guard.str_at("role"@) == Some(name)
            ==> guards::judge(guard, scope, answers, k) == (
            VerdictView::Pass(scope.principal.roles.contains(name)),
            k,
        ),
{
    lemma_kinds();
}

/// An expression guard, under either of its names, is judged as its expression is.
pub proof fn law_expression_guards(
    guard: Json,
    expr: Seq<char>,
    scope: Scope,
    answers: Seq<AnswerView>,
    k: int,
)
    requires
        guard.str_at("kind"@) == Some("expr"@) || guard.str_at("kind"@) == Some("jsonpath"@),
        guard.str_at("expr"@) == Some(expr),
    ensures
        guards::judge(guard, scope, answers, k) == guards::judge_expr(expr, scope, answers, k),
{
    lemma_kinds();
}

/// A guard of a kind that nobody knows does not pass, nor does one without a kind.
pub proof fn law_unknown_guards_do_not_pass(
    guard: Json,
    scope: Scope,
    answers: Seq<AnswerView>,
    k: int,
)
    requires
        guard.str_at("kind"@) matches Some(kind) ==> kind != "permission"@ && kind != "role"@
            && kind != "expr"@ && kind != "jsonpath"@ && kind != "all_of"@ && kind != "any_of"@
            && kind != "not"@ && kind != "evidence"@,
    ensures
        guards::judge(guard, scope, answers, k).0 == VerdictView::Pass(false),
{
    lemma_kinds();
}

/// A negation passes exactly where what it negates does not, and hands on a question and an
/// error; negating twice changes nothing.
pub proof fn law_negation(
    guard: Json,
    inner: Json,
    scope: Scope,
    answers: Seq<AnswerView>,
    k: int,
)
    requires
        guard.str_at("kind"@) == Some("not"@),
        guard.get("guard"@) == Some(inner),
    ensures
        ({
            let v = guards::judge(guard, scope, answers, k);
            let w = guards::judge(inner, scope, answers, k);
            &&& v.0 == VerdictView::Pass(true) <==> w.0 == VerdictView::Pass(false)
            &&& v.0 == VerdictView::Pass(false) <==> w.0 == VerdictView::Pass(true)
            &&& !(w.0 is Pass) ==> v == w
            &&& inner.str_at("kind"@) == Some("not"@) ==> (inner.get("guard"@) matches Some(core)
                ==> v == guards::judge(core, scope, answers, k))
        }),
{
    lemma_kinds();
    if inner.str_at("kind"@) == Some("not"@) {
        if let Some(core) = inner.get("guard"@) {
            let w = guards::judge(core, scope, answers, k);
            assert(guards::judge(inner, scope, answers, k).1 == w.1);
        }
    }
}

/// How many answers are used when the first `i` guards of a group have been judged, one
/// after the other.
pub open spec fn used(
    items: Seq<Json>,
    i: int,
    scope: Scope,
    answers: Seq<AnswerView>,
    k: int,
) -> int
    decreases i,
{
    if i <= 0 {
        k
    } else {
        guards::judge(
            items[i - 1],
            scope,
            answers,
            used(items, i - 1, scope, answers, k),
        ).1
    }
}

/// The verdict on the guard at place `i` of a group.
pub open spec fn verdict_at(
    items: Seq<Json>,
    i: int,
    scope: Scope,
    answers: Seq<AnswerView>,
    k: int,
) -> VerdictView {
    guards::judge(items[i], scope, answers, used(items, i, scope, answers, k)).0
}

/// A conjunction from place `i` on passes where every guard from there on does.
proof fn lemma_all_from(
    items: Seq<Json>,
    i: int,
    scope: Scope,
    answers: Seq<AnswerView>,
    k: int,
)
    requires
        0 <= i <= items.len(),
    ensures
        ({
            let v = guards::judge_all(
                items,
                i,
                scope,
                answers,
                used(items, i, scope, answers, k),
            ).0;
            &&& v == VerdictView::Pass(true) <==> forall|j: int|
                i <= j < items.len() ==> #[trigger] verdict_at(items, j, scope, answers, k)
                    == VerdictView::Pass(true)
            &&& v != VerdictView::Pass(true) ==> exists|j: int|
                i <= j < items.len() && #[trigger] verdict_at(items, j, scope, answers, k) == v
                    && forall|h: int|
                    i <= h < j ==> #[trigger] verdict_at(items, h, scope, answers, k)
                        == VerdictView::Pass(true)
        }),
    decreases items.len() - i,
{
    if i < items.len() {
        let w = verdict_at(items, i, scope, answers, k);
        if w == VerdictView::Pass(true) {
            lemma_all_from(items, i + 1, scope, answers, k);
            let v = guards::judge_all(
                items,
                i + 1,
                scope,
                answers,
                used(items, i + 1, scope, answers, k),
            ).0;
            if v != VerdictView::Pass(true) {
                let j = choose|j: int|
                    i + 1 <= j < items.len() && #[trigger] verdict_at(items, j, scope, answers, k)
                        == v && forall|h: int|
                        i + 1 <= h < j ==> #[trigger] verdict_at(items, h, scope, answers, k)
                            == VerdictView::Pass(true);
                assert(verdict_at(items, j, scope, answers, k) == v);
            }
        } else {
            assert(verdict_at(items, i, scope, answers, k) == w);
        }
    }
}

/// A conjunction passes exactly where every one of its guards passes; otherwise its verdict
/// is that of the first guard that does not.
pub proof fn law_all_of(
    guard: Json,
    items: Seq<Json>,
    scope: Scope,
    answers: Seq<AnswerView>,
    k: int,
)
    requires
        guard.str_at("kind"@) == Some("all_of"@),
        guard.array_at("guards"@) == Some(items),
    ensures
        ({
            let v = guards::judge(guard, scope, answers, k).0;
            &&& v == VerdictView::Pass(true) <==> forall|j: int|
                0 <= j < items.len() ==> #[trigger] verdict_at(items, j, scope, answers, k)
                    == VerdictView::Pass(true)
            &&& v != VerdictView::Pass(true) ==> exists|j: int|
                0 <= j < items.len() && #[trigger] verdict_at(items, j, scope, answers, k) == v
                    && forall|h: int|
                    0 <= h < j ==> #[trigger] verdict_at(items, h, scope, answers, k)
                        == VerdictView::Pass(true)
        }),
{
    lemma_kinds();
    lemma_all_from(items, 0, scope, answers, k);
}

/// A disjunction from place `i` on passes where a guard from there on does, before any that
/// still asks.
proof fn lemma_any_from(
    items: Seq<Json>,
    i: int,
    first: Option<GuardErrorView>,
    scope: Scope,
    answers: Seq<AnswerView>,
    k: int,
)
    requires
        0 <= i <= items.len(),
        forall|j: int| i <= j < items.len() ==> !(#[trigger] verdict_at(
            items,
            j,
            scope,
            answers,
            k,
        ) is Ask),
    ensures
        ({
            let v = guards::judge_any(
                items,
                i,
                first,
                scope,
                answers,
                used(items, i, scope, answers, k),
            ).0;
            &&& v == VerdictView::Pass(true) <==> exists|j: int|
                i <= j < items.len() && #[trigger] verdict_at(items, j, scope, answers, k)
                    == VerdictView::Pass(true)
            &&& v == VerdictView::Pass(false) <==> first is None && forall|j: int|
                i <= j < items.len() ==> #[trigger] verdict_at(items, j, scope, answers, k)
                    == VerdictView::Pass(false)
            &&& !(v is Ask)
        }),
    decreases items.len() - i,
{
    if i < items.len() {
        let w = verdict_at(items, i, scope, answers, k);
        assert(!(w is Ask));
        if w == VerdictView::Pass(true) {
            assert(verdict_at(items, i, scope, answers, k) == VerdictView::Pass(true));
        } else {
            let next = match w {
                VerdictView::Failed(e) => match first {
                    Some(f) => Some(f),
                    None => Some(e),
                },
                _ => first,
            };
            lemma_any_from(items, i + 1, next, scope, answers, k);
        }
    }
}

/// A disjunction whose guards are all judged passes exactly where one of them passes, and
/// does not pass where none does and none failed.
pub proof fn law_any_of(
    guard: Json,
    items: Seq<Json>,
    scope: Scope,
    answers: Seq<AnswerView>,
    k: int,
)
    requires
        guard.str_at("kind"@) == Some("any_of"@),
        guard.array_at("guards"@) == Some(items),
        forall|j: int| 0 <= j < items.len() ==> !(#[trigger] verdict_at(
            items,
            j,
            scope,
            answers,
            k,
        ) is Ask),
    ensures
        ({
            let v = guards::judge(guard, scope, answers, k).0;
            &&& v == VerdictView::Pass(true) <==> exists|j: int|
                0 <= j < items.len() && #[trigger] verdict_at(items, j, scope, answers, k)
                    == VerdictView::Pass(true)
            &&& v == VerdictView::Pass(false) <==> forall|j: int|
                0 <= j < items.len() ==> #[trigger] verdict_at(items, j, scope, answers, k)
                    == VerdictView::Pass(false)
        }),
{
    lemma_kinds();
    lemma_any_from(items, 0, None, scope, answers, k);
}

// ---------------------------------------------------------------------------
// Evidence
// ---------------------------------------------------------------------------

/// The records of one kind.
pub open spec fn of_kind(recorded: Seq<EvidenceView>, kind: Seq<char>) -> Seq<EvidenceView> {
    recorded.filter(|e: EvidenceView| e.kind == kind)
}

/// Counting the records of a kind counts exactly those.
proof fn lemma_kind_count(recorded: Seq<EvidenceView>, kind: Seq<char>, n: int)
    requires
        0 <= n <= recorded.len(),
    ensures
        guards::kind_count(recorded, kind, n) == of_kind(recorded.take(n), kind).len(),
    decreases n,
{
    reveal(Seq::filter);
    if n > 0 {
        lemma_kind_count(recorded, kind, n - 1);
        assert(recorded.take(n).drop_last() =~= recorded.take(n - 1));
        assert(recorded.take(n).last() == recorded[n - 1]);
    }
}

/// What a requirement asks for: how many records, of which kind. One that is neither a text
/// nor an object with a kind asks for nothing.
pub open spec fn asked(item: Json, kind: Seq<char>, count: int) -> bool {
    ||| item == Json::String(kind) && count == 1
    ||| item is Object && item.str_at("kind"@) == Some(kind) && item.u64_at("count"@) is None
        && count == 1
    ||| item is Object && item.str_at("kind"@) == Some(kind) && item.u64_at("count"@) == Some(
        count as u64,
    ) && 0 <= count <= u64::MAX
}

/// An evidence guard passes exactly where at least as many records of each kind are there as
/// it asks for; without a place where evidence is kept there is nothing to ask for.
pub proof fn law_evidence_is_counted(
    guard: Json,
    scope: Scope,
    answers: Seq<AnswerView>,
    k: int,
    recorded: Seq<EvidenceView>,
)
    requires
        guard.str_at("kind"@) == Some("evidence"@),
        0 <= k < answers.len(),
    ensures
        answers[k] == AnswerView::Evidence(recorded) ==> (guards::judge(guard, scope, answers, k).0
            == VerdictView::Pass(true) <==> forall|i: int, kind: Seq<char>, count: int|
            0 <= i < guard.items_at("requires"@).len() && #[trigger] asked(
                guard.items_at("requires"@)[i],
                kind,
                count,
            ) ==> of_kind(recorded, kind).len() >= count),
        answers[k] == AnswerView::Evidence(recorded) ==> guards::judge(guard, scope, answers, k).0
            is Pass,
        answers[k] is NoEvidenceStore ==> guards::judge(guard, scope, answers, k).0
            == VerdictView::Pass(true),
{
    lemma_kinds();
    if answers[k] == AnswerView::Evidence(recorded) {
        let items = guard.items_at("requires"@);
        assert(recorded.take(recorded.len() as int) =~= recorded);
        let met = guards::evidence_met(items, recorded);
        if met {
            assert forall|i: int, kind: Seq<char>, count: int|
                0 <= i < items.len() && #[trigger] asked(items[i], kind, count) implies of_kind(
                recorded,
                kind,
            ).len() >= count by {
                lemma_kind_count(recorded, kind, recorded.len() as int);
                assert(guards::requirement(items[i]) == Some((kind, count as u64)));
            }
        } else {
            let i = choose|i: int|
                0 <= i < items.len() && !(guards::requirement(#[trigger] items[i]) matches Some(q)
                    ==> guards::kind_count(recorded, q.0, recorded.len() as int) >= q.1);
            let q = guards::requirement(items[i])->0;
            lemma_kind_count(recorded, q.0, recorded.len() as int);
            assert(asked(items[i], q.0, q.1 as int));
        }
    }
}

} // verus!
