//! When the checks of workflow definitions say something, and when they say nothing: exact
//! laws, read from the definitions.
use crate::json::Json;
use crate::text;
use crate::validate;
use crate::validate::SlotCheck;
use crate::validate_rules;
use crate::validate_rules::InputsView;
use crate::validate_steps;
use vstd::prelude::*;

verus! {

// ---------------------------------------------------------------------------
// Targets
// ---------------------------------------------------------------------------

/// The targets of a transition and of its branches are all states.
pub open spec fn sound_transition(names: Seq<Seq<char>>, d: Json) -> bool {
    &&& d.str_at("target"@) matches Some(t) && names.contains(t)
    &&& forall|k: int|
        0 <= k < d.items_at("branches"@).len() ==> ((#[trigger] d.items_at("branches"@)[k]).str_at(
            "target"@,
        ) matches Some(b) ==> names.contains(b))
}

proof fn lemma_branch_findings(
    id: Seq<char>,
    state: Seq<char>,
    t: Seq<char>,
    names: Seq<Seq<char>>,
    branches: Seq<Json>,
    n: int,
)
    requires
        0 <= n <= branches.len(),
    ensures
        ({
            let f = validate::branch_findings(id, state, t, names, branches, n);
            &&& f.len() == 0 <==> forall|k: int|
                0 <= k < n ==> ((#[trigger] branches[k]).str_at("target"@) matches Some(b)
                    ==> names.contains(b))
            &&& forall|i: int| 0 <= i < f.len() ==> (#[trigger] f[i]) is Error
        }),
    decreases n,
{
    if n > 0 {
        lemma_branch_findings(id, state, t, names, branches, n - 1);
    }
}

/// A transition is found fault with exactly where it has no target, or where its target or
/// that of a branch is no state; such a fault is an error.
pub proof fn law_transition_findings(
    id: Seq<char>,
    names: Seq<Seq<char>>,
    state: Seq<char>,
    t: Seq<char>,
    d: Json,
)
    ensures
        ({
            let f = validate::transition_findings(id, names, state)(t, d);
            &&& f.len() == 0 <==> sound_transition(names, d)
            &&& forall|i: int| 0 <= i < f.len() ==> (#[trigger] f[i]) is Error
        }),
{
    let branches = d.items_at("branches"@);
    lemma_branch_findings(id, state, t, names, branches, branches.len() as int);
}

/// A state is found fault with exactly where it cannot be left, where one of its transitions
/// is not sound, or where its entry action runs nothing.
pub proof fn law_state_findings(
    id: Seq<char>,
    def: Json,
    names: Seq<Seq<char>>,
    state: Seq<char>,
    s: Json,
)
    ensures
        validate::state_findings(id, def, names)(state, s).len() == 0 <==> {
            &&& s.get("terminal"@) == Some(Json::Bool(true)) || s.entries_at("transitions"@).len()
                > 0 || (def.get("onTimeout"@) matches Some(t) && t.step("target"@) is Some)
            &&& forall|j: int|
                0 <= j < s.entries_at("transitions"@).len() ==> sound_transition(
                    names,
                    (#[trigger] s.entries_at("transitions"@)[j]).1,
                )
            &&& s.get("onEnter"@) matches Some(e) ==> e.get("executor"@) is Some
        },
{
    let ts = s.entries_at("transitions"@);
    let f = validate::transition_findings(id, names, state);
    validate_steps::lemma_over_nothing(ts, ts.len() as int, f);
    assert forall|j: int| 0 <= j < ts.len() implies (f((#[trigger] ts[j]).0, ts[j].1).len() == 0
        <==> sound_transition(names, ts[j].1)) by {
        law_transition_findings(id, names, state, ts[j].0, ts[j].1);
    }
}

/// The initial state and the target of the timeout are found fault with exactly where they
/// are no states, and then with an error.
pub proof fn law_entry_findings(id: Seq<char>, def: Json, initial: Seq<char>, names: Seq<Seq<char>>)
    ensures
        ({
            let f = validate::entry_findings(id, def, initial, names);
            &&& f.len() == 0 <==> names.contains(initial) && (def.get("onTimeout"@)
                matches Some(t) ==> (t.str_at("target"@) matches Some(x) ==> names.contains(x)))
            &&& forall|i: int| 0 <= i < f.len() ==> (#[trigger] f[i]) is Error
        }),
{
}

// ---------------------------------------------------------------------------
// The blackboard
// ---------------------------------------------------------------------------

/// A text is among the texts of some items exactly where one of them is that text.
pub proof fn lemma_strings(items: Seq<Json>, n: int, s: Seq<char>)
    requires
        0 <= n <= items.len(),
    ensures
        validate::strings(items, n).contains(s) <==> exists|k: int|
            0 <= k < n && #[trigger] items[k] == Json::String(s),
    decreases n,
{
    let all = validate::strings(items, n);
    if n > 0 {
        lemma_strings(items, n - 1, s);
        let before = validate::strings(items, n - 1);
        if before.contains(s) {
            let p = choose|p: int| 0 <= p < before.len() && before[p] == s;
            assert(all[p] == s);
        }
        if all.contains(s) && !before.contains(s) {
            let p = choose|p: int| 0 <= p < all.len() && all[p] == s;
            if p < before.len() {
                assert(before[p] == s);
            }
            assert(items[n - 1] == Json::String(s));
        }
        if items[n - 1] == Json::String(s) {
            assert(all[before.len() as int] == s);
        }
    }
}

/// The blackboard declares a slot: it lists its name, or has it as a key.
pub open spec fn declares(board: Json, slot: Seq<char>) -> bool {
    match board {
        Json::Array(items) => exists|k: int|
            0 <= k < items.len() && #[trigger] items[k] == Json::String(slot),
        Json::Object(e) => validate_steps::keyed(e, slot),
        _ => false,
    }
}

/// The declared slots of a definition are those that its blackboard lists or has as keys.
pub proof fn law_declared_slots(def: Json, board: Json, slot: Seq<char>)
    requires
        def.get("blackboard"@) == Some(board),
    ensures
        validate::blackboard_slots(def) matches Some(d) ==> (d.contains(slot) <==> declares(
            board,
            slot,
        )),
        validate::blackboard_slots(def) is Some <==> board is Array || board is Object,
{
    match board {
        Json::Array(items) => {
            lemma_strings(items, items.len() as int, slot);
        },
        Json::Object(e) => {
            validate_steps::lemma_keyed(e, slot);
        },
        _ => {},
    }
}

/// The outputs of a transition are found fault with exactly where they write a slot that is
/// not declared, and then with a warning.
pub proof fn law_output_findings(
    id: Seq<char>,
    declared: Seq<Seq<char>>,
    state: Seq<char>,
    t: Seq<char>,
    d: Json,
)
    ensures
        validate::output_transition(id, declared)(state, t, d).len() == 0 <==> forall|k: int|
            0 <= k < d.entries_at("output"@).len() ==> declared.contains(
                (#[trigger] d.entries_at("output"@)[k]).0,
            ),
{
    let e = d.entries_at("output"@);
    let f = validate::output_key(id, declared, state, t);
    validate_steps::lemma_over_nothing(e, e.len() as int, f);
    assert forall|k: int| 0 <= k < e.len() implies (f((#[trigger] e[k]).0, e[k].1).len() == 0
        <==> declared.contains(e[k].0)) by {}
}

/// Without a blackboard every output may be written; with one the outputs of every transition
/// of every state are checked.
pub proof fn law_blackboard_findings(id: Seq<char>, def: Json)
    ensures
        def.get("blackboard"@) is None ==> validate::blackboard_findings(id, def).len() == 0,
        def.get("blackboard"@) is Some ==> (validate::blackboard_findings(id, def).len() == 0
            <==> forall|i: int, j: int|
            0 <= i < def.entries_at("states"@).len() && 0 <= j < validate_steps::transitions_at(
                def,
                i,
            ).len() ==> writes_declared(
                def,
                (#[trigger] validate_steps::transitions_at(def, i)[j]).1,
            )),
{
    if def.get("blackboard"@) is Some {
        let declared = match validate::blackboard_slots(def) {
            Some(d) => d,
            None => Seq::empty(),
        };
        let f = validate::output_transition(id, declared);
        let e = def.entries_at("states"@);
        let g = validate_rules::in_state(f);
        validate_steps::lemma_over_nothing(e, e.len() as int, g);
        assert forall|i: int| 0 <= i < e.len() implies (g((#[trigger] e[i]).0, e[i].1).len() == 0
            <==> forall|j: int|
            0 <= j < validate_steps::transitions_at(def, i).len() ==> writes_declared(
                def,
                (#[trigger] validate_steps::transitions_at(def, i)[j]).1,
            )) by {
            let ts = validate_steps::transitions_at(def, i);
            let h = validate_rules::in_transition(f, e[i].0);
            validate_steps::lemma_over_nothing(ts, ts.len() as int, h);
            assert forall|j: int| 0 <= j < ts.len() implies (h((#[trigger] ts[j]).0, ts[j].1).len()
                == 0 <==> writes_declared(def, ts[j].1)) by {
                law_output_findings(id, declared, e[i].0, ts[j].0, ts[j].1);
            }
        }
        if validate::blackboard_findings(id, def).len() == 0 {
            assert forall|i: int, j: int|
                0 <= i < e.len() && 0 <= j < validate_steps::transitions_at(
                    def,
                    i,
                ).len() implies writes_declared(
                def,
                (#[trigger] validate_steps::transitions_at(def, i)[j]).1,
            ) by {
                assert(g(e[i].0, e[i].1).len() == 0);
            }
        }
    }
}

/// The outputs of a transition are all declared.
pub open spec fn writes_declared(def: Json, d: Json) -> bool {
    forall|k: int|
        0 <= k < d.entries_at("output"@).len() ==> (match validate::blackboard_slots(def) {
            Some(s) => s,
            None => Seq::empty(),
        }).contains((#[trigger] d.entries_at("output"@)[k]).0)
}

// ---------------------------------------------------------------------------
// What is read
// ---------------------------------------------------------------------------

proof fn lemma_find_first(s: Seq<char>, pat: Seq<char>, i: int, p: int)
    requires
        0 <= i <= p,
        p < s.len(),
        text::occurs_at(s, pat, p),
        forall|k: int| i <= k < p ==> !#[trigger] text::occurs_at(s, pat, k),
    ensures
        text::find_pos(s, pat, i) == Some(p),
    decreases p - i,
{
    if i < p {
        assert(!text::occurs_at(s, pat, i));
        lemma_find_first(s, pat, i + 1, p);
    }
}

proof fn lemma_find_none(s: Seq<char>, pat: Seq<char>, i: int)
    requires
        0 <= i,
        forall|k: int| i <= k ==> !#[trigger] text::occurs_at(s, pat, k),
    ensures
        text::find_pos(s, pat, i) is None,
    decreases s.len() - i,
{
    if i + pat.len() <= s.len() && i < s.len() {
        assert(!text::occurs_at(s, pat, i));
        lemma_find_none(s, pat, i + 1);
    }
}

proof fn lemma_word_front(w: Seq<char>, rest: Seq<char>)
    requires
        forall|i: int| 0 <= i < w.len() ==> validate::is_word(#[trigger] w[i]),
        rest.len() > 0 ==> !validate::is_word(rest[0]),
    ensures
        validate::word_len(w + rest) == w.len(),
    decreases w.len(),
{
    let s = w + rest;
    if w.len() > 0 {
        assert(s[0] == w[0]);
        assert(s.skip(1) =~= w.skip(1) + rest);
        assert forall|i: int| 0 <= i < w.skip(1).len() implies validate::is_word(
            #[trigger] w.skip(1)[i],
        ) by {
            assert(w.skip(1)[i] == w[i + 1]);
        }
        lemma_word_front(w.skip(1), rest);
    } else {
        assert(s =~= rest);
    }
}

/// An expression reads exactly the words after `$.context.`: none where that does not occur;
/// otherwise the word after its first occurrence, and then what the rest reads.
pub proof fn law_slots_that_are_read(front: Seq<char>, word: Seq<char>, rest: Seq<char>)
    requires
        forall|i: int|
            0 <= i < word.len() ==> ('a' <= #[trigger] word[i] <= 'z' || 'A' <= word[i] <= 'Z'
                || '0' <= word[i] <= '9' || word[i] == '_'),
        rest.len() > 0 ==> !('a' <= rest[0] <= 'z' || 'A' <= rest[0] <= 'Z' || '0' <= rest[0]
            <= '9' || rest[0] == '_'),
        word.len() > 0,
    ensures
        !text::has_sub(front, "$.context."@) ==> validate::context_slots(front).len() == 0,
        (forall|k: int|
            0 <= k < front.len() ==> !#[trigger] text::occurs_at(
                front + "$.context."@ + word + rest,
                "$.context."@,
                k,
            )) ==> validate::context_slots(front + "$.context."@ + word + rest) == seq![word]
            + validate::context_slots(rest),
{
    let pat = "$.context."@;
    reveal_strlit("$.context.");
    assert(pat.len() == 10);
    if !text::has_sub(front, pat) {
        assert forall|k: int| 0 <= k implies !#[trigger] text::occurs_at(front, pat, k) by {}
        lemma_find_none(front, pat, 0);
    }
    let s = front + pat + word + rest;
    if forall|k: int| 0 <= k < front.len() ==> !#[trigger] text::occurs_at(s, pat, k) {
        let p = front.len() as int;
        assert(s.subrange(p, p + 10) =~= pat);
        assert(text::occurs_at(s, pat, p));
        lemma_find_first(s, pat, 0, p);
        let after = s.skip(p + 10);
        assert(after =~= word + rest);
        lemma_word_front(word, rest);
        assert(after.take(word.len() as int) =~= word);
        assert(after.skip(word.len() as int) =~= rest);
    }
}

/// A template reads what its placeholders read: nothing before the first one, then what
/// stands between its braces, then what the rest reads.
pub proof fn law_slots_of_a_template(s: Seq<char>, i: int, p: int, end: int)
    requires
        0 <= i <= p,
        p + 2 <= end,
        end + 2 <= s.len(),
        s[p] == '{' && s[p + 1] == '{',
        forall|k: int| i <= k < p ==> !(#[trigger] s[k] == '{' && s[k + 1] == '{'),
        s.subrange(end, end + 2) == "}}"@,
        forall|k: int| p + 2 <= k < end ==> !#[trigger] text::occurs_at(s, "}}"@, k),
    ensures
        validate::template_slots(s, i) == validate::context_slots(s.subrange(p + 2, end))
            + validate::template_slots(s, end + 2),
    decreases p - i,
{
    reveal_strlit("}}");
    if i < p {
        assert(!(s[i] == '{' && s[i + 1] == '{'));
        law_slots_of_a_template(s, i + 1, p, end);
    } else {
        assert(text::occurs_at(s, "}}"@, end));
        lemma_find_first(s, "}}"@, p + 2, end);
    }
}

/// The guards that a guard is made of: a group is made of what its members are made of, a
/// negation of what it negates is made of, and any other guard of itself.
pub proof fn law_guards_in_guards(g: Json, x: Json)
    ensures
        g.str_at("kind"@) != Some("all_of"@) && g.str_at("kind"@) != Some("any_of"@) && g.str_at(
            "kind"@,
        ) != Some("not"@) ==> validate::leaf_guards(g) == seq![g],
        g.str_at("kind"@) == Some("not"@) ==> (g.get("guard"@) matches Some(inner)
            ==> validate::leaf_guards(g) == validate::leaf_guards(inner)),
        g.str_at("kind"@) == Some("all_of"@) || g.str_at("kind"@) == Some("any_of"@) ==> (
        g.array_at("guards"@) matches Some(items) ==> (validate::leaf_guards(g).contains(x)
            <==> exists|k: int|
            0 <= k < items.len() && (#[trigger] validate::leaf_guards(items[k])).contains(x))),
{
    reveal_strlit("not");
    reveal_strlit("all_of");
    reveal_strlit("any_of");
    assert("not"@.len() == 3 && "all_of"@.len() == 6 && "any_of"@.len() == 6);
    if let Some(items) = g.array_at("guards"@) {
        lemma_leaves(items, items.len() as int, x);
    }
}

proof fn lemma_leaves(items: Seq<Json>, n: int, x: Json)
    requires
        0 <= n <= items.len(),
    ensures
        validate::leaves_of(items, n).contains(x) <==> exists|k: int|
            0 <= k < n && (#[trigger] validate::leaf_guards(items[k])).contains(x),
    decreases n,
{
    if n > 0 {
        lemma_leaves(items, n - 1, x);
        lemma_sum(validate::leaves_of(items, n - 1), validate::leaf_guards(items[n - 1]), x);
    }
}

proof fn lemma_sum(a: Seq<Json>, b: Seq<Json>, x: Json)
    ensures
        (a + b).contains(x) <==> a.contains(x) || b.contains(x),
{
    if a.contains(x) {
        let p = choose|p: int| 0 <= p < a.len() && a[p] == x;
        assert((a + b)[p] == x);
    }
    if b.contains(x) {
        let p = choose|p: int| 0 <= p < b.len() && b[p] == x;
        assert((a + b)[a.len() + p] == x);
    }
    if (a + b).contains(x) {
        let p = choose|p: int| 0 <= p < (a + b).len() && (a + b)[p] == x;
        if p < a.len() {
            assert(a[p] == x);
        } else {
            assert(b[p - a.len()] == x);
        }
    }
}

proof fn lemma_branch_guards(branches: Seq<Json>, n: int, x: Json)
    requires
        0 <= n <= branches.len(),
    ensures
        validate::branch_guards(branches, n).contains(x) <==> exists|k: int|
            0 <= k < n && ((#[trigger] branches[k]).get("when"@) matches Some(w)
                && validate::leaf_guards(w).contains(x)),
    decreases n,
{
    if n > 0 {
        lemma_branch_guards(branches, n - 1, x);
        lemma_sum(
            validate::branch_guards(branches, n - 1),
            match branches[n - 1].get("when"@) {
                Some(w) => validate::leaf_guards(w),
                None => Seq::empty(),
            },
            x,
        );
    }
}

/// The guards of a transition are those of its own guards and those of the conditions of its
/// branches.
pub proof fn law_guards_of_a_transition(d: Json, x: Json)
    ensures
        validate::transition_guards(d).contains(x) <==> {
            ||| exists|k: int|
                0 <= k < d.items_at("guards"@).len() && (#[trigger] validate::leaf_guards(
                    d.items_at("guards"@)[k],
                )).contains(x)
            ||| exists|k: int|
                0 <= k < d.items_at("branches"@).len() && ((#[trigger] d.items_at(
                    "branches"@,
                )[k]).get("when"@) matches Some(w) && validate::leaf_guards(w).contains(x))
        },
{
    let guards = d.items_at("guards"@);
    let branches = d.items_at("branches"@);
    lemma_leaves(guards, guards.len() as int, x);
    lemma_branch_guards(branches, branches.len() as int, x);
    lemma_sum(
        validate::leaves_of(guards, guards.len() as int),
        validate::branch_guards(branches, branches.len() as int),
        x,
    );
}

/// A slot that a guard may read: never the summary, declared where there is a blackboard, and
/// available in the state.
pub open spec fn readable(c: SlotCheck, state: Seq<char>, slot: Seq<char>) -> bool {
    &&& slot != "summary"@
    &&& c.declared matches Some(d) ==> d.contains(slot)
    &&& c.available(slot, state)
}

proof fn lemma_guard_slots(
    c: SlotCheck,
    id: Seq<char>,
    state: Seq<char>,
    t: Seq<char>,
    slots: Seq<Seq<char>>,
    n: int,
)
    requires
        0 <= n <= slots.len(),
    ensures
        ({
            let f = validate::guard_slots(c, id, state, t, slots, n);
            &&& f.len() == 0 <==> forall|k: int|
                0 <= k < n ==> readable(c, state, #[trigger] slots[k])
            &&& forall|i: int| 0 <= i < f.len() ==> (#[trigger] f[i]) is Error
        }),
    decreases n,
{
    if n > 0 {
        lemma_guard_slots(c, id, state, t, slots, n - 1);
    }
}

proof fn lemma_guard_findings(
    c: SlotCheck,
    id: Seq<char>,
    state: Seq<char>,
    t: Seq<char>,
    guards: Seq<Json>,
    n: int,
)
    requires
        0 <= n <= guards.len(),
    ensures
        ({
            let f = validate::guard_findings(c, id, state, t, guards, n);
            &&& f.len() == 0 <==> forall|k: int|
                0 <= k < n ==> reads_readable(c, state, #[trigger] guards[k])
            &&& forall|i: int| 0 <= i < f.len() ==> (#[trigger] f[i]) is Error
        }),
    decreases n,
{
    if n > 0 {
        lemma_guard_findings(c, id, state, t, guards, n - 1);
        if let Some(x) = guards[n - 1].str_at("expr"@) {
            let slots = validate::context_slots(x);
            lemma_guard_slots(c, id, state, t, slots, slots.len() as int);
        }
    }
}

/// Every slot that the expression of a guard reads may be read.
pub open spec fn reads_readable(c: SlotCheck, state: Seq<char>, guard: Json) -> bool {
    guard.str_at("expr"@) matches Some(x) ==> forall|q: int|
        0 <= q < validate::context_slots(x).len() ==> readable(
            c,
            state,
            #[trigger] validate::context_slots(x)[q],
        )
}

/// The guards of a transition are found fault with exactly where one of them reads a slot
/// that may not be read, and then with an error.
pub proof fn law_guard_findings(
    c: SlotCheck,
    id: Seq<char>,
    state: Seq<char>,
    t: Seq<char>,
    d: Json,
)
    ensures
        ({
            let f = validate::read_transition(c, id, state)(t, d);
            let guards = validate::transition_guards(d);
            &&& f.len() == 0 <==> forall|k: int|
                0 <= k < guards.len() ==> reads_readable(c, state, #[trigger] guards[k])
            &&& forall|i: int| 0 <= i < f.len() ==> (#[trigger] f[i]) is Error
        }),
{
    let guards = validate::transition_guards(d);
    lemma_guard_findings(c, id, state, t, guards, guards.len() as int);
}

proof fn lemma_template_findings(
    c: SlotCheck,
    id: Seq<char>,
    state: Seq<char>,
    field: Seq<char>,
    slots: Seq<Seq<char>>,
    n: int,
)
    requires
        0 <= n <= slots.len(),
    ensures
        ({
            let f = validate::template_findings(c, id, state, field, slots, n);
            &&& f.len() == 0 <==> forall|k: int|
                0 <= k < n ==> #[trigger] slots[k] == "summary"@ || readable(c, state, slots[k])
            &&& forall|i: int| 0 <= i < f.len() ==> (#[trigger] f[i]) is Error
        }),
    decreases n,
{
    if n > 0 {
        lemma_template_findings(c, id, state, field, slots, n - 1);
    }
}

/// A template of a state is found fault with exactly where it reads a slot, other than the
/// summary, that may not be read, and then with an error.
pub proof fn law_template_findings(
    c: SlotCheck,
    id: Seq<char>,
    state: Seq<char>,
    s: Json,
    field: Seq<char>,
    template: Seq<char>,
)
    requires
        s.str_at(field) == Some(template),
    ensures
        ({
            let f = validate::field_findings(c, id, state, s, field);
            let slots = validate::template_slots(template, 0);
            &&& f.len() == 0 <==> forall|k: int|
                0 <= k < slots.len() ==> #[trigger] slots[k] == "summary"@ || readable(
                    c,
                    state,
                    slots[k],
                )
            &&& forall|i: int| 0 <= i < f.len() ==> (#[trigger] f[i]) is Error
        }),
{
    let slots = validate::template_slots(template, 0);
    lemma_template_findings(c, id, state, field, slots, slots.len() as int);
}

/// A state reads by its goal, its guidance and its transitions: nothing is found exactly where
/// nothing is found on each of them.
pub proof fn law_state_reads(c: SlotCheck, id: Seq<char>, state: Seq<char>, s: Json)
    ensures
        validate::read_state(c, id)(state, s).len() == 0 <==> {
            &&& validate::field_findings(c, id, state, s, "goal"@).len() == 0
            &&& validate::field_findings(c, id, state, s, "guidance"@).len() == 0
            &&& forall|j: int|
                0 <= j < s.entries_at("transitions"@).len() ==> validate::read_transition(
                    c,
                    id,
                    state,
                )((#[trigger] s.entries_at("transitions"@)[j]).0, s.entries_at("transitions"@)[j].1).len()
                    == 0
        },
{
    let ts = s.entries_at("transitions"@);
    validate_steps::lemma_over_nothing(
        ts,
        ts.len() as int,
        validate::read_transition(c, id, state),
    );
}

// ---------------------------------------------------------------------------
// Skills
// ---------------------------------------------------------------------------

/// A skill that a workflow may refer to: a known subject, or one that is known under the
/// namespace of the workflow.
pub open spec fn known_skill(subjects: Seq<Seq<char>>, id: Seq<char>, subject: Seq<char>) -> bool {
    ||| subjects.contains(subject)
    ||| exists|namespace: Seq<char>, name: Seq<char>|
        !namespace.contains('/') && id == #[trigger] (namespace + seq!['/'] + name)
            && subjects.contains(namespace + seq!['/'] + subject)
}

proof fn lemma_known_skill(subjects: Seq<Seq<char>>, id: Seq<char>, subject: Seq<char>)
    ensures
        validate::knows_skill(subjects, id, subject) <==> known_skill(subjects, id, subject),
{
    reveal_strlit("/");
    assert("/"@ =~= seq!['/']);
    text::lemma_first_pos(id, '/');
    let p = text::first_pos(id, '/');
    if p < id.len() {
        let (namespace, name) = (id.take(p), id.skip(p + 1));
        assert(id =~= namespace + seq!['/'] + name);
        assert(!namespace.contains('/')) by {
            if namespace.contains('/') {
                let i = choose|i: int| 0 <= i < namespace.len() && namespace[i] == '/';
                assert(id[i] == '/');
            }
        }
    }
    if exists|namespace: Seq<char>, name: Seq<char>|
        !namespace.contains('/') && id == #[trigger] (namespace + seq!['/'] + name)
            && subjects.contains(namespace + seq!['/'] + subject) {
        let (namespace, name) = choose|namespace: Seq<char>, name: Seq<char>|
            !namespace.contains('/') && id == #[trigger] (namespace + seq!['/'] + name)
                && subjects.contains(namespace + seq!['/'] + subject);
        let q = namespace.len() as int;
        assert(id[q] == '/');
        assert(p == q) by {
            if p < q {
                assert(id[p] == namespace[p]);
                assert(namespace.contains('/'));
            }
        }
        assert(id.take(p) =~= namespace);
    }
}

proof fn lemma_ref_findings(
    id: Seq<char>,
    scope: Seq<char>,
    subjects: Seq<Seq<char>>,
    refs: Seq<Json>,
    n: int,
)
    requires
        0 <= n <= refs.len(),
    ensures
        ({
            let f = validate::ref_findings(id, scope, subjects, refs, n);
            &&& f.len() == 0 <==> forall|k: int|
                0 <= k < n ==> ((#[trigger] refs[k]) matches Json::String(s) ==> known_skill(
                    subjects,
                    id,
                    s,
                ))
            &&& forall|i: int| 0 <= i < f.len() ==> (#[trigger] f[i]) is Error
        }),
    decreases n,
{
    if n > 0 {
        lemma_ref_findings(id, scope, subjects, refs, n - 1);
        if let Json::String(s) = refs[n - 1] {
            lemma_known_skill(subjects, id, s);
        }
    }
}

/// The references of a scope are found fault with exactly where there are more than four or
/// one of them is to an unknown skill; only the latter is an error.
pub proof fn law_skill_findings(
    id: Seq<char>,
    scope: Seq<char>,
    subjects: Seq<Seq<char>>,
    items: Seq<Json>,
)
    ensures
        ({
            let f = validate::scope_findings(id, scope, subjects, Some(Json::Array(items)));
            let known = forall|k: int|
                0 <= k < items.len() ==> ((#[trigger] items[k]) matches Json::String(s)
                    ==> known_skill(subjects, id, s));
            &&& f.len() == 0 <==> items.len() <= 4 && known
            &&& (forall|i: int| 0 <= i < f.len() ==> (#[trigger] f[i]) is Warning) <==> known
        }),
        validate::scope_findings(id, scope, subjects, None).len() == 0,
{
    let f = validate::scope_findings(id, scope, subjects, Some(Json::Array(items)));
    let refs = validate::ref_findings(id, scope, subjects, items, items.len() as int);
    lemma_ref_findings(id, scope, subjects, items, items.len() as int);
    let first = f.take(f.len() - refs.len());
    assert(f =~= first + refs);
    if refs.len() > 0 {
        assert(f[first.len() as int] == refs[0]);
    }
}

/// The references of the workflow, of every state and of every transition are all checked.
pub proof fn law_skills_everywhere(id: Seq<char>, def: Json, subjects: Seq<Seq<char>>, i: int, j: int)
    requires
        validate::skills_findings(id, def, subjects).len() == 0,
    ensures
        def.get("skills"@) matches Some(Json::Array(items)) ==> all_known(subjects, id, items),
        0 <= i < def.entries_at("states"@).len() ==> (def.entries_at("states"@)[i].1.get("skills"@)
            matches Some(Json::Array(items)) ==> all_known(subjects, id, items)),
        0 <= i < def.entries_at("states"@).len() && 0 <= j < validate_steps::transitions_at(
            def,
            i,
        ).len() ==> (validate_steps::transitions_at(def, i)[j].1.get("skills"@)
            matches Some(Json::Array(items)) ==> all_known(subjects, id, items)),
{
    if let Some(Json::Array(items)) = def.get("skills"@) {
        law_skill_findings(id, "workflow scope"@, subjects, items);
    }
    let e = def.entries_at("states"@);
    let f = validate::skills_state(id, subjects);
    validate_steps::lemma_over_nothing(e, e.len() as int, f);
    if 0 <= i < e.len() {
        let (state, s) = e[i];
        assert(f(e[i].0, e[i].1).len() == 0);
        if let Some(Json::Array(items)) = s.get("skills"@) {
            law_skill_findings(id, "state '"@ + state + "'"@, subjects, items);
        }
        let ts = s.entries_at("transitions"@);
        let g = validate::skills_transition(id, subjects, state);
        validate_steps::lemma_over_nothing(ts, ts.len() as int, g);
        if 0 <= j < ts.len() {
            assert(g(ts[j].0, ts[j].1).len() == 0);
            if let Some(Json::Array(items)) = ts[j].1.get("skills"@) {
                law_skill_findings(
                    id,
                    "transition '"@ + ts[j].0 + "' in state '"@ + state + "'"@,
                    subjects,
                    items,
                );
            }
        }
    }
}

/// Every reference is to a known skill, and there are four at most.
pub open spec fn all_known(subjects: Seq<Seq<char>>, id: Seq<char>, items: Seq<Json>) -> bool {
    items.len() <= 4 && forall|k: int|
        0 <= k < items.len() ==> ((#[trigger] items[k]) matches Json::String(s) ==> known_skill(
            subjects,
            id,
            s,
        ))
}

// ---------------------------------------------------------------------------
// Whole definitions
// ---------------------------------------------------------------------------

/// A definition without an initial state or without states is an error.
pub proof fn law_definitions_need_states(
    id: Seq<char>,
    def: Json,
    workflows: Json,
    caps: Json,
    subjects: Seq<Seq<char>>,
    inputs: InputsView,
)
    requires
        def.str_at("initialState"@) is None || def.object_at("states"@) is None,
    ensures
        validate::definition_findings(id, def, workflows, caps, subjects, inputs).len() > 0,
        validate::definition_findings(id, def, workflows, caps, subjects, inputs).last() is Error,
{
}

/// The states of a definition are found fault with exactly where its entry, a state, its
/// blackboard, its reachability, what it reads or its skills are.
pub proof fn law_states_findings(
    id: Seq<char>,
    def: Json,
    initial: Seq<char>,
    subjects: Seq<Seq<char>>,
)
    ensures
        ({
            let e = def.entries_at("states"@);
            let names = validate::keys(e);
            let c = validate::slot_check(def, initial);
            validate::states_findings(id, def, initial, subjects).len() == 0 <==> {
                &&& validate::entry_findings(id, def, initial, names).len() == 0
                &&& forall|i: int|
                    0 <= i < e.len() ==> validate::state_findings(id, def, names)(
                        (#[trigger] e[i]).0,
                        e[i].1,
                    ).len() == 0
                &&& validate::blackboard_findings(id, def).len() == 0
                &&& forall|i: int|
                    0 <= i < e.len() ==> validate::reach_findings(id, def, initial)(
                        (#[trigger] e[i]).0,
                        e[i].1,
                    ).len() == 0
                &&& forall|i: int|
                    0 <= i < e.len() ==> validate::read_state(c, id)(
                        (#[trigger] e[i]).0,
                        e[i].1,
                    ).len() == 0
                &&& validate::skills_findings(id, def, subjects).len() == 0
            }
        }),
{
    let e = def.entries_at("states"@);
    let n = e.len() as int;
    let names = validate::keys(e);
    let c = validate::slot_check(def, initial);
    validate_steps::lemma_over_nothing(e, n, validate::state_findings(id, def, names));
    validate_steps::lemma_over_nothing(e, n, validate::reach_findings(id, def, initial));
    validate_steps::lemma_over_nothing(e, n, validate::read_state(c, id));
    law_entry_findings(id, def, initial, names);
}

/// A configuration is found fault with exactly where one of its workflows is.
pub proof fn law_every_workflow_is_checked(config: Json, inputs: InputsView)
    ensures
        ({
            let e = config.entries_at("workflows"@);
            let caps = validate_rules::snippet_outputs(e, e.len() as int);
            let subjects = validate::keys(config.entries_at("skills"@));
            validate::workflow_findings(config, inputs).len() == 0 <==> forall|i: int|
                0 <= i < e.len() ==> validate::definition_findings(
                    (#[trigger] e[i]).0,
                    e[i].1,
                    Json::Object(e),
                    caps,
                    subjects,
                    inputs,
                ).len() == 0
        }),
{
    let e = config.entries_at("workflows"@);
    let caps = validate_rules::snippet_outputs(e, e.len() as int);
    let subjects = validate::keys(config.entries_at("skills"@));
    let f = validate::one_workflow(Json::Object(e), caps, subjects, inputs);
    validate_steps::lemma_over_nothing(e, e.len() as int, f);
}

} // verus!
