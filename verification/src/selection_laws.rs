//! What the choice among deterministic transitions is for: laws over the history of the
//! verdicts that were reported.
use crate::json::Json;
use crate::runtime_chain::SelectionView;
use vstd::prelude::*;

verus! {

/// The choice after a history of verdicts, each on the guard that was asked for.
pub open spec fn reported(candidates: Seq<(Seq<char>, Json)>, history: Seq<bool>) -> SelectionView
    decreases history.len(),
{
    if history.len() == 0 {
        SelectionView { candidates, at: 0, guard: 0, viable: Seq::empty() }.settled()
    } else {
        reported(candidates, history.drop_last()).after(history.last())
    }
}

/// The candidate and the place of the guard that a verdict of the history was on.
pub open spec fn asked(
    candidates: Seq<(Seq<char>, Json)>,
    history: Seq<bool>,
    k: int,
) -> (int, int) {
    let s = reported(candidates, history.take(k));
    (s.at, s.guard)
}

/// Each verdict of the history was asked for: the choice had not ended before it.
pub open spec fn followed(candidates: Seq<(Seq<char>, Json)>, history: Seq<bool>) -> bool {
    forall|k: int|
        0 <= k < history.len() ==> !(#[trigger] reported(candidates, history.take(k))).done()
}

/// The guards of a candidate.
pub open spec fn guards_of(candidates: Seq<(Seq<char>, Json)>, c: int) -> Seq<Json> {
    candidates[c].1.items_at("guards"@)
}

/// A guard of a candidate was judged and passed.
pub open spec fn passed(
    candidates: Seq<(Seq<char>, Json)>,
    history: Seq<bool>,
    c: int,
    g: int,
) -> bool {
    exists|k: int|
        0 <= k < history.len() && #[trigger] asked(candidates, history, k) == (c, g) && history[k]
}

/// Every guard of a candidate was judged and passed, and none of them was judged otherwise.
pub open spec fn cleared(candidates: Seq<(Seq<char>, Json)>, history: Seq<bool>, c: int) -> bool {
    &&& forall|g: int|
        0 <= g < guards_of(candidates, c).len() ==> #[trigger] passed(candidates, history, c, g)
    &&& forall|k: int|
        0 <= k < history.len() && (#[trigger] asked(candidates, history, k)).0 == c ==> history[k]
}

/// A guard of a candidate was judged and did not pass.
pub open spec fn refused(candidates: Seq<(Seq<char>, Json)>, history: Seq<bool>, c: int) -> bool {
    exists|k: int|
        0 <= k < history.len() && (#[trigger] asked(candidates, history, k)).0 == c && 0 <= asked(
            candidates,
            history,
            k,
        ).1 < guards_of(candidates, c).len() && !history[k]
}

/// A candidate was cleared where it counts as viable, and refused otherwise.
spec fn settled_on(
    viable: Seq<int>,
    candidates: Seq<(Seq<char>, Json)>,
    history: Seq<bool>,
    c: int,
) -> bool {
    if viable.contains(c) {
        cleared(candidates, history, c)
    } else {
        refused(candidates, history, c)
    }
}

/// The choice accounts for the history: the candidates before the current one were cleared
/// or refused, and the guards before the current one passed.
spec fn accounted(
    s: SelectionView,
    candidates: Seq<(Seq<char>, Json)>,
    history: Seq<bool>,
) -> bool {
    &&& s.candidates == candidates
    &&& 0 <= s.at <= candidates.len()
    &&& 0 <= s.guard
    &&& !s.done() ==> s.guard <= s.guards().len()
    &&& forall|i: int| 0 <= i < s.viable.len() ==> 0 <= #[trigger] s.viable[i] < s.at
    &&& forall|i: int, j: int|
        0 <= i < j < s.viable.len() ==> #[trigger] s.viable[i] != #[trigger] s.viable[j]
    &&& forall|c: int|
        0 <= c < s.at ==> #[trigger] settled_on(s.viable, candidates, history, c)
    &&& !s.done() ==> forall|g: int|
        0 <= g < s.guard ==> #[trigger] passed(candidates, history, s.at, g)
    &&& forall|k: int|
        0 <= k < history.len() ==> (#[trigger] asked(candidates, history, k)).0 <= s.at && (asked(
            candidates,
            history,
            k,
        ).0 == s.at ==> history[k])
}

/// Moving past candidates without guards left keeps the account.
proof fn lemma_settled_accounted(
    s: SelectionView,
    candidates: Seq<(Seq<char>, Json)>,
    history: Seq<bool>,
)
    requires
        accounted(s, candidates, history),
    ensures
        accounted(s.settled(), candidates, history),
        !s.settled().done() ==> s.settled().guard < s.settled().guards().len(),
    decreases candidates.len() - s.at,
{
    if !s.done() && s.guard >= s.guards().len() {
        let t = SelectionView { at: s.at + 1, guard: 0, viable: s.viable.push(s.at), ..s };
        assert(cleared(candidates, history, s.at));
        assert(t.viable[s.viable.len() as int] == s.at);
        assert forall|c: int| 0 <= c < t.at implies #[trigger] settled_on(
            t.viable,
            candidates,
            history,
            c,
        ) by {
            if c < s.at {
                assert(settled_on(s.viable, candidates, history, c));
                if t.viable.contains(c) {
                    let i = choose|i: int| 0 <= i < t.viable.len() && t.viable[i] == c;
                    assert(s.viable[i] == c);
                }
                if s.viable.contains(c) {
                    let i = choose|i: int| 0 <= i < s.viable.len() && s.viable[i] == c;
                    assert(t.viable[i] == c);
                }
            }
        }
        lemma_settled_accounted(t, candidates, history);
    }
}

/// What a history says, a longer one says too.
proof fn lemma_longer(candidates: Seq<(Seq<char>, Json)>, history: Seq<bool>, b: bool)
    ensures
        forall|k: int|
            0 <= k <= history.len() ==> #[trigger] asked(candidates, history.push(b), k) == asked(
                candidates,
                history,
                k,
            ),
        forall|c: int, g: int|
            passed(candidates, history, c, g) ==> #[trigger] passed(
                candidates,
                history.push(b),
                c,
                g,
            ),
        forall|c: int|
            refused(candidates, history, c) ==> #[trigger] refused(candidates, history.push(b), c),
{
    let h = history.push(b);
    assert forall|k: int| 0 <= k <= history.len() implies #[trigger] asked(candidates, h, k)
        == asked(candidates, history, k) by {
        assert(h.take(k) =~= history.take(k));
    }
    assert forall|c: int, g: int| passed(candidates, history, c, g) implies #[trigger] passed(
        candidates,
        h,
        c,
        g,
    ) by {
        let k = choose|k: int|
            0 <= k < history.len() && #[trigger] asked(candidates, history, k) == (c, g)
                && history[k];
        assert(asked(candidates, h, k) == (c, g) && h[k]);
    }
    assert forall|c: int| refused(candidates, history, c) implies #[trigger] refused(
        candidates,
        h,
        c,
    ) by {
        let k = choose|k: int|
            0 <= k < history.len() && (#[trigger] asked(candidates, history, k)).0 == c && 0
                <= asked(candidates, history, k).1 < guards_of(candidates, c).len() && !history[k];
        assert(asked(candidates, h, k).0 == c && !h[k]);
    }
}

/// The choice accounts for every history that it asked for.
proof fn lemma_accounted(candidates: Seq<(Seq<char>, Json)>, history: Seq<bool>)
    requires
        followed(candidates, history),
    ensures
        accounted(reported(candidates, history), candidates, history),
        !reported(candidates, history).done() ==> reported(candidates, history).guard < reported(
            candidates,
            history,
        ).guards().len(),
    decreases history.len(),
{
    if history.len() == 0 {
        let s = SelectionView { candidates, at: 0, guard: 0, viable: Seq::empty() };
        lemma_settled_accounted(s, candidates, history);
    } else {
        let before = history.drop_last();
        let b = history.last();
        assert(before.push(b) =~= history);
        assert forall|k: int| 0 <= k < before.len() implies !(#[trigger] reported(
            candidates,
            before.take(k),
        )).done() by {
            assert(before.take(k) =~= history.take(k));
        }
        lemma_accounted(candidates, before);
        lemma_longer(candidates, before, b);
        let n = before.len() as int;
        assert(history.take(n) =~= before);
        let s = reported(candidates, before);
        assert(!s.done());
        assert(asked(candidates, history, n) == (s.at, s.guard));
        let t = if b {
            SelectionView { guard: s.guard + 1, ..s }
        } else {
            SelectionView { at: s.at + 1, guard: 0, ..s }
        };
        if b {
            assert(passed(candidates, history, s.at, s.guard));
        } else {
            assert(refused(candidates, history, s.at));
        }
        assert forall|k: int| 0 <= k < history.len() implies (#[trigger] asked(
            candidates,
            history,
            k,
        )).0 <= t.at && (asked(candidates, history, k).0 == t.at ==> history[k]) by {
            if k < n {
                assert(asked(candidates, before, k).0 <= s.at);
                assert(history[k] == before[k]);
            }
        }
        assert forall|c: int| 0 <= c < t.at implies #[trigger] settled_on(
            t.viable,
            candidates,
            history,
            c,
        ) by {
            if c < s.at {
                assert(settled_on(s.viable, candidates, before, c));
                if s.viable.contains(c) {
                    assert forall|g: int| 0 <= g < guards_of(candidates, c).len() implies #[trigger] passed(
                        candidates,
                        history,
                        c,
                        g,
                    ) by {
                        assert(passed(candidates, before, c, g));
                    }
                    assert forall|k: int|
                        0 <= k < history.len() && (#[trigger] asked(candidates, history, k)).0
                            == c implies history[k] by {
                        if k < n {
                            assert(asked(candidates, before, k).0 == c);
                            assert(history[k] == before[k]);
                        }
                    }
                }
            } else {
                if s.viable.contains(c) {
                    let i = choose|i: int| 0 <= i < s.viable.len() && s.viable[i] == c;
                    assert(s.viable[i] < s.at);
                }
            }
        }
        if b {
            assert forall|g: int| 0 <= g < t.guard implies #[trigger] passed(
                candidates,
                history,
                t.at,
                g,
            ) by {
                if g < s.guard {
                    assert(passed(candidates, before, s.at, g));
                }
            }
        }
        lemma_settled_accounted(t, candidates, history);
    }
}

/// The selected transition is the one that may be taken: when every candidate was judged and
/// one is selected, every guard of that one was judged and passed, and each other candidate
/// had a guard that was judged and did not pass. Where none is selected, each had one, or
/// two of them had none.
pub proof fn law_the_only_cleared_candidate_is_selected(
    candidates: Seq<(Seq<char>, Json)>,
    history: Seq<bool>,
    state: Seq<char>,
)
    requires
        followed(candidates, history),
        reported(candidates, history).done(),
    ensures
        match reported(candidates, history).selected(state) {
            Ok(i) => {
                &&& 0 <= i < candidates.len()
                &&& cleared(candidates, history, i)
                &&& forall|c: int|
                    0 <= c < candidates.len() && c != i ==> #[trigger] refused(
                        candidates,
                        history,
                        c,
                    )
            },
            Err(_) => {
                ||| forall|c: int|
                    0 <= c < candidates.len() ==> #[trigger] refused(candidates, history, c)
                ||| exists|c: int, d: int|
                    0 <= c < candidates.len() && 0 <= d < candidates.len() && c != d
                        && #[trigger] cleared(candidates, history, c) && #[trigger] cleared(
                        candidates,
                        history,
                        d,
                    )
            },
        },
        forall|i: int|
            0 <= i < candidates.len() && #[trigger] cleared(candidates, history, i) && (forall|
                c: int,
            |
                0 <= c < candidates.len() && c != i ==> #[trigger] refused(candidates, history, c))
                ==> reported(candidates, history).selected(state) == Ok::<int, Seq<char>>(i),
{
    lemma_accounted(candidates, history);
    let s = reported(candidates, history);
    assert forall|c: int| 0 <= c < candidates.len() && !s.viable.contains(c) implies #[trigger] refused(
        candidates,
        history,
        c,
    ) by {
        assert(settled_on(s.viable, candidates, history, c));
    }
    assert forall|c: int|
        0 <= c < candidates.len() && #[trigger] cleared(
            candidates,
            history,
            c,
        ) implies s.viable.contains(c) by {
        assert(settled_on(s.viable, candidates, history, c));
        if refused(candidates, history, c) {
            let k = choose|k: int|
                0 <= k < history.len() && (#[trigger] asked(candidates, history, k)).0 == c && 0
                    <= asked(candidates, history, k).1 < guards_of(candidates, c).len()
                    && !history[k];
            assert(history[k]);
        }
    }
    if s.viable.len() == 1 {
        let i = s.viable[0];
        assert(s.viable.contains(i));
        assert(settled_on(s.viable, candidates, history, i));
        assert forall|c: int| 0 <= c < candidates.len() && c != i implies #[trigger] refused(
            candidates,
            history,
            c,
        ) by {
            assert(!s.viable.contains(c));
        }
    } else if s.viable.len() > 1 {
        assert(s.viable.contains(s.viable[0]) && s.viable.contains(s.viable[1]));
        assert(s.viable[0] != s.viable[1]);
        assert(settled_on(s.viable, candidates, history, s.viable[0]));
        assert(settled_on(s.viable, candidates, history, s.viable[1]));
    }
    assert forall|i: int|
        0 <= i < candidates.len() && #[trigger] cleared(candidates, history, i) && (forall|c: int|
            0 <= c < candidates.len() && c != i ==> #[trigger] refused(
                candidates,
                history,
                c,
            )) implies s.selected(state) == Ok::<int, Seq<char>>(i) by {
        assert(s.viable.contains(i));
        let p = choose|p: int| 0 <= p < s.viable.len() && s.viable[p] == i;
        if s.viable.len() > 1 {
            let q = if p == 0 {
                1int
            } else {
                0int
            };
            let d = s.viable[q];
            assert(d != i) by {
                if p < q {
                    assert(s.viable[p] != s.viable[q]);
                } else {
                    assert(s.viable[q] != s.viable[p]);
                }
            }
            assert(s.viable.contains(d));
            assert(settled_on(s.viable, candidates, history, d));
            assert(refused(candidates, history, d));
            let k = choose|k: int|
                0 <= k < history.len() && (#[trigger] asked(candidates, history, k)).0 == d && 0
                    <= asked(candidates, history, k).1 < guards_of(candidates, d).len()
                    && !history[k];
            assert(history[k]);
        }
    }
}

} // verus!
