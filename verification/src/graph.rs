//! Reachability in the graph of a workflow's states.
use crate::text;
use vstd::prelude::*;

verus! {

/// A step from one state to another, and the context slots that it writes.
#[derive(Debug)]
pub struct Edge {
    pub from: String,
    pub to: String,
    pub keys: Vec<String>,
}

/// A step as mathematical values.
pub struct EdgeView {
    pub from: Seq<char>,
    pub to: Seq<char>,
    pub keys: Seq<Seq<char>>,
}

impl View for Edge {
    type V = EdgeView;

    open spec fn view(&self) -> EdgeView {
        EdgeView { from: self.from@, to: self.to@, keys: text::texts(self.keys@) }
    }
}

/// The steps, in order.
pub open spec fn edges_of(s: Seq<Edge>) -> Seq<EdgeView> {
    Seq::new(s.len(), |i: int| s[i]@)
}

/// A state can be reached from one of the sources by at most `n` steps.
pub open spec fn within(edges: Seq<EdgeView>, sources: Seq<Seq<char>>, state: Seq<char>, n: nat) -> bool
    decreases n,
{
    if n == 0 {
        sources.contains(state)
    } else {
        within(edges, sources, state, (n - 1) as nat) || exists|i: int|
            0 <= i < edges.len() && (#[trigger] edges[i]).to == state && within(
                edges,
                sources,
                edges[i].from,
                (n - 1) as nat,
            )
    }
}

/// A state can be reached from one of the sources.
pub open spec fn reachable(edges: Seq<EdgeView>, sources: Seq<Seq<char>>, state: Seq<char>) -> bool {
    exists|n: nat| within(edges, sources, state, n)
}

/// One step further than a reachable state is reachable.
pub proof fn lemma_step(edges: Seq<EdgeView>, sources: Seq<Seq<char>>, i: int)
    requires
        0 <= i < edges.len(),
        reachable(edges, sources, edges[i].from),
    ensures
        reachable(edges, sources, edges[i].to),
{
    let n = choose|n: nat| within(edges, sources, edges[i].from, n);
    assert(within(edges, sources, edges[i].to, n + 1));
}

/// A set of states that holds the sources and is closed under the steps holds
/// every reachable state.
pub proof fn lemma_closed(
    edges: Seq<EdgeView>,
    sources: Seq<Seq<char>>,
    known: Seq<Seq<char>>,
    state: Seq<char>,
    n: nat,
)
    requires
        forall|j: int| 0 <= j < sources.len() ==> known.contains(#[trigger] sources[j]),
        forall|i: int|
            0 <= i < edges.len() ==> (known.contains((#[trigger] edges[i]).from) ==> known.contains(
                edges[i].to,
            )),
        within(edges, sources, state, n),
    ensures
        known.contains(state),
    decreases n,
{
    if n == 0 {
        let j = choose|j: int| 0 <= j < sources.len() && sources[j] == state;
        assert(known.contains(sources[j]));
    } else if within(edges, sources, state, (n - 1) as nat) {
        lemma_closed(edges, sources, known, state, (n - 1) as nat);
    } else {
        let i = choose|i: int|
            0 <= i < edges.len() && (#[trigger] edges[i]).to == state && within(
                edges,
                sources,
                edges[i].from,
                (n - 1) as nat,
            );
        lemma_closed(edges, sources, known, edges[i].from, (n - 1) as nat);
    }
}

/// Where a step can lead, and where the search begins.
pub open spec fn candidates(edges: Seq<EdgeView>, sources: Seq<Seq<char>>) -> Seq<Seq<char>> {
    sources + Seq::new(edges.len(), |i: int| edges[i].to)
}

/// A list without duplicates whose members are all in another list is not longer
/// than that list.
pub proof fn lemma_no_longer(a: Seq<Seq<char>>, b: Seq<Seq<char>>)
    requires
        a.no_duplicates(),
        forall|i: int| 0 <= i < a.len() ==> b.contains(#[trigger] a[i]),
    ensures
        a.len() <= b.len(),
{
    a.unique_seq_to_set();
    vstd::seq_lib::seq_to_set_is_finite(b);
    assert(a.to_set().subset_of(b.to_set())) by {
        assert forall|x: Seq<char>| a.to_set().contains(x) implies b.to_set().contains(x) by {
            assert(a.contains(x));
            let i = choose|i: int| 0 <= i < a.len() && a[i] == x;
            assert(b.contains(a[i]));
        }
    }
    vstd::set_lib::lemma_len_subset(a.to_set(), b.to_set());
    b.lemma_cardinality_of_set();
}

fn push_new(known: &mut Vec<String>, s: &str) -> (r: bool)
    ensures
        r == !text::texts(old(known)@).contains(s@),
        r ==> text::texts(final(known)@) == text::texts(old(known)@).push(s@),
        !r ==> final(known)@ == old(known)@,
{
    if text::has_text(known, s) {
        return false;
    }
    let t = s.to_owned();
    proof {
        text::lemma_texts_push(known@, t);
    }
    known.push(t);
    true
}

/// What holds of the states found so far: each is reachable and none is listed
/// twice.
pub open spec fn sound(
    edges: Seq<EdgeView>,
    sources: Seq<Seq<char>>,
    known: Seq<Seq<char>>,
) -> bool {
    &&& known.no_duplicates()
    &&& forall|j: int|
        0 <= j < known.len() ==> reachable(edges, sources, #[trigger] known[j]) && candidates(
            edges,
            sources,
        ).contains(known[j])
}

/// A list stays sound with one more reachable state.
proof fn lemma_sound_push(
    edges: Seq<EdgeView>,
    sources: Seq<Seq<char>>,
    known: Seq<Seq<char>>,
    s: Seq<char>,
)
    requires
        sound(edges, sources, known),
        !known.contains(s),
        reachable(edges, sources, s),
        candidates(edges, sources).contains(s),
    ensures
        sound(edges, sources, known.push(s)),
{
    let k = known.push(s);
    assert forall|i: int, j: int| 0 <= i < k.len() && 0 <= j < k.len() && i != j implies k[i]
        != k[j] by {
        if i == known.len() {
            assert(known.contains(known[j]));
        } else if j == known.len() {
            assert(known.contains(known[i]));
        }
    }
    assert forall|j: int| 0 <= j < k.len() implies reachable(edges, sources, #[trigger] k[j])
        && candidates(edges, sources).contains(k[j]) by {
        if j < known.len() {
            assert(reachable(edges, sources, known[j]));
        }
    }
}

/// The states that can be reached from the sources.
pub fn closure(edges: &Vec<Edge>, sources: &Vec<String>) -> (r: Vec<String>)
    ensures
        forall|s: Seq<char>|
            text::texts(r@).contains(s) <==> reachable(
                edges_of(edges@),
                text::texts(sources@),
                s,
            ),
        text::texts(r@).no_duplicates(),
{
    let ghost es = edges_of(edges@);
    let ghost src = text::texts(sources@);
    let ghost all = candidates(es, src);
    let mut known: Vec<String> = Vec::new();
    let mut i: usize = 0;
    assert(text::texts(known@) =~= Seq::empty());
    while i < sources.len()
        invariant
            i <= sources.len(),
            es == edges_of(edges@),
            src == text::texts(sources@),
            all == candidates(es, src),
            sound(es, src, text::texts(known@)),
            forall|j: int| 0 <= j < i ==> text::texts(known@).contains(#[trigger] src[j]),
        decreases sources.len() - i,
    {
        let ghost before = text::texts(known@);
        let ghost s = src[i as int];
        assert(s == sources@[i as int]@);
        let new = push_new(&mut known, sources[i].as_str());
        proof {
            assert(within(es, src, s, 0)) by {
                assert(src.contains(src[i as int]));
            }
            assert(all[i as int] == s);
            assert(all.contains(s));
            if new {
                lemma_sound_push(es, src, before, s);
                let now = text::texts(known@);
                assert(now[before.len() as int] == s);
                assert forall|j: int| 0 <= j < i + 1 implies now.contains(#[trigger] src[j]) by {
                    if j < i {
                        assert(before.contains(src[j]));
                        let k = choose|k: int| 0 <= k < before.len() && before[k] == src[j];
                        assert(now[k] == src[j]);
                    }
                }
            }
        }
        i = i + 1;
    }
    let mut changed = true;
    proof {
        lemma_no_longer(text::texts(known@), all);
    }
    while changed
        invariant
            es == edges_of(edges@),
            src == text::texts(sources@),
            all == candidates(es, src),
            sound(es, src, text::texts(known@)),
            forall|j: int| 0 <= j < src.len() ==> text::texts(known@).contains(#[trigger] src[j]),
            known@.len() <= all.len(),
            !changed ==> forall|k: int|
                0 <= k < es.len() ==> (text::texts(known@).contains((#[trigger] es[k]).from)
                    ==> text::texts(known@).contains(es[k].to)),
        decreases all.len() - known@.len(), (if changed {
            1int
        } else {
            0int
        }),
    {
        changed = false;
        let ghost start = known@.len();
        let mut j: usize = 0;
        while j < edges.len()
            invariant
                j <= edges.len(),
                es == edges_of(edges@),
                src == text::texts(sources@),
                all == candidates(es, src),
                sound(es, src, text::texts(known@)),
                forall|q: int|
                    0 <= q < src.len() ==> text::texts(known@).contains(#[trigger] src[q]),
                start <= known@.len() <= all.len(),
                changed ==> start < known@.len(),
                !changed ==> forall|k: int|
                    0 <= k < j ==> (text::texts(known@).contains((#[trigger] es[k]).from)
                        ==> text::texts(known@).contains(es[k].to)),
            decreases edges.len() - j,
        {
            assert(es[j as int] == edges@[j as int]@);
            if text::has_text(&known, edges[j].from.as_str()) {
                let ghost before = text::texts(known@);
                let ghost t = es[j as int].to;
                let new = push_new(&mut known, edges[j].to.as_str());
                if new {
                    proof {
                        let f = es[j as int].from;
                        let q = choose|q: int| 0 <= q < before.len() && before[q] == f;
                        assert(reachable(es, src, before[q]));
                        lemma_step(es, src, j as int);
                        assert(all[src.len() + j as int] == t);
                        assert(all.contains(t));
                        lemma_sound_push(es, src, before, t);
                        let now = text::texts(known@);
                        lemma_no_longer(now, all);
                        assert forall|q: int| 0 <= q < src.len() implies now.contains(
                            #[trigger] src[q],
                        ) by {
                            assert(before.contains(src[q]));
                            let k = choose|k: int| 0 <= k < before.len() && before[k] == src[q];
                            assert(now[k] == src[q]);
                        }
                    }
                    changed = true;
                }
            }
            j = j + 1;
        }
    }
    proof {
        let k = text::texts(known@);
        assert forall|s: Seq<char>| k.contains(s) <==> reachable(es, src, s) by {
            if k.contains(s) {
                let j = choose|j: int| 0 <= j < k.len() && k[j] == s;
                assert(reachable(es, src, k[j]));
            }
            if reachable(es, src, s) {
                let n = choose|n: nat| within(es, src, s, n);
                lemma_closed(es, src, k, s, n);
            }
        }
    }
    known
}

/// The states into which a slot is written: the initial state where the slot is
/// there from the beginning, and the end of every step that writes it and begins in
/// a state that can be reached.
pub open spec fn writes_into(
    edges: Seq<EdgeView>,
    initial: Seq<char>,
    seed: Seq<Seq<char>>,
    slot: Seq<char>,
    state: Seq<char>,
) -> bool {
    (state == initial && seed.contains(slot)) || exists|i: int|
        0 <= i < edges.len() && (#[trigger] edges[i]).to == state && edges[i].keys.contains(slot)
            && reachable(edges, seq![initial], edges[i].from)
}

/// A slot is available in a state: the state can be reached from a state into which
/// the slot is written.
pub open spec fn available(
    edges: Seq<EdgeView>,
    initial: Seq<char>,
    seed: Seq<Seq<char>>,
    slot: Seq<char>,
    state: Seq<char>,
) -> bool {
    exists|n: nat, origin: Seq<char>|
        writes_into(edges, initial, seed, slot, origin) && #[trigger] within(
            edges,
            seq![origin],
            state,
            n,
        )
}

/// Reaching a state from several sources is reaching it from one of them.
proof fn lemma_single_source(
    edges: Seq<EdgeView>,
    sources: Seq<Seq<char>>,
    state: Seq<char>,
    n: nat,
)
    ensures
        within(edges, sources, state, n) <==> exists|j: int|
            0 <= j < sources.len() && within(edges, seq![#[trigger] sources[j]], state, n),
    decreases n,
{
    if n == 0 {
        if sources.contains(state) {
            let j = choose|j: int| 0 <= j < sources.len() && sources[j] == state;
            assert(seq![sources[j]][0] == state);
            assert(within(edges, seq![sources[j]], state, 0));
        }
        assert forall|j: int|
            0 <= j < sources.len() && within(edges, seq![#[trigger] sources[j]], state, n) implies within(
            edges,
            sources,
            state,
            n,
        ) by {
            assert(seq![sources[j]].contains(state));
            assert(sources[j] == state);
        }
    } else {
        let m = (n - 1) as nat;
        lemma_single_source(edges, sources, state, m);
        assert forall|i: int| 0 <= i < edges.len() implies (within(
            edges,
            sources,
            (#[trigger] edges[i]).from,
            m,
        ) <==> exists|j: int|
            0 <= j < sources.len() && within(edges, seq![#[trigger] sources[j]], edges[i].from, m)) by {
            lemma_single_source(edges, sources, edges[i].from, m);
        }
        if within(edges, sources, state, n) {
            if within(edges, sources, state, m) {
                let j = choose|j: int|
                    0 <= j < sources.len() && within(edges, seq![#[trigger] sources[j]], state, m);
                assert(within(edges, seq![sources[j]], state, n));
            } else {
                let i = choose|i: int|
                    0 <= i < edges.len() && (#[trigger] edges[i]).to == state && within(
                        edges,
                        sources,
                        edges[i].from,
                        m,
                    );
                let j = choose|j: int|
                    0 <= j < sources.len() && within(
                        edges,
                        seq![#[trigger] sources[j]],
                        edges[i].from,
                        m,
                    );
                assert(within(edges, seq![sources[j]], state, n));
            }
        }
        assert forall|j: int|
            0 <= j < sources.len() && within(edges, seq![#[trigger] sources[j]], state, n) implies within(
            edges,
            sources,
            state,
            n,
        ) by {
            if within(edges, seq![sources[j]], state, m) {
                assert(within(edges, sources, state, m));
            } else {
                let i = choose|i: int|
                    0 <= i < edges.len() && (#[trigger] edges[i]).to == state && within(
                        edges,
                        seq![sources[j]],
                        edges[i].from,
                        m,
                    );
                assert(within(edges, sources, edges[i].from, m));
            }
        }
    }
}

/// The states into which a slot is written. `reached` lists the states that can be
/// reached from the initial one.
fn origins(
    edges: &Vec<Edge>,
    reached: &Vec<String>,
    initial: &str,
    seed: &Vec<String>,
    slot: &str,
) -> (r: Vec<String>)
    requires
        forall|s: Seq<char>|
            text::texts(reached@).contains(s) <==> reachable(
                edges_of(edges@),
                seq![initial@],
                s,
            ),
    ensures
        forall|s: Seq<char>|
            text::texts(r@).contains(s) <==> writes_into(
                edges_of(edges@),
                initial@,
                text::texts(seed@),
                slot@,
                s,
            ),
{
    let ghost es = edges_of(edges@);
    let ghost sd = text::texts(seed@);
    let mut out: Vec<String> = Vec::new();
    assert(text::texts(out@) =~= Seq::empty());
    if text::has_text(seed, slot) {
        let t = initial.to_owned();
        proof {
            text::lemma_texts_push(out@, t);
        }
        out.push(t);
        assert(text::texts(out@)[0] == initial@);
    }
    let mut i: usize = 0;
    while i < edges.len()
        invariant
            i <= edges.len(),
            es == edges_of(edges@),
            sd == text::texts(seed@),
            forall|s: Seq<char>|
                text::texts(reached@).contains(s) <==> reachable(es, seq![initial@], s),
            forall|q: int|
                0 <= q < out@.len() ==> writes_into(
                    es,
                    initial@,
                    sd,
                    slot@,
                    #[trigger] text::texts(out@)[q],
                ),
            sd.contains(slot@) ==> text::texts(out@).contains(initial@),
            forall|k: int|
                0 <= k < i ==> ((#[trigger] es[k]).keys.contains(slot@) && reachable(
                    es,
                    seq![initial@],
                    es[k].from,
                ) ==> text::texts(out@).contains(es[k].to)),
        decreases edges.len() - i,
    {
        assert(es[i as int] == edges@[i as int]@);
        if text::has_text(&edges[i].keys, slot) && text::has_text(reached, edges[i].from.as_str()) {
            let ghost before = text::texts(out@);
            let t = edges[i].to.clone();
            proof {
                text::lemma_texts_push(out@, t);
            }
            out.push(t);
            proof {
                let now = text::texts(out@);
                assert(now[before.len() as int] == t@);
                assert(es[i as int].to == t@);
                assert forall|q: int| 0 <= q < now.len() implies writes_into(
                    es,
                    initial@,
                    sd,
                    slot@,
                    #[trigger] now[q],
                ) by {
                    if q < before.len() {
                        assert(now[q] == before[q]);
                    }
                }
                assert forall|x: Seq<char>| before.contains(x) implies now.contains(x) by {
                    let k = choose|k: int| 0 <= k < before.len() && before[k] == x;
                    assert(now[k] == x);
                }
            }
        }
        i = i + 1;
    }
    proof {
        let o = text::texts(out@);
        assert forall|s: Seq<char>| o.contains(s) <==> writes_into(es, initial@, sd, slot@, s) by {
            if o.contains(s) {
                let q = choose|q: int| 0 <= q < o.len() && o[q] == s;
                assert(writes_into(es, initial@, sd, slot@, o[q]));
            }
        }
    }
    out
}

/// Whether a slot is available in a state.
pub fn slot_available(
    edges: &Vec<Edge>,
    reached: &Vec<String>,
    initial: &str,
    seed: &Vec<String>,
    slot: &str,
    state: &str,
) -> (r: bool)
    requires
        forall|s: Seq<char>|
            text::texts(reached@).contains(s) <==> reachable(
                edges_of(edges@),
                seq![initial@],
                s,
            ),
    ensures
        r == available(edges_of(edges@), initial@, text::texts(seed@), slot@, state@),
{
    let ghost es = edges_of(edges@);
    let ghost sd = text::texts(seed@);
    let from = origins(edges, reached, initial, seed, slot);
    let ghost src = text::texts(from@);
    let all = closure(edges, &from);
    let r = text::has_text(&all, state);
    proof {
        if r {
            let n = choose|n: nat| within(es, src, state@, n);
            lemma_single_source(es, src, state@, n);
            let j = choose|j: int|
                0 <= j < src.len() && within(es, seq![#[trigger] src[j]], state@, n);
            assert(src.contains(src[j]));
            assert(writes_into(es, initial@, sd, slot@, src[j]));
            assert(within(es, seq![src[j]], state@, n));
        }
        if available(es, initial@, sd, slot@, state@) {
            let (n, origin) = choose|n: nat, origin: Seq<char>|
                writes_into(es, initial@, sd, slot@, origin) && #[trigger] within(
                    es,
                    seq![origin],
                    state@,
                    n,
                );
            assert(src.contains(origin));
            let j = choose|j: int| 0 <= j < src.len() && src[j] == origin;
            assert(within(es, seq![src[j]], state@, n));
            lemma_single_source(es, src, state@, n);
            assert(within(es, src, state@, n));
        }
    }
    r
}

} // verus!
