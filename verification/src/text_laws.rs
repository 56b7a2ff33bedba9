//! What the operations on texts are for: laws about trimming, finding, splitting, replacing,
//! numerals and the order of texts.
use crate::text;
use vstd::prelude::*;

verus! {

/// Every character is white space.
pub open spec fn blank(s: Seq<char>) -> bool {
    forall|i: int| 0 <= i < s.len() ==> text::char_is_whitespace(#[trigger] s[i])
}

proof fn lemma_trimmed_start(a: Seq<char>, m: Seq<char>)
    requires
        blank(a),
        m.len() > 0 ==> !text::char_is_whitespace(m[0]),
    ensures
        text::trimmed_start(a + m) == m,
    decreases a.len(),
{
    if a.len() > 0 {
        assert(text::char_is_whitespace(a[0]));
        assert((a + m)[0] == a[0]);
        let rest = a.skip(1);
        assert(blank(rest)) by {
            assert forall|i: int| 0 <= i < rest.len() implies text::char_is_whitespace(
                #[trigger] rest[i],
            ) by {
                assert(rest[i] == a[i + 1]);
            }
        }
        assert((a + m).skip(1) =~= rest + m);
        lemma_trimmed_start(rest, m);
    } else {
        assert(a + m =~= m);
    }
}

proof fn lemma_trimmed_end(m: Seq<char>, b: Seq<char>)
    requires
        blank(b),
        m.len() > 0 ==> !text::char_is_whitespace(m.last()),
    ensures
        text::trimmed_end(m + b) == m,
    decreases b.len(),
{
    if b.len() > 0 {
        assert(text::char_is_whitespace(b[b.len() - 1]));
        assert((m + b).last() == b.last());
        let rest = b.drop_last();
        assert(blank(rest)) by {
            assert forall|i: int| 0 <= i < rest.len() implies text::char_is_whitespace(
                #[trigger] rest[i],
            ) by {
                assert(rest[i] == b[i]);
            }
        }
        assert((m + b).drop_last() =~= m + rest);
        lemma_trimmed_end(m, rest);
    } else {
        assert(m + b =~= m);
    }
}

/// Trimming takes off the white space on both sides and nothing else; nothing is left of a
/// blank text.
pub proof fn law_only_outer_white_space_is_trimmed(a: Seq<char>, m: Seq<char>, b: Seq<char>)
    requires
        blank(a),
        blank(b),
        m.len() > 0 ==> !text::char_is_whitespace(m[0]) && !text::char_is_whitespace(m.last()),
    ensures
        m.len() > 0 ==> text::trimmed(a + m + b) == m,
        text::trimmed(a).len() == 0,
{
    if m.len() > 0 {
        assert(a + m + b =~= a + (m + b));
        assert((m + b)[0] == m[0]);
        lemma_trimmed_start(a, m + b);
        lemma_trimmed_end(m, b);
    }
    let nothing = Seq::<char>::empty();
    lemma_trimmed_start(a, nothing);
    assert(a + nothing =~= a);
    lemma_trimmed_end(nothing, nothing);
    assert(nothing + nothing =~= nothing);
}

/// A pattern is found at the first position where it occurs, and not found where it occurs
/// nowhere.
pub proof fn law_the_first_occurrence_is_found(s: Seq<char>, pat: Seq<char>, i: int)
    requires
        0 <= i,
        pat.len() > 0,
    ensures
        text::find_pos(s, pat, i) matches Some(k) ==> i <= k && text::occurs_at(s, pat, k)
            && forall|j: int| i <= j < k ==> !#[trigger] text::occurs_at(s, pat, j),
        text::find_pos(s, pat, i) is None ==> forall|j: int|
            i <= j ==> !#[trigger] text::occurs_at(s, pat, j),
    decreases s.len() - i,
{
    if i + pat.len() <= s.len() && s.subrange(i, i + pat.len()) != pat {
        law_the_first_occurrence_is_found(s, pat, i + 1);
        assert(!text::occurs_at(s, pat, i));
    }
}

/// The pieces with the character between each two.
pub open spec fn rejoined(parts: Seq<Seq<char>>, c: char) -> Seq<char>
    decreases parts.len(),
{
    if parts.len() == 0 {
        Seq::empty()
    } else if parts.len() == 1 {
        parts[0]
    } else {
        rejoined(parts.drop_last(), c).push(c) + parts.last()
    }
}

/// The pieces of a text, put together again, are the text, and none of them holds the
/// character.
pub proof fn law_pieces_make_the_text(s: Seq<char>, c: char)
    ensures
        text::split(s, c).len() > 0,
        rejoined(text::split(s, c), c) == s,
        forall|i: int, j: int|
            0 <= i < text::split(s, c).len() && 0 <= j < text::split(s, c)[i].len()
                ==> #[trigger] text::split(s, c)[i][j] != c,
    decreases s.len(),
{
    let parts = text::split(s, c);
    if s.len() == 0 {
        assert(parts.len() == 1);
        assert(parts[0] =~= s);
        assert(rejoined(parts, c) =~= s);
    } else {
        let before = text::split(s.drop_last(), c);
        law_pieces_make_the_text(s.drop_last(), c);
        if s.last() == c {
            assert(parts.drop_last() =~= before);
            assert(rejoined(parts, c) =~= s.drop_last().push(c));
            assert(s.drop_last().push(c) =~= s);
        } else {
            assert(parts.drop_last() =~= before.drop_last());
            assert(parts.last() == before.last().push(s.last()));
            if parts.len() == 1 {
                assert(before[0] == before.last());
                assert(rejoined(before, c) == before[0]);
                assert(rejoined(parts, c) == parts[0]);
                assert(parts[0] =~= s.drop_last().push(s.last()));
            } else {
                assert(rejoined(parts, c) =~= rejoined(before, c).push(s.last()));
            }
            assert(s.drop_last().push(s.last()) =~= s);
            assert forall|i: int, j: int|
                0 <= i < parts.len() && 0 <= j < parts[i].len() implies #[trigger] parts[i][j]
                != c by {
                if i < parts.len() - 1 {
                    assert(parts[i] == before[i]);
                    assert(before[i][j] != c);
                } else if j < parts[i].len() - 1 {
                    assert(before[i][j] != c);
                }
            }
        }
    }
}

/// Each occurrence of a character is replaced, and every other character stays where it is
/// among the rest.
pub proof fn law_every_occurrence_is_replaced(a: Seq<char>, c: char, t: Seq<char>, b: Seq<char>)
    requires
        !a.contains(c),
    ensures
        text::replaced_char(a, c, t) == a,
        text::replaced_char(b + seq![c] + a, c, t) == text::replaced_char(b, c, t) + t + a,
    decreases a.len(),
{
    let s = b + seq![c] + a;
    if a.len() == 0 {
        assert(s.last() == c);
        assert(s.drop_last() =~= b);
        assert(text::replaced_char(b, c, t) + t + a =~= text::replaced_char(b, c, t) + t);
    } else {
        let q = a.drop_last();
        assert(!q.contains(c)) by {
            if q.contains(c) {
                let i = choose|i: int| 0 <= i < q.len() && q[i] == c;
                assert(a[i] == c);
            }
        }
        assert(a[a.len() - 1] == a.last());
        law_every_occurrence_is_replaced(q, c, t, b);
        assert(s.last() == a.last());
        assert(s.drop_last() =~= b + seq![c] + q);
        assert(q.push(a.last()) =~= a);
        assert((text::replaced_char(b, c, t) + t + q).push(a.last()) =~= text::replaced_char(
            b,
            c,
            t,
        ) + t + a);
    }
}

/// The numeral of a number has digits only, does not begin with a zero unless it is the zero,
/// and is read back as the number.
pub proof fn law_numerals_are_read_back(n: nat)
    ensures
        text::decimal(n).len() > 0,
        text::all_digits(text::decimal(n)),
        text::number_of(text::decimal(n)) == n,
        n > 0 ==> text::decimal(n)[0] != '0',
    decreases n,
{
    let s = text::decimal(n);
    if n < 10 {
        assert(s.drop_last() =~= Seq::<char>::empty());
        assert(text::number_of(s.drop_last()) == 0);
        assert(s.last() as nat == 48 + n);
    } else {
        let before = text::decimal(n / 10);
        law_numerals_are_read_back(n / 10);
        assert(s.drop_last() =~= before);
        assert(s.last() as nat == 48 + n % 10);
        assert(s[0] == before[0]);
        assert forall|i: int| 0 <= i < s.len() implies text::is_digit(#[trigger] s[i]) by {
            if i < before.len() {
                assert(s[i] == before[i]);
            }
        }
        assert((n / 10) * 10 + n % 10 == n);
    }
}

proof fn lemma_text_order(a: Seq<char>, b: Seq<char>, i: nat)
    requires
        forall|j: int| 0 <= j < i ==> j < a.len() && j < b.len() && #[trigger] a[j] == b[j],
    ensures
        text::text_lt_from(a, b, i) <==> exists|k: int| parts_at(a, b, k),
    decreases b.len() - i,
{
    if i >= b.len() {
        assert forall|k: int| !parts_at(a, b, k) by {
            if parts_at(a, b, k) {
                assert(a[k] == b[k]);
            }
        }
    } else if i >= a.len() {
        assert(parts_at(a, b, a.len() as int));
    } else if a[i as int] == b[i as int] {
        lemma_text_order(a, b, i + 1);
    } else {
        if a[i as int] < b[i as int] {
            assert(parts_at(a, b, i as int));
        }
        if exists|k: int| parts_at(a, b, k) {
            let k = choose|k: int| parts_at(a, b, k);
            if k < i {
                assert(a[k] == b[k]);
            } else if k > i {
                assert(a[i as int] == b[i as int]);
            }
        }
    }
}

/// The texts are the same up to that position, where the first ends or has the smaller
/// character.
pub open spec fn parts_at(a: Seq<char>, b: Seq<char>, k: int) -> bool {
    &&& 0 <= k < b.len()
    &&& k <= a.len()
    &&& forall|j: int| 0 <= j < k ==> #[trigger] a[j] == b[j]
    &&& k < a.len() ==> a[k] < b[k]
}

/// A text comes before another exactly where it is a beginning of it, or has the smaller
/// character where they first differ.
pub proof fn law_texts_are_ordered(a: Seq<char>, b: Seq<char>)
    ensures
        text::text_lt(a, b) <==> exists|k: int| parts_at(a, b, k),
{
    lemma_text_order(a, b, 0);
}

/// Texts are put together with one space between each two.
pub proof fn law_one_space_between(ws: Seq<Seq<char>>, w: Seq<char>)
    ensures
        text::spaced(Seq::empty()).len() == 0,
        text::spaced(seq![w]) == w,
        ws.len() > 0 ==> text::spaced(ws.push(w)) == text::spaced(ws) + seq![' '] + w,
{
    assert(ws.push(w).drop_last() =~= ws);
    assert(text::spaced(ws).push(' ') =~= text::spaced(ws) + seq![' ']);
}

} // verus!
