//! What is hashed of a body: laws about its words and its last line.
use crate::config_hash;
use crate::text;
use vstd::prelude::*;

verus! {

/// No character is white space.
pub open spec fn solid(s: Seq<char>) -> bool {
    forall|i: int| 0 <= i < s.len() ==> !text::char_is_whitespace(#[trigger] s[i])
}

/// White space ends a word and adds none; a run of other characters behind it is one more
/// word.
pub proof fn law_words_of_a_body(s: Seq<char>, c: char, w: Seq<char>)
    requires
        text::char_is_whitespace(c),
        solid(w),
    ensures
        config_hash::words(s.push(c)) == config_hash::words(s),
        w.len() > 0 ==> config_hash::words(s.push(c) + w) == config_hash::words(s).push(w),
        w.len() > 0 ==> config_hash::words(w) == seq![w],
        config_hash::words(Seq::empty()).len() == 0,
    decreases w.len(),
{
    assert(s.push(c).drop_last() =~= s);
    if w.len() > 0 {
        let q = w.drop_last();
        assert(!text::char_is_whitespace(w[w.len() - 1]));
        assert(solid(q)) by {
            assert forall|i: int| 0 <= i < q.len() implies !text::char_is_whitespace(
                #[trigger] q[i],
            ) by {
                assert(q[i] == w[i]);
            }
        }
        law_words_of_a_body(s, c, q);
        let t = s.push(c) + w;
        assert(t.drop_last() =~= s.push(c) + q);
        assert(t.last() == w.last());
        if q.len() == 0 {
            assert(s.push(c) + q =~= s.push(c));
            assert(t[t.len() - 2] == c);
            assert(seq![w.last()] =~= w);
            assert(q =~= Seq::<char>::empty());
        } else {
            assert(t[t.len() - 2] == q.last());
            assert(!text::char_is_whitespace(q[q.len() - 1]));
            assert(w[w.len() - 2] == q.last());
            assert(q.push(w.last()) =~= w);
            let before = config_hash::words(s);
            assert(before.push(q).drop_last() =~= before);
            assert(seq![q].drop_last() =~= Seq::<Seq<char>>::empty());
            assert(config_hash::words(w) =~= seq![w]);
        }
    }
}

/// The form of a skill body that is hashed is its words with one space between each two.
pub proof fn law_skills_are_hashed_by_their_words(body: Seq<char>)
    ensures
        config_hash::skill_hash(body) == "sha256:"@ + config_hash::sha256_hex_text(
            text::spaced(config_hash::words(body)),
        ),
{
}

/// The form of a script body that is hashed is the body with exactly one newline at its end.
pub proof fn law_scripts_are_hashed_with_one_newline(m: Seq<char>, n: nat)
    requires
        m.len() > 0 ==> m.last() != '\n',
    ensures
        config_hash::script_normalized(m + Seq::new(n, |i: int| '\n')) == m.push('\n'),
        config_hash::script_hash(m + Seq::new(n, |i: int| '\n')) == "sha256:"@
            + config_hash::sha256_hex_text(m.push('\n')),
    decreases n,
{
    let s = m + Seq::new(n, |i: int| '\n');
    if n > 0 {
        law_scripts_are_hashed_with_one_newline(m, (n - 1) as nat);
        assert(s.last() == '\n');
        assert(s.drop_last() =~= m + Seq::new((n - 1) as nat, |i: int| '\n'));
    } else {
        assert(s =~= m);
    }
}

} // verus!
