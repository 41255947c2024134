//! Splitting a text into words at white space.

use vstd::prelude::*;
use crate::text::white_space;
use crate::trim::{copy_range, leading_run, lemma_leading_run};

verus! {

/// The class of characters that are not white space.
pub open spec fn non_space() -> spec_fn(char) -> bool {
    |c: char| !white_space(c)
}

/// The words of `s`: its maximal runs of characters that are not white
/// space, from left to right.
pub open spec fn words(s: Seq<char>) -> Seq<Seq<char>>
    decreases s.len(),
{
    if s.len() == 0 {
        Seq::empty()
    } else if white_space(s[0]) {
        words(s.drop_first())
    } else {
        let n = leading_run(s, non_space()) as int;
        if 0 < n <= s.len() {
            seq![s.take(n)] + words(s.skip(n))
        } else {
            Seq::empty()
        }
    }
}

/// The texts that a vector of character vectors holds.
pub open spec fn texts_of(v: Seq<Vec<char>>) -> Seq<Seq<char>> {
    Seq::new(v.len(), |i: int| v[i]@)
}

/// The words of `text`, from left to right.
pub fn split_words(text: &Vec<char>) -> (out: Vec<Vec<char>>)
    ensures
        texts_of(out@) == words(text@),
{
    let mut out: Vec<Vec<char>> = Vec::new();
    let mut i: usize = 0;
    assert(text@.skip(0) == text@);
    assert(texts_of(out@) == Seq::<Seq<char>>::empty());
    while i < text.len()
        invariant
            i <= text.len(),
            texts_of(out@) + words(text@.skip(i as int)) == words(text@),
        decreases text.len() - i,
    {
        let ghost rest = text@.skip(i as int);
        if text[i].is_whitespace() {
            assert(rest.drop_first() == text@.skip(i + 1));
            i += 1;
        } else {
            let start = i;
            let mut j: usize = i + 1;
            while j < text.len() && !text[j].is_whitespace()
                invariant
                    start < j <= text.len(),
                    forall|k: int| start <= k < j ==> non_space()(#[trigger] text@[k]),
                decreases text.len() - j,
            {
                j += 1;
            }
            let word = copy_range(text, start, j);
            proof {
                assert forall|k: int| 0 <= k < j - start implies non_space()(
                    #[trigger] rest[k],
                ) by {
                    assert(rest[k] == text@[start + k]);
                }
                lemma_leading_run(rest, non_space(), j - start);
                assert(rest.take(j - start) == word@);
                assert(rest.skip(j - start) == text@.skip(j as int));
            }
            let ghost before = texts_of(out@);
            out.push(word);
            assert(texts_of(out@) == before + seq![word@]);
            assert(texts_of(out@) + words(text@.skip(j as int)) == before + words(rest));
            i = j;
        }
    }
    assert(text@.skip(i as int).len() == 0);
    out
}

} // verus!
