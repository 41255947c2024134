//! Cutting a text into its lines.

use vstd::prelude::*;
use crate::trim::{copy_range, leading_run, lemma_leading_run};
use crate::words::texts_of;

verus! {

/// The class of characters that are no line feed.
pub open spec fn within_line() -> spec_fn(char) -> bool {
    |c: char| c != '\n'
}

/// A line without the carriage return that stood before its line feed.
pub open spec fn without_return(line: Seq<char>) -> Seq<char> {
    if line.len() > 0 && line.last() == '\r' {
        line.drop_last()
    } else {
        line
    }
}

/// The lines of `s`. A line ends with a line feed, or with a carriage return
/// and a line feed, which do not belong to it; the last line may end with the
/// text.
pub open spec fn lines_of(s: Seq<char>) -> Seq<Seq<char>>
    decreases s.len(),
{
    if s.len() == 0 {
        Seq::empty()
    } else {
        let n = leading_run(s, within_line()) as int;
        if n >= s.len() {
            seq![s]
        } else {
            seq![without_return(s.take(n))] + lines_of(s.skip(n + 1))
        }
    }
}

/// The lines of `text`.
pub fn split_lines(text: &Vec<char>) -> (out: Vec<Vec<char>>)
    ensures
        texts_of(out@) == lines_of(text@),
{
    let mut out: Vec<Vec<char>> = Vec::new();
    let mut i: usize = 0;
    assert(text@.skip(0) == text@);
    assert(texts_of(out@) == Seq::<Seq<char>>::empty());
    while i < text.len()
        invariant
            i <= text.len(),
            texts_of(out@) + lines_of(text@.skip(i as int)) == lines_of(text@),
        decreases text.len() - i,
    {
        let ghost rest = text@.skip(i as int);
        let start = i;
        let mut j: usize = i;
        while j < text.len() && text[j] != '\n'
            invariant
                start <= j <= text.len(),
                forall|k: int| start <= k < j ==> within_line()(#[trigger] text@[k]),
            decreases text.len() - j,
        {
            j += 1;
        }
        proof {
            assert forall|k: int| 0 <= k < j - start implies within_line()(#[trigger] rest[k]) by {
                assert(rest[k] == text@[start + k]);
            }
            if j < text.len() {
                assert(rest[j - start] == text@[j as int]);
            }
            lemma_leading_run(rest, within_line(), j - start);
        }
        let ghost before = texts_of(out@);
        if j < text.len() {
            let end = if j > start && text[j - 1] == '\r' {
                j - 1
            } else {
                j
            };
            let line = copy_range(text, start, end);
            proof {
                let whole = rest.take(j - start);
                assert(whole == text@.subrange(start as int, j as int));
                if j > start {
                    assert(whole.last() == text@[j - 1]);
                }
                assert(line@ == without_return(whole));
                assert(rest.skip(j - start + 1) == text@.skip(j + 1));
            }
            out.push(line);
            assert(texts_of(out@) == before + seq![line@]);
            i = j + 1;
        } else {
            let line = copy_range(text, start, j);
            assert(line@ == rest);
            out.push(line);
            assert(texts_of(out@) == before + seq![line@]);
            assert(lines_of(text@.skip(j as int)) == Seq::<Seq<char>>::empty());
            i = j;
        }
    }
    assert(text@.skip(i as int).len() == 0);
    out
}

/// The pieces of `s` between its line feeds; a text without line feed is one
/// piece, and a text that ends with a line feed has an empty last piece.
pub open spec fn pieces_of(s: Seq<char>) -> Seq<Seq<char>>
    decreases s.len(),
{
    let n = leading_run(s, within_line()) as int;
    if n >= s.len() {
        seq![s]
    } else {
        seq![s.take(n)] + pieces_of(s.skip(n + 1))
    }
}

/// The pieces of `text` between its line feeds.
pub fn split_pieces(text: &Vec<char>) -> (out: Vec<Vec<char>>)
    ensures
        texts_of(out@) == pieces_of(text@),
{
    let mut out: Vec<Vec<char>> = Vec::new();
    let mut i: usize = 0;
    assert(text@.skip(0) == text@);
    assert(texts_of(out@) == Seq::<Seq<char>>::empty());
    loop
        invariant_except_break
            i <= text.len(),
            texts_of(out@) + pieces_of(text@.skip(i as int)) == pieces_of(text@),
        ensures
            texts_of(out@) == pieces_of(text@),
        decreases text.len() - i,
    {
        let ghost rest = text@.skip(i as int);
        let start = i;
        let mut j: usize = i;
        while j < text.len() && text[j] != '\n'
            invariant
                start <= j <= text.len(),
                forall|k: int| start <= k < j ==> within_line()(#[trigger] text@[k]),
            decreases text.len() - j,
        {
            j += 1;
        }
        proof {
            assert forall|k: int| 0 <= k < j - start implies within_line()(#[trigger] rest[k]) by {
                assert(rest[k] == text@[start + k]);
            }
            if j < text.len() {
                assert(rest[j - start] == text@[j as int]);
            }
            lemma_leading_run(rest, within_line(), j - start);
        }
        let ghost before = texts_of(out@);
        let piece = copy_range(text, start, j);
        assert(piece@ == rest.take(j - start));
        out.push(piece);
        assert(texts_of(out@) == before + seq![piece@]);
        if j < text.len() {
            assert(rest.skip(j - start + 1) == text@.skip(j + 1));
            i = j + 1;
        } else {
            assert(piece@ == rest);
            break;
        }
    }
    out
}

} // verus!
