//! Stripping a class of characters from both ends of a text.

use vstd::prelude::*;
use crate::text::{alphabetic, white_space};

verus! {

/// The class of white-space characters.
pub open spec fn whitespace() -> spec_fn(char) -> bool {
    |c: char| white_space(c)
}

/// The class of characters that are not letters.
pub open spec fn non_letter() -> spec_fn(char) -> bool {
    |c: char| !alphabetic(c)
}

/// How many characters at the start of `s` belong to the class `p`.
pub open spec fn leading_run(s: Seq<char>, p: spec_fn(char) -> bool) -> nat
    decreases s.len(),
{
    if s.len() > 0 && p(s[0]) {
        1 + leading_run(s.drop_first(), p)
    } else {
        0
    }
}

/// How many characters at the end of `s` belong to the class `p`.
pub open spec fn trailing_run(s: Seq<char>, p: spec_fn(char) -> bool) -> nat
    decreases s.len(),
{
    if s.len() > 0 && p(s.last()) {
        1 + trailing_run(s.drop_last(), p)
    } else {
        0
    }
}

/// `s` without the characters of class `p` at its two ends.
pub open spec fn stripped(s: Seq<char>, p: spec_fn(char) -> bool) -> Seq<char> {
    if leading_run(s, p) >= s.len() {
        Seq::empty()
    } else {
        s.subrange(leading_run(s, p) as int, s.len() - trailing_run(s, p))
    }
}

/// `s` without leading and trailing white space.
pub open spec fn trimmed(s: Seq<char>) -> Seq<char> {
    stripped(s, whitespace())
}

/// `s` without the non-letters at its two ends.
pub open spec fn letters_core(s: Seq<char>) -> Seq<char> {
    stripped(s, non_letter())
}

/// A prefix of class `p` that stops at the end or at a character outside `p`
/// is the leading run.
pub proof fn lemma_leading_run(s: Seq<char>, p: spec_fn(char) -> bool, i: int)
    requires
        0 <= i <= s.len(),
        forall|k: int| 0 <= k < i ==> p(#[trigger] s[k]),
        i == s.len() || !p(s[i]),
    ensures
        leading_run(s, p) == i,
    decreases i,
{
    if i > 0 {
        let t = s.drop_first();
        assert forall|k: int| 0 <= k < i - 1 implies p(#[trigger] t[k]) by {
            assert(t[k] == s[k + 1]);
        }
        lemma_leading_run(t, p, i - 1);
    }
}

/// A suffix of class `p` that stops at the start or at a character outside
/// `p` is the trailing run.
pub proof fn lemma_trailing_run(s: Seq<char>, p: spec_fn(char) -> bool, j: int)
    requires
        0 <= j <= s.len(),
        forall|k: int| j <= k < s.len() ==> p(#[trigger] s[k]),
        j == 0 || !p(s[j - 1]),
    ensures
        trailing_run(s, p) == s.len() - j,
    decreases s.len() - j,
{
    if j < s.len() {
        let t = s.drop_last();
        assert forall|k: int| j <= k < t.len() implies p(#[trigger] t[k]) by {
            assert(t[k] == s[k]);
        }
        lemma_trailing_run(t, p, j);
    }
}

/// The leading run is a prefix of class `p` and ends where the class ends.
pub proof fn lemma_leading_run_is_prefix(s: Seq<char>, p: spec_fn(char) -> bool)
    ensures
        leading_run(s, p) <= s.len(),
        forall|k: int| 0 <= k < leading_run(s, p) ==> p(#[trigger] s[k]),
        leading_run(s, p) < s.len() ==> !p(s[leading_run(s, p) as int]),
    decreases s.len(),
{
    if s.len() > 0 && p(s[0]) {
        let t = s.drop_first();
        lemma_leading_run_is_prefix(t, p);
        assert forall|k: int| 0 <= k < leading_run(s, p) implies p(#[trigger] s[k]) by {
            if k > 0 {
                assert(s[k] == t[k - 1]);
            }
        }
        if leading_run(s, p) < s.len() {
            assert(s[leading_run(s, p) as int] == t[leading_run(t, p) as int]);
        }
    }
}

/// The trailing run is a suffix of class `p` and starts where the class starts.
pub proof fn lemma_trailing_run_is_suffix(s: Seq<char>, p: spec_fn(char) -> bool)
    ensures
        trailing_run(s, p) <= s.len(),
        forall|k: int| s.len() - trailing_run(s, p) <= k < s.len() ==> p(#[trigger] s[k]),
        trailing_run(s, p) < s.len() ==> !p(s[s.len() - trailing_run(s, p) - 1]),
    decreases s.len(),
{
    if s.len() > 0 && p(s.last()) {
        let t = s.drop_last();
        lemma_trailing_run_is_suffix(t, p);
        assert forall|k: int| s.len() - trailing_run(s, p) <= k < s.len() implies p(
            #[trigger] s[k],
        ) by {
            if k < s.len() - 1 {
                assert(s[k] == t[k]);
            }
        }
        if trailing_run(s, p) < s.len() {
            assert(s[s.len() - trailing_run(s, p) - 1] == t[t.len() - trailing_run(t, p) - 1]);
        }
    }
}

/// A stripped text neither starts nor ends with a character of the class, so
/// stripping it again changes nothing.
pub proof fn lemma_stripped_twice(s: Seq<char>, p: spec_fn(char) -> bool)
    ensures
        stripped(stripped(s, p), p) == stripped(s, p),
{
    let t = stripped(s, p);
    lemma_leading_run_is_prefix(s, p);
    lemma_trailing_run_is_suffix(s, p);
    if t.len() > 0 {
        let a = leading_run(s, p) as int;
        let b = s.len() - trailing_run(s, p);
        assert(t[0] == s[a]);
        assert(!p(s[a]));
        if b <= a {
            assert(p(s[a]));
        }
        assert(t.last() == s[b - 1]);
        lemma_leading_run(t, p, 0);
        lemma_trailing_run(t, p, t.len() as int);
        assert(t.subrange(0, t.len() as int) == t);
    } else {
        lemma_leading_run(t, p, 0);
    }
}

/// A character outside the class that stands in a text stands in the
/// stripped text too.
pub proof fn lemma_stripped_keeps(s: Seq<char>, p: spec_fn(char) -> bool, c: char)
    requires
        s.contains(c),
        !p(c),
    ensures
        stripped(s, p).contains(c),
{
    lemma_leading_run_is_prefix(s, p);
    lemma_trailing_run_is_suffix(s, p);
    let i = choose|i: int| 0 <= i < s.len() && s[i] == c;
    let a = leading_run(s, p) as int;
    let b = s.len() - trailing_run(s, p);
    if i < a {
        assert(p(s[i]));
    }
    if i >= b {
        assert(p(s[i]));
    }
    assert(stripped(s, p)[i - a] == c);
}

/// `text` without leading and trailing white space.
pub fn trim(text: &Vec<char>) -> (out: Vec<char>)
    ensures
        out@ == trimmed(text@),
{
    let mut start: usize = 0;
    while start < text.len() && text[start].is_whitespace()
        invariant
            start <= text.len(),
            forall|k: int| 0 <= k < start ==> whitespace()(#[trigger] text@[k]),
        decreases text.len() - start,
    {
        start += 1;
    }
    proof {
        lemma_leading_run(text@, whitespace(), start as int);
    }
    let mut end: usize = text.len();
    while end > 0 && text[end - 1].is_whitespace()
        invariant
            end <= text.len(),
            forall|k: int| end <= k < text.len() ==> whitespace()(#[trigger] text@[k]),
        decreases end,
    {
        end -= 1;
    }
    proof {
        lemma_trailing_run(text@, whitespace(), end as int);
    }
    if start >= end {
        Vec::new()
    } else {
        copy_range(text, start, end)
    }
}

/// `text` without the non-letters at its two ends.
pub fn strip_non_letters(text: &Vec<char>) -> (out: Vec<char>)
    ensures
        out@ == letters_core(text@),
{
    let mut start: usize = 0;
    while start < text.len() && !text[start].is_alphabetic()
        invariant
            start <= text.len(),
            forall|k: int| 0 <= k < start ==> non_letter()(#[trigger] text@[k]),
        decreases text.len() - start,
    {
        start += 1;
    }
    proof {
        lemma_leading_run(text@, non_letter(), start as int);
    }
    let mut end: usize = text.len();
    while end > 0 && !text[end - 1].is_alphabetic()
        invariant
            end <= text.len(),
            forall|k: int| end <= k < text.len() ==> non_letter()(#[trigger] text@[k]),
        decreases end,
    {
        end -= 1;
    }
    proof {
        lemma_trailing_run(text@, non_letter(), end as int);
    }
    if start >= end {
        Vec::new()
    } else {
        copy_range(text, start, end)
    }
}

/// The characters of `text` from `start` up to `end`.
pub fn copy_range(text: &Vec<char>, start: usize, end: usize) -> (out: Vec<char>)
    requires
        start <= end <= text.len(),
    ensures
        out@ == text@.subrange(start as int, end as int),
{
    let mut out: Vec<char> = Vec::new();
    let mut i: usize = start;
    while i < end
        invariant
            start <= i <= end <= text.len(),
            out@ == text@.subrange(start as int, i as int),
        decreases end - i,
    {
        out.push(text[i]);
        i += 1;
    }
    out
}

} // verus!
