//! Literal search in a text: presence of a pattern, the number of its
//! occurrences, and the replacement of all of them.

use vstd::prelude::*;

verus! {

/// `pat` stands in `s` at position `i`.
pub open spec fn occurs_at(s: Seq<char>, pat: Seq<char>, i: int) -> bool {
    0 <= i && i + pat.len() <= s.len() && s.subrange(i, i + pat.len()) == pat
}

/// `pat` stands somewhere in `s`. The empty pattern stands in every text.
pub open spec fn has_substring(s: Seq<char>, pat: Seq<char>) -> bool {
    exists|i: int| occurs_at(s, pat, i)
}

/// The number of occurrences of `pat` in `s`, counted from the left without
/// overlap. The empty pattern occurs once before each character and once at
/// the end.
pub open spec fn occurrences(s: Seq<char>, pat: Seq<char>) -> nat
    decreases s.len(),
{
    if pat.len() == 0 {
        s.len() + 1
    } else if s.len() < pat.len() {
        0
    } else if occurs_at(s, pat, 0) {
        1 + occurrences(s.skip(pat.len() as int), pat)
    } else {
        occurrences(s.drop_first(), pat)
    }
}

/// `s` with `to` placed before each character and at the end.
pub open spec fn interleaved(s: Seq<char>, to: Seq<char>) -> Seq<char>
    decreases s.len(),
{
    if s.len() == 0 {
        to
    } else {
        to + seq![s[0]] + interleaved(s.drop_first(), to)
    }
}

/// `s` with every occurrence of the non-empty `from`, taken from the left
/// without overlap, replaced by `to`.
pub open spec fn substituted(s: Seq<char>, from: Seq<char>, to: Seq<char>) -> Seq<char>
    decreases s.len(),
{
    if s.len() == 0 || from.len() == 0 {
        s
    } else if occurs_at(s, from, 0) {
        to + substituted(s.skip(from.len() as int), from, to)
    } else {
        seq![s[0]] + substituted(s.drop_first(), from, to)
    }
}

/// `s` with every occurrence of `from` replaced by `to`.
pub open spec fn replaced(s: Seq<char>, from: Seq<char>, to: Seq<char>) -> Seq<char> {
    if from.len() == 0 {
        interleaved(s, to)
    } else {
        substituted(s, from, to)
    }
}

/// A non-empty pattern occurs at most once per character of the text.
pub proof fn lemma_occurrences_bound(s: Seq<char>, pat: Seq<char>)
    requires
        pat.len() > 0,
    ensures
        occurrences(s, pat) <= s.len(),
    decreases s.len(),
{
    if s.len() < pat.len() {
    } else if occurs_at(s, pat, 0) {
        lemma_occurrences_bound(s.skip(pat.len() as int), pat);
    } else {
        lemma_occurrences_bound(s.drop_first(), pat);
    }
}

/// A text in which a non-empty pattern does not stand is left as it is.
pub proof fn lemma_substituted_absent(s: Seq<char>, from: Seq<char>, to: Seq<char>)
    requires
        from.len() > 0,
        !has_substring(s, from),
    ensures
        substituted(s, from, to) == s,
    decreases s.len(),
{
    if s.len() > 0 {
        assert(!occurs_at(s, from, 0));
        let t = s.drop_first();
        assert forall|i: int| !occurs_at(t, from, i) by {
            if occurs_at(t, from, i) {
                assert(s.subrange(i + 1, i + 1 + from.len()) == t.subrange(i, i + from.len()));
                assert(occurs_at(s, from, i + 1));
            }
        }
        lemma_substituted_absent(t, from, to);
        assert(seq![s[0]] + t == s);
    }
}

/// Whether `pat` stands in `s` at position `i`.
pub fn matches_at(s: &Vec<char>, pat: &Vec<char>, i: usize) -> (found: bool)
    requires
        i <= s.len(),
    ensures
        found == occurs_at(s@, pat@, i as int),
{
    if pat.len() > s.len() - i {
        return false;
    }
    let mut k: usize = 0;
    while k < pat.len()
        invariant
            k <= pat.len(),
            i + pat.len() <= s.len(),
            forall|j: int| 0 <= j < k ==> s@[i + j] == pat@[j],
        decreases pat.len() - k,
    {
        if s[i + k] != pat[k] {
            assert(s@.subrange(i as int, i + pat.len())[k as int] == s@[i + k]);
            return false;
        }
        k += 1;
    }
    assert(s@.subrange(i as int, i + pat.len()) =~= pat@);
    true
}

/// Whether `pat` stands somewhere in `s`.
pub fn contains(s: &Vec<char>, pat: &Vec<char>) -> (found: bool)
    ensures
        found == has_substring(s@, pat@),
{
    let mut i: usize = 0;
    while i < s.len()
        invariant
            i <= s.len(),
            forall|j: int| 0 <= j < i ==> !occurs_at(s@, pat@, j),
        decreases s.len() - i,
    {
        if matches_at(s, pat, i) {
            return true;
        }
        i += 1;
    }
    matches_at(s, pat, i)
}

/// The number of occurrences of the non-empty `pat` in `s`.
pub fn count_occurrences(s: &Vec<char>, pat: &Vec<char>) -> (n: usize)
    requires
        pat.len() > 0,
    ensures
        n == occurrences(s@, pat@),
{
    let mut n: usize = 0;
    let mut i: usize = 0;
    assert(s@.skip(0) == s@);
    while i < s.len()
        invariant
            i <= s.len(),
            pat.len() > 0,
            n + occurrences(s@.skip(i as int), pat@) == occurrences(s@, pat@),
            n <= i,
        decreases s.len() - i,
    {
        let ghost rest = s@.skip(i as int);
        proof {
            lemma_occurrences_bound(rest, pat@);
        }
        if matches_at(s, pat, i) {
            assert(rest.subrange(0, pat.len() as int) == s@.subrange(i as int, i + pat.len()));
            assert(rest.skip(pat.len() as int) == s@.skip(i + pat.len()));
            n += 1;
            i += pat.len();
        } else {
            assert(rest.len() >= pat.len() ==> rest.subrange(0, pat.len() as int) == s@.subrange(
                i as int,
                i + pat.len(),
            ));
            assert(rest.drop_first() == s@.skip(i + 1));
            proof {
                if rest.len() < pat.len() {
                    lemma_occurrences_short(rest.drop_first(), pat@);
                }
            }
            i += 1;
        }
    }
    assert(s@.skip(i as int).len() == 0);
    n
}

/// A text shorter than the pattern holds no occurrence of it.
pub proof fn lemma_occurrences_short(s: Seq<char>, pat: Seq<char>)
    requires
        s.len() < pat.len(),
    ensures
        occurrences(s, pat) == 0,
{
}

/// Appends the characters of `src` to `out`.
pub fn append(out: &mut Vec<char>, src: &Vec<char>)
    ensures
        final(out)@ == old(out)@ + src@,
{
    let mut k: usize = 0;
    while k < src.len()
        invariant
            k <= src.len(),
            out@ == old(out)@ + src@.take(k as int),
        decreases src.len() - k,
    {
        out.push(src[k]);
        k += 1;
    }
    assert(src@.take(src.len() as int) == src@);
}

/// `s` with every occurrence of `from` replaced by `to`.
pub fn replace_all(s: &Vec<char>, from: &Vec<char>, to: &Vec<char>) -> (out: Vec<char>)
    ensures
        out@ == replaced(s@, from@, to@),
{
    let mut out: Vec<char> = Vec::new();
    let mut i: usize = 0;
    assert(s@.skip(0) == s@);
    if from.len() == 0 {
        while i < s.len()
            invariant
                i <= s.len(),
                out@ + interleaved(s@.skip(i as int), to@) == interleaved(s@, to@),
            decreases s.len() - i,
        {
            let ghost rest = s@.skip(i as int);
            let ghost before = out@;
            assert(rest.drop_first() == s@.skip(i + 1));
            append(&mut out, to);
            out.push(s[i]);
            assert(out@ + interleaved(rest.drop_first(), to@) == before + interleaved(rest, to@));
            i += 1;
        }
        assert(s@.skip(i as int).len() == 0);
        append(&mut out, to);
        return out;
    }
    while i < s.len()
        invariant
            i <= s.len(),
            from.len() > 0,
            out@ + substituted(s@.skip(i as int), from@, to@) == substituted(s@, from@, to@),
        decreases s.len() - i,
    {
        let ghost rest = s@.skip(i as int);
        let ghost before = out@;
        if matches_at(s, from, i) {
            assert(rest.subrange(0, from.len() as int) == s@.subrange(i as int, i + from.len()));
            assert(rest.skip(from.len() as int) == s@.skip(i + from.len()));
            append(&mut out, to);
            assert(out@ + substituted(rest.skip(from.len() as int), from@, to@) == before
                + substituted(rest, from@, to@));
            i += from.len();
        } else {
            assert(rest.len() >= from.len() ==> rest.subrange(0, from.len() as int)
                == s@.subrange(i as int, i + from.len()));
            assert(rest.drop_first() == s@.skip(i + 1));
            out.push(s[i]);
            assert(out@ + substituted(rest.drop_first(), from@, to@) == before + substituted(
                rest,
                from@,
                to@,
            ));
            i += 1;
        }
    }
    assert(s@.skip(i as int).len() == 0);
    out
}

} // verus!
