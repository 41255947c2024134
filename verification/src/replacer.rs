//! The replacer: trims a text, removes what stands in brackets, and puts the
//! profile's replacements in.

use vstd::prelude::*;
use crate::rules::{Profile, Rules};
use crate::search::{
    has_substring, lemma_substituted_absent, occurs_at, replace_all, replaced, substituted,
};
use crate::text::{chars_of, string_of};
use crate::trim::{leading_run, lemma_leading_run, trim, trimmed};

verus! {

/// The characters that may stand between two matching brackets: neither
/// bracket and no line break.
pub open spec fn inside(open: char, close: char) -> spec_fn(char) -> bool {
    |c: char| c != open && c != close && c != '\n'
}

/// The length of the innermost bracketed span with which `s` starts; 0 where
/// it starts with none.
pub open spec fn span_at_start(s: Seq<char>, open: char, close: char) -> nat {
    if s.len() > 0 && s[0] == open {
        let n = leading_run(s.drop_first(), inside(open, close));
        if n + 1 < s.len() && s[n as int + 1] == close {
            n + 2
        } else {
            0
        }
    } else {
        0
    }
}

/// `s` with every innermost bracketed span, taken from the left, replaced by
/// one space.
pub open spec fn without_spans(s: Seq<char>, open: char, close: char) -> Seq<char>
    decreases s.len(),
{
    if s.len() == 0 {
        s
    } else {
        let n = span_at_start(s, open, close) as int;
        if 0 < n <= s.len() {
            seq![' '] + without_spans(s.skip(n), open, close)
        } else {
            seq![s[0]] + without_spans(s.drop_first(), open, close)
        }
    }
}

/// Two spaces.
pub open spec fn double_space() -> Seq<char> {
    seq![' ', ' ']
}

/// One space.
pub open spec fn single_space() -> Seq<char> {
    seq![' ']
}

/// One pass of bracket removal: the innermost spans become a space, then
/// each double space becomes a single one.
pub open spec fn bracket_pass(s: Seq<char>, open: char, close: char) -> Seq<char> {
    replaced(without_spans(s, open, close), double_space(), single_space())
}

/// `s` after `n` passes of bracket removal.
pub open spec fn bracket_passes(s: Seq<char>, open: char, close: char, n: nat) -> Seq<char>
    decreases n,
{
    if n == 0 {
        s
    } else {
        bracket_pass(bracket_passes(s, open, close, (n - 1) as nat), open, close)
    }
}

/// `s` after as many passes of bracket removal as shorten it.
pub open spec fn without_brackets(s: Seq<char>, open: char, close: char) -> Seq<char>
    decreases s.len(),
{
    let t = bracket_pass(s, open, close);
    if t.len() < s.len() {
        without_brackets(t, open, close)
    } else {
        s
    }
}

/// `s` after the removal of each pair of brackets in turn.
pub open spec fn apply_brackets(s: Seq<char>, pairs: Seq<(char, char)>) -> Seq<char>
    decreases pairs.len(),
{
    if pairs.len() == 0 {
        s
    } else {
        without_brackets(apply_brackets(s, pairs.drop_last()), pairs.last().0, pairs.last().1)
    }
}

/// `s` after each replacement in turn; an entry that is no pair is passed
/// over.
pub open spec fn apply_replacements(s: Seq<char>, entries: Seq<Seq<Seq<char>>>) -> Seq<char>
    decreases entries.len(),
{
    if entries.len() == 0 {
        s
    } else {
        let before = apply_replacements(s, entries.drop_last());
        let entry = entries.last();
        if entry.len() == 2 {
            replaced(before, entry[0], entry[1])
        } else {
            before
        }
    }
}

/// The normalized form of `raw` under the profile.
pub open spec fn normalized(p: Profile, raw: Seq<char>) -> Seq<char> {
    apply_replacements(apply_brackets(trimmed(raw), p.remove_brackets_list), p.replacements)
}

/// Replacing spans by a space never lengthens a text, and a text of the same
/// length is the same text.
pub proof fn lemma_without_spans_shrinks(s: Seq<char>, open: char, close: char)
    ensures
        without_spans(s, open, close).len() <= s.len(),
        without_spans(s, open, close).len() == s.len() ==> without_spans(s, open, close) == s,
    decreases s.len(),
{
    if s.len() > 0 {
        let n = span_at_start(s, open, close) as int;
        if 0 < n <= s.len() {
            lemma_without_spans_shrinks(s.skip(n), open, close);
        } else {
            lemma_without_spans_shrinks(s.drop_first(), open, close);
            if without_spans(s, open, close).len() == s.len() {
                assert(seq![s[0]] + s.drop_first() == s);
            }
        }
    }
}

/// Putting a shorter text in place of a longer one never lengthens a text,
/// and a text of the same length is the same text.
pub proof fn lemma_substituted_shrinks(s: Seq<char>, from: Seq<char>, to: Seq<char>)
    requires
        to.len() < from.len(),
    ensures
        substituted(s, from, to).len() <= s.len(),
        substituted(s, from, to).len() == s.len() ==> substituted(s, from, to) == s,
    decreases s.len(),
{
    if s.len() > 0 {
        if occurs_at(s, from, 0) {
            lemma_substituted_shrinks(s.skip(from.len() as int), from, to);
        } else {
            lemma_substituted_shrinks(s.drop_first(), from, to);
            if substituted(s, from, to).len() == s.len() {
                assert(seq![s[0]] + s.drop_first() == s);
            }
        }
    }
}

/// A pass of bracket removal never lengthens a text, and it leaves the
/// length as it is only where it leaves the text as it is.
pub proof fn lemma_bracket_pass_shrinks(s: Seq<char>, open: char, close: char)
    ensures
        bracket_pass(s, open, close).len() <= s.len(),
        bracket_pass(s, open, close).len() == s.len() <==> bracket_pass(s, open, close) == s,
{
    lemma_without_spans_shrinks(s, open, close);
    lemma_substituted_shrinks(without_spans(s, open, close), double_space(), single_space());
}

/// Bracket removal ends: after at most as many passes as the text has
/// characters, a further pass changes nothing, and that text is the result.
pub proof fn lemma_bracket_removal_converges(s: Seq<char>, open: char, close: char) -> (n: nat)
    ensures
        n <= s.len(),
        without_brackets(s, open, close) == bracket_passes(s, open, close, n),
        bracket_pass(without_brackets(s, open, close), open, close) == without_brackets(
            s,
            open,
            close,
        ),
        without_brackets(s, open, close).len() <= s.len(),
    decreases s.len(),
{
    let t = bracket_pass(s, open, close);
    lemma_bracket_pass_shrinks(s, open, close);
    if t.len() < s.len() {
        let m = lemma_bracket_removal_converges(t, open, close);
        lemma_passes_shift(s, open, close, m);
        m + 1
    } else {
        0
    }
}

/// `n + 1` passes are one pass followed by `n` passes.
pub proof fn lemma_passes_shift(s: Seq<char>, open: char, close: char, n: nat)
    ensures
        bracket_passes(s, open, close, n + 1) == bracket_passes(
            bracket_pass(s, open, close),
            open,
            close,
            n,
        ),
    decreases n,
{
    assert(bracket_passes(s, open, close, n + 1) == bracket_pass(
        bracket_passes(s, open, close, n),
        open,
        close,
    ));
    if n > 0 {
        lemma_passes_shift(s, open, close, (n - 1) as nat);
    } else {
        assert(bracket_passes(s, open, close, 0) == s);
    }
}

/// The replacer has nothing to do on `t`: it is trimmed, no pass of bracket
/// removal changes it, and no text that a replacement looks for stands in
/// it.
pub open spec fn at_rest(p: Profile, t: Seq<char>) -> bool {
    &&& trimmed(t) == t
    &&& forall|k: int|
        0 <= k < p.remove_brackets_list.len() ==> bracket_pass(
            t,
            (#[trigger] p.remove_brackets_list[k]).0,
            p.remove_brackets_list[k].1,
        ) == t
    &&& forall|k: int|
        0 <= k < p.replacements.len() && (#[trigger] p.replacements[k]).len() == 2 ==> {
            &&& p.replacements[k][0].len() > 0
            &&& !has_substring(t, p.replacements[k][0])
        }
}

/// Bracket removal leaves a text on which no pass changes anything.
pub proof fn lemma_apply_brackets_at_rest(t: Seq<char>, pairs: Seq<(char, char)>)
    requires
        forall|k: int|
            0 <= k < pairs.len() ==> bracket_pass(t, (#[trigger] pairs[k]).0, pairs[k].1) == t,
    ensures
        apply_brackets(t, pairs) == t,
    decreases pairs.len(),
{
    if pairs.len() > 0 {
        let front = pairs.drop_last();
        assert forall|k: int| 0 <= k < front.len() implies bracket_pass(
            t,
            (#[trigger] front[k]).0,
            front[k].1,
        ) == t by {
            assert(front[k] == pairs[k]);
        }
        lemma_apply_brackets_at_rest(t, front);
        assert(pairs.last() == pairs[pairs.len() - 1]);
    }
}

/// The replacements leave a text in which none of their search texts stands.
pub proof fn lemma_apply_replacements_at_rest(t: Seq<char>, entries: Seq<Seq<Seq<char>>>)
    requires
        forall|k: int|
            0 <= k < entries.len() && (#[trigger] entries[k]).len() == 2 ==> {
                &&& entries[k][0].len() > 0
                &&& !has_substring(t, entries[k][0])
            },
    ensures
        apply_replacements(t, entries) == t,
    decreases entries.len(),
{
    if entries.len() > 0 {
        let front = entries.drop_last();
        assert forall|k: int| 0 <= k < front.len() && (#[trigger] front[k]).len() == 2 implies {
            &&& front[k][0].len() > 0
            &&& !has_substring(t, front[k][0])
        } by {
            assert(front[k] == entries[k]);
        }
        lemma_apply_replacements_at_rest(t, front);
        let entry = entries.last();
        assert(entry == entries[entries.len() - 1]);
        if entry.len() == 2 {
            lemma_substituted_absent(t, entry[0], entry[1]);
        }
    }
}

/// The replacer leaves a text on which it has nothing to do.
pub proof fn lemma_normalized_at_rest(p: Profile, t: Seq<char>)
    requires
        at_rest(p, t),
    ensures
        normalized(p, t) == t,
{
    lemma_apply_brackets_at_rest(t, p.remove_brackets_list);
    lemma_apply_replacements_at_rest(t, p.replacements);
}

/// Normalizing twice gives what normalizing once gives, for every text
/// whose normalized form leaves the replacer nothing to do.
pub proof fn lemma_normalized_twice(p: Profile, raw: Seq<char>)
    requires
        at_rest(p, normalized(p, raw)),
    ensures
        normalized(p, normalized(p, raw)) == normalized(p, raw),
{
    lemma_normalized_at_rest(p, normalized(p, raw));
}

/// Every search text of the replacements is a single character, and none of
/// the replacing texts holds one of these characters.
pub open spec fn replaces_symbols(entries: Seq<Seq<Seq<char>>>) -> bool {
    &&& forall|k: int|
        0 <= k < entries.len() && (#[trigger] entries[k]).len() == 2 ==> entries[k][0].len() == 1
    &&& forall|k: int, m: int|
        0 <= k < entries.len() && 0 <= m < entries.len() && (#[trigger] entries[k]).len() == 2 && (
        #[trigger] entries[m]).len() == 2 ==> !entries[k][1].contains(entries[m][0][0])
}

/// Replacing a character by a text that does not hold it leaves no
/// occurrence of the character.
pub proof fn lemma_substituted_removes(s: Seq<char>, c: char, to: Seq<char>)
    requires
        !to.contains(c),
    ensures
        !substituted(s, seq![c], to).contains(c),
    decreases s.len(),
{
    let from = seq![c];
    let out = substituted(s, from, to);
    if s.len() > 0 {
        if occurs_at(s, from, 0) {
            let rest = substituted(s.skip(1), from, to);
            lemma_substituted_removes(s.skip(1), c, to);
            if out.contains(c) {
                let w = choose|w: int| 0 <= w < out.len() && out[w] == c;
                if w < to.len() {
                    assert(to[w] == c);
                } else {
                    assert(rest[w - to.len()] == c);
                }
            }
        } else {
            let rest = substituted(s.drop_first(), from, to);
            lemma_substituted_removes(s.drop_first(), c, to);
            assert(s.subrange(0, 1) =~= seq![s[0]]);
            if out.contains(c) {
                let w = choose|w: int| 0 <= w < out.len() && out[w] == c;
                if w > 0 {
                    assert(rest[w - 1] == c);
                }
            }
        }
    }
}

/// A replacement does not bring in a character that neither the text nor the
/// replacing text holds.
pub proof fn lemma_substituted_keeps_out(s: Seq<char>, from: Seq<char>, to: Seq<char>, c: char)
    requires
        !s.contains(c),
        !to.contains(c),
    ensures
        !substituted(s, from, to).contains(c),
    decreases s.len(),
{
    let out = substituted(s, from, to);
    if s.len() > 0 && from.len() > 0 {
        if occurs_at(s, from, 0) {
            let tail = s.skip(from.len() as int);
            let rest = substituted(tail, from, to);
            assert forall|i: int| 0 <= i < tail.len() implies tail[i] != c by {
                assert(tail[i] == s[i + from.len()]);
            }
            lemma_substituted_keeps_out(tail, from, to, c);
            if out.contains(c) {
                let w = choose|w: int| 0 <= w < out.len() && out[w] == c;
                if w < to.len() {
                    assert(to[w] == c);
                } else {
                    assert(rest[w - to.len()] == c);
                }
            }
        } else {
            let tail = s.drop_first();
            let rest = substituted(tail, from, to);
            assert forall|i: int| 0 <= i < tail.len() implies tail[i] != c by {
                assert(tail[i] == s[i + 1]);
            }
            lemma_substituted_keeps_out(tail, from, to, c);
            if out.contains(c) {
                let w = choose|w: int| 0 <= w < out.len() && out[w] == c;
                if w > 0 {
                    assert(rest[w - 1] == c);
                } else {
                    assert(s[0] == c);
                }
            }
        }
    }
}

/// After replacements of symbols, the text holds none of the characters
/// that were looked for.
pub proof fn lemma_symbols_are_gone(s: Seq<char>, entries: Seq<Seq<Seq<char>>>, n: int)
    requires
        replaces_symbols(entries),
        0 <= n <= entries.len(),
    ensures
        forall|k: int|
            0 <= k < n && (#[trigger] entries[k]).len() == 2 ==> !apply_replacements(
                s,
                entries.take(n),
            ).contains(entries[k][0][0]),
    decreases n,
{
    if n > 0 {
        let now = entries.take(n);
        let front = entries.take(n - 1);
        assert(now.drop_last() == front);
        assert(now.last() == entries[n - 1]);
        lemma_symbols_are_gone(s, entries, n - 1);
        let before = apply_replacements(s, front);
        let entry = entries[n - 1];
        assert forall|k: int| 0 <= k < n && (#[trigger] entries[k]).len() == 2 implies !apply_replacements(
            s,
            now,
        ).contains(entries[k][0][0]) by {
            if entry.len() == 2 {
                assert(entry[0] =~= seq![entry[0][0]]);
                if k == n - 1 {
                    lemma_substituted_removes(before, entry[0][0], entry[1]);
                } else {
                    lemma_substituted_keeps_out(before, entry[0], entry[1], entries[k][0][0]);
                }
            }
        }
    }
}

/// Normalizing twice gives what normalizing once gives where the
/// replacements look for single characters, no replacing text holds one of
/// these characters, and the normalized text needs neither trimming nor
/// bracket removal.
pub proof fn lemma_replacing_symbols_twice(p: Profile, raw: Seq<char>)
    requires
        replaces_symbols(p.replacements),
        trimmed(normalized(p, raw)) == normalized(p, raw),
        forall|k: int|
            0 <= k < p.remove_brackets_list.len() ==> bracket_pass(
                normalized(p, raw),
                (#[trigger] p.remove_brackets_list[k]).0,
                p.remove_brackets_list[k].1,
            ) == normalized(p, raw),
    ensures
        normalized(p, normalized(p, raw)) == normalized(p, raw),
{
    let once = normalized(p, raw);
    let cleaned = apply_brackets(trimmed(raw), p.remove_brackets_list);
    lemma_symbols_are_gone(cleaned, p.replacements, p.replacements.len() as int);
    assert(p.replacements.take(p.replacements.len() as int) == p.replacements);
    assert forall|k: int|
        0 <= k < p.replacements.len() && (#[trigger] p.replacements[k]).len() == 2 implies {
        &&& p.replacements[k][0].len() > 0
        &&& !has_substring(once, p.replacements[k][0])
    } by {
        let search = p.replacements[k][0];
        if has_substring(once, search) {
            let i = choose|i: int| occurs_at(once, search, i);
            assert(once.subrange(i, i + 1)[0] == once[i]);
            assert(once[i] == search[0]);
        }
    }
    lemma_normalized_at_rest(p, once);
}

/// `s` with every innermost bracketed span replaced by one space.
pub fn remove_spans(s: &Vec<char>, open: char, close: char) -> (out: Vec<char>)
    ensures
        out@ == without_spans(s@, open, close),
{
    let mut out: Vec<char> = Vec::new();
    let mut i: usize = 0;
    assert(s@.skip(0) == s@);
    while i < s.len()
        invariant
            i <= s.len(),
            out@ + without_spans(s@.skip(i as int), open, close) == without_spans(s@, open, close),
        decreases s.len() - i,
    {
        let ghost rest = s@.skip(i as int);
        let ghost before = out@;
        let mut end: usize = i;
        if s[i] == open {
            let mut j: usize = i + 1;
            while j < s.len() && s[j] != open && s[j] != close && s[j] != '\n'
                invariant
                    i < j <= s.len(),
                    forall|k: int| i < k < j ==> inside(open, close)(#[trigger] s@[k]),
                decreases s.len() - j,
            {
                j += 1;
            }
            proof {
                let tail = rest.drop_first();
                assert forall|k: int| 0 <= k < j - i - 1 implies inside(open, close)(
                    #[trigger] tail[k],
                ) by {
                    assert(tail[k] == s@[i + 1 + k]);
                }
                if j < s.len() {
                    assert(tail[j - i - 1] == s@[j as int]);
                }
                lemma_leading_run(tail, inside(open, close), j - i - 1);
                if j < s.len() {
                    assert(rest[j - i] == s@[j as int]);
                }
            }
            if j < s.len() && s[j] == close {
                end = j;
            }
        }
        if end > i {
            assert(span_at_start(rest, open, close) == end - i + 1);
            assert(rest.skip(end - i + 1) == s@.skip(end + 1));
            out.push(' ');
            assert(out@ + without_spans(s@.skip(end + 1), open, close) == before + without_spans(
                rest,
                open,
                close,
            ));
            i = end + 1;
        } else {
            assert(span_at_start(rest, open, close) == 0);
            assert(rest.drop_first() == s@.skip(i + 1));
            out.push(s[i]);
            assert(out@ + without_spans(s@.skip(i + 1), open, close) == before + without_spans(
                rest,
                open,
                close,
            ));
            i += 1;
        }
    }
    assert(s@.skip(i as int).len() == 0);
    out
}

/// `text` after as many passes of bracket removal as change it.
pub fn remove_brackets(text: Vec<char>, open: char, close: char) -> (out: Vec<char>)
    ensures
        out@ == without_brackets(text@, open, close),
        bracket_pass(out@, open, close) == out@,
        exists|n: nat| n <= text@.len() && out@ == bracket_passes(text@, open, close, n),
{
    let mut two: Vec<char> = Vec::new();
    two.push(' ');
    two.push(' ');
    let mut one: Vec<char> = Vec::new();
    one.push(' ');
    assert(two@ == double_space());
    assert(one@ == single_space());
    proof {
        let n = lemma_bracket_removal_converges(text@, open, close);
    }
    let mut result = text;
    loop
        invariant
            two@ == double_space(),
            one@ == single_space(),
            without_brackets(result@, open, close) == without_brackets(text@, open, close),
        ensures
            result@ == without_brackets(text@, open, close),
        decreases result.len(),
    {
        let next = replace_all(&remove_spans(&result, open, close), &two, &one);
        assert(next@ == bracket_pass(result@, open, close));
        if next.len() < result.len() {
            result = next;
        } else {
            break;
        }
    }
    result
}

/// The normalized form of `raw`: trimmed, without bracketed spans, with the
/// profile's replacements put in.
pub fn replace_strings(rules: &Rules, raw: &str) -> (result: String)
    ensures
        result@ == normalized(rules@, raw@),
{
    let mut text = trim(&chars_of(raw));
    let mut i: usize = 0;
    assert(rules.remove_brackets_list@.take(0) == Seq::<(char, char)>::empty());
    while i < rules.remove_brackets_list.len()
        invariant
            i <= rules.remove_brackets_list.len(),
            text@ == apply_brackets(trimmed(raw@), rules.remove_brackets_list@.take(i as int)),
        decreases rules.remove_brackets_list.len() - i,
    {
        let pair = rules.remove_brackets_list[i];
        assert(rules.remove_brackets_list@.take(i + 1).drop_last()
            == rules.remove_brackets_list@.take(i as int));
        text = remove_brackets(text, pair.0, pair.1);
        i += 1;
    }
    assert(rules.remove_brackets_list@.take(i as int) == rules.remove_brackets_list@);
    let ghost cleaned = text@;
    let mut k: usize = 0;
    assert(rules@.replacements.take(0) == Seq::<Seq<Seq<char>>>::empty());
    while k < rules.replacements.len()
        invariant
            k <= rules.replacements.len(),
            text@ == apply_replacements(cleaned, rules@.replacements.take(k as int)),
        decreases rules.replacements.len() - k,
    {
        let entry = &rules.replacements[k];
        assert(rules@.replacements.take(k + 1).drop_last() == rules@.replacements.take(k as int));
        assert(rules@.replacements.take(k + 1).last() == entry.deep_view());
        if entry.len() == 2 {
            let search = chars_of(entry[0].as_str());
            let replacement = chars_of(entry[1].as_str());
            assert(entry.deep_view()[0] == search@);
            assert(entry.deep_view()[1] == replacement@);
            text = replace_all(&text, &search, &replacement);
        }
        k += 1;
    }
    assert(rules@.replacements.take(k as int) == rules@.replacements);
    string_of(&text)
}

} // verus!
