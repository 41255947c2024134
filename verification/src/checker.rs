//! The acceptance predicate: whether a candidate sentence meets every rule of
//! a profile.

use vstd::prelude::*;
use crate::pattern::{
    compiles, head_before_match, pattern_matches, regex_is_match_each, regex_split_heads,
};
use crate::rules::{Profile, Rules, RulesError};
use crate::search::{
    contains, count_occurrences, has_substring, lemma_occurrences_bound, occurrences,
};
use crate::text::{
    alphabetic, chars_of, lowered, numeric, string_of, uppercase_letter, white_space,
};
use crate::trim::{
    lemma_stripped_keeps, lemma_stripped_twice, letters_core, strip_non_letters, trim, trimmed,
    whitespace,
};
use crate::words::{split_words, texts_of, words};

verus! {

/// The number of bytes that `c` takes in UTF-8.
pub open spec fn utf8_width(c: char) -> nat {
    if (c as u32) < 0x80 {
        1
    } else if (c as u32) < 0x800 {
        2
    } else if (c as u32) < 0x10000 {
        3
    } else {
        4
    }
}

/// The number of bytes that `s` takes in UTF-8.
pub open spec fn utf8_len(s: Seq<char>) -> nat
    decreases s.len(),
{
    if s.len() == 0 {
        0
    } else {
        utf8_len(s.drop_last()) + utf8_width(s.last())
    }
}

/// The number of alphabetic characters of `s`.
pub open spec fn letter_count(s: Seq<char>) -> nat
    decreases s.len(),
{
    if s.len() == 0 {
        0
    } else {
        letter_count(s.drop_last()) + if alphabetic(s.last()) {
            1nat
        } else {
            0nat
        }
    }
}

/// The trimmed sentence is long enough.
pub open spec fn length_ok(p: Profile, t: Seq<char>) -> bool {
    utf8_len(t) >= p.min_trimmed_length
}

/// Where the rule is on, a letter follows a leading `"`.
pub open spec fn quote_ok(p: Profile, t: Seq<char>) -> bool {
    !(p.quote_start_with_letter && t.len() >= 2 && t[0] == '"' && !alphabetic(t[1]))
}

/// The number of letters is within its bounds.
pub open spec fn letters_ok(p: Profile, t: Seq<char>) -> bool {
    p.min_characters <= letter_count(t) <= p.max_characters
}

/// The first and the last character are as the profile asks.
pub open spec fn edges_ok(p: Profile, t: Seq<char>) -> bool {
    t.len() > 0 ==> {
        &&& p.may_end_with_colon || t.last() != ':'
        &&& p.needs_punctuation_end ==> !alphabetic(t.last())
        &&& p.needs_letter_start ==> alphabetic(t[0])
        &&& p.needs_uppercase_start ==> uppercase_letter(t[0])
    }
}

/// No line break and no numeric character.
pub open spec fn plain_ok(t: Seq<char>) -> bool {
    forall|i: int| 0 <= i < t.len() ==> t[i] != '\n' && !numeric(#[trigger] t[i])
}

/// Every character matches the pattern of allowed symbols where the profile
/// has one; else no character is a disallowed symbol.
pub open spec fn symbols_ok(p: Profile, t: Seq<char>) -> bool {
    if p.allowed_symbols_regex.len() > 0 {
        forall|i: int|
            0 <= i < t.len() ==> pattern_matches(p.allowed_symbols_regex, seq![#[trigger] t[i]])
    } else {
        forall|i: int| 0 <= i < t.len() ==> !p.disallowed_symbols.contains(#[trigger] t[i])
    }
}

/// No text of `broken_whitespace` stands in the sentence.
pub open spec fn whitespace_ok(p: Profile, t: Seq<char>) -> bool {
    forall|k: int|
        0 <= k < p.broken_whitespace.len() ==> !has_substring(t, #[trigger] p.broken_whitespace[k])
}

/// The number of words is within its bounds.
pub open spec fn word_count_ok(p: Profile, t: Seq<char>) -> bool {
    p.min_word_count <= words(t).len() <= p.max_word_count
}

/// The word, without the non-letters at its ends and in lowercase, is not
/// disallowed.
pub open spec fn word_ok(p: Profile, w: Seq<char>) -> bool {
    !p.disallowed_words.contains(lowered(letters_core(w)))
}

/// Where the profile has a stem separator and it cuts a proper head from the
/// word, that head in lowercase is not disallowed.
pub open spec fn stem_ok(p: Profile, w: Seq<char>) -> bool {
    p.stem_separator_regex.len() > 0 && head_before_match(p.stem_separator_regex, w) != w
        ==> !p.disallowed_words.contains(lowered(head_before_match(p.stem_separator_regex, w)))
}

/// No word of the sentence is disallowed.
pub open spec fn words_ok(p: Profile, t: Seq<char>) -> bool {
    forall|k: int| 0 <= k < words(t).len() ==> word_ok(p, #[trigger] words(t)[k])
}

/// No stem of a word of the sentence is disallowed.
pub open spec fn stems_ok(p: Profile, t: Seq<char>) -> bool {
    forall|k: int| 0 <= k < words(t).len() ==> stem_ok(p, #[trigger] words(t)[k])
}

/// None of the patterns matches the text.
pub open spec fn none_matches(patterns: Seq<Seq<char>>, t: Seq<char>) -> bool {
    forall|k: int| 0 <= k < patterns.len() ==> !pattern_matches(#[trigger] patterns[k], t)
}

/// Every symbol of `even_symbols` occurs an even number of times.
pub open spec fn even_ok(p: Profile, t: Seq<char>) -> bool {
    forall|k: int|
        0 <= k < p.even_symbols.len() ==> occurrences(t, #[trigger] p.even_symbols[k]) % 2 == 0
}

/// The two symbols of a pair occur equally often.
pub open spec fn pair_ok(pair: Seq<Seq<char>>, t: Seq<char>) -> bool {
    pair.len() == 2 ==> occurrences(t, pair[0]) == occurrences(t, pair[1])
}

/// The symbols of every pair of `matching_symbols` occur equally often.
pub open spec fn matching_ok(p: Profile, t: Seq<char>) -> bool {
    forall|k: int| 0 <= k < p.matching_symbols.len() ==> pair_ok(#[trigger] p.matching_symbols[k], t)
}

/// The trimmed sentence `t` meets every rule of the profile.
pub open spec fn meets_rules(p: Profile, t: Seq<char>) -> bool {
    &&& length_ok(p, t)
    &&& quote_ok(p, t)
    &&& letters_ok(p, t)
    &&& edges_ok(p, t)
    &&& plain_ok(t)
    &&& symbols_ok(p, t)
    &&& whitespace_ok(p, t)
    &&& word_count_ok(p, t)
    &&& words_ok(p, t)
    &&& stems_ok(p, t)
    &&& none_matches(p.abbreviation_patterns, t)
    &&& none_matches(p.other_patterns, t)
    &&& even_ok(p, t)
    &&& matching_ok(p, t)
}

/// The profile accepts the candidate `raw`: trimmed, it meets every rule.
pub open spec fn accepts(p: Profile, raw: Seq<char>) -> bool {
    meets_rules(p, trimmed(raw))
}

/// A candidate is accepted exactly if its trimmed form is.
pub proof fn lemma_accepts_trimmed(p: Profile, raw: Seq<char>)
    ensures
        accepts(p, trimmed(raw)) == accepts(p, raw),
{
    lemma_stripped_twice(raw, whitespace());
}

/// Where a profile has a pattern of allowed symbols, its disallowed symbols
/// decide nothing: a profile that differs in them alone accepts the same
/// candidates.
pub proof fn lemma_allowed_pattern_overrides(p: Profile, q: Profile, raw: Seq<char>)
    requires
        p.allowed_symbols_regex.len() > 0,
        q == (Profile { disallowed_symbols: q.disallowed_symbols, ..p }),
    ensures
        accepts(p, raw) == accepts(q, raw),
{
    let t = trimmed(raw);
    assert(symbols_ok(p, t) == symbols_ok(q, t));
    assert(whitespace_ok(p, t) == whitespace_ok(q, t));
    assert(words_ok(p, t) == words_ok(q, t)) by {
        assert forall|k: int| 0 <= k < words(t).len() implies word_ok(p, #[trigger] words(t)[k])
            == word_ok(q, words(t)[k]) by {}
    }
    assert(stems_ok(p, t) == stems_ok(q, t)) by {
        assert forall|k: int| 0 <= k < words(t).len() implies stem_ok(p, #[trigger] words(t)[k])
            == stem_ok(q, words(t)[k]) by {}
    }
    assert(p.even_symbols == q.even_symbols);
    assert(p.matching_symbols == q.matching_symbols);
    assert(p.abbreviation_patterns == q.abbreviation_patterns);
    assert(p.other_patterns == q.other_patterns);
}

/// A profile without a pattern of allowed symbols accepts no candidate whose
/// trimmed form holds one of its disallowed symbols.
pub proof fn lemma_disallowed_symbol_rejects(p: Profile, c: char, raw: Seq<char>)
    requires
        p.allowed_symbols_regex.len() == 0,
        p.disallowed_symbols.contains(c),
        trimmed(raw).contains(c),
    ensures
        !accepts(p, raw),
{
    let t = trimmed(raw);
    let i = choose|i: int| 0 <= i < t.len() && t[i] == c;
    assert(p.disallowed_symbols.contains(t[i]));
}

/// Tightening: a profile to which the symbol `c` was added as disallowed,
/// and which has no pattern of allowed symbols, accepts no candidate that
/// holds `c`. White space at the ends of a candidate is not part of the
/// sentence: a `c` that is white space has to stand in the trimmed form.
pub proof fn lemma_tightening_rejects(p: Profile, q: Profile, c: char, raw: Seq<char>)
    requires
        q == (Profile { disallowed_symbols: p.disallowed_symbols.push(c), ..p }),
        p.allowed_symbols_regex.len() == 0,
        raw.contains(c),
        white_space(c) ==> trimmed(raw).contains(c),
    ensures
        !accepts(q, raw),
{
    assert(q.disallowed_symbols[p.disallowed_symbols.len() as int] == c);
    if !white_space(c) {
        lemma_stripped_keeps(raw, whitespace(), c);
    }
    lemma_disallowed_symbol_rejects(q, c, raw);
}

/// Whether `x` lies between `min_val` and `max_val`, both included.
pub fn in_limit(x: usize, min_val: usize, max_val: usize) -> (inside: bool)
    ensures
        inside == (min_val <= x <= max_val),
{
    x >= min_val && x <= max_val
}

/// The number of bytes that `c` takes in UTF-8.
pub fn char_width(c: char) -> (n: usize)
    ensures
        n == utf8_width(c),
{
    let code: u32 = c as u32;
    if code < 0x80 {
        1
    } else if code < 0x800 {
        2
    } else if code < 0x10000 {
        3
    } else {
        4
    }
}

/// Whether `t` takes at least `min` bytes in UTF-8.
pub fn long_enough(t: &Vec<char>, min: usize) -> (ok: bool)
    ensures
        ok == (utf8_len(t@) >= min),
{
    let mut total: usize = 0;
    let mut i: usize = 0;
    assert(t@.take(0) == Seq::<char>::empty());
    while i < t.len() && total < min
        invariant
            i <= t.len(),
            total == utf8_len(t@.take(i as int)),
            total <= utf8_len(t@),
        decreases t.len() - i,
    {
        let width = char_width(t[i]);
        assert(t@.take(i + 1).drop_last() == t@.take(i as int));
        proof {
            lemma_utf8_len_prefix(t@, i + 1);
        }
        if width >= min - total {
            return true;
        }
        total += width;
        i += 1;
    }
    assert(i == t.len() ==> t@.take(i as int) == t@);
    total >= min
}

/// A prefix takes no more bytes than the whole text.
pub proof fn lemma_utf8_len_prefix(s: Seq<char>, i: int)
    requires
        0 <= i <= s.len(),
    ensures
        utf8_len(s.take(i)) <= utf8_len(s),
    decreases s.len() - i,
{
    if i < s.len() {
        lemma_utf8_len_prefix(s, i + 1);
        assert(s.take(i + 1).drop_last() == s.take(i));
    } else {
        assert(s.take(i) == s);
    }
}

/// The number of alphabetic characters of `t`.
pub fn count_letters(t: &Vec<char>) -> (n: usize)
    ensures
        n == letter_count(t@),
{
    let mut n: usize = 0;
    let mut i: usize = 0;
    assert(t@.take(0) == Seq::<char>::empty());
    while i < t.len()
        invariant
            i <= t.len(),
            n <= i,
            n == letter_count(t@.take(i as int)),
        decreases t.len() - i,
    {
        assert(t@.take(i + 1).drop_last() == t@.take(i as int));
        if t[i].is_alphabetic() {
            n += 1;
        }
        i += 1;
    }
    assert(t@.take(i as int) == t@);
    n
}

/// Whether the first and the last character are as the profile asks.
pub fn check_edges(rules: &Rules, t: &Vec<char>) -> (ok: bool)
    ensures
        ok == edges_ok(rules@, t@),
{
    if t.len() == 0 {
        return true;
    }
    let first = t[0];
    let last = t[t.len() - 1];
    if !rules.may_end_with_colon && last == ':' {
        return false;
    }
    if rules.needs_punctuation_end && last.is_alphabetic() {
        return false;
    }
    if rules.needs_letter_start && !first.is_alphabetic() {
        return false;
    }
    if rules.needs_uppercase_start && !first.is_uppercase() {
        return false;
    }
    true
}

/// Whether `t` holds neither a line break nor a numeric character.
pub fn check_plain(t: &Vec<char>) -> (ok: bool)
    ensures
        ok == plain_ok(t@),
{
    let mut i: usize = 0;
    while i < t.len()
        invariant
            i <= t.len(),
            forall|j: int| 0 <= j < i ==> t@[j] != '\n' && !numeric(#[trigger] t@[j]),
        decreases t.len() - i,
    {
        if t[i] == '\n' || t[i].is_numeric() {
            return false;
        }
        i += 1;
    }
    true
}

/// Whether `c` is one of `symbols`.
pub fn has_symbol(symbols: &Vec<char>, c: char) -> (found: bool)
    ensures
        found == symbols@.contains(c),
{
    let mut k: usize = 0;
    while k < symbols.len()
        invariant
            k <= symbols.len(),
            forall|j: int| 0 <= j < k ==> symbols@[j] != c,
        decreases symbols.len() - k,
    {
        if symbols[k] == c {
            return true;
        }
        k += 1;
    }
    false
}

/// Each character of `t` as a string of its own.
pub fn single_characters(t: &Vec<char>) -> (singles: Vec<String>)
    ensures
        singles@.len() == t@.len(),
        forall|i: int| 0 <= i < t@.len() ==> (#[trigger] singles@[i])@ == seq![t@[i]],
{
    let mut singles: Vec<String> = Vec::new();
    let mut i: usize = 0;
    while i < t.len()
        invariant
            i <= t.len(),
            singles@.len() == i,
            forall|j: int| 0 <= j < i ==> (#[trigger] singles@[j])@ == seq![t@[j]],
        decreases t.len() - i,
    {
        let mut one = String::new();
        one.push(t[i]);
        assert(one@ == seq![t@[i as int]]);
        singles.push(one);
        i += 1;
    }
    singles
}

/// Whether every character of `t` is an allowed symbol.
pub fn check_symbols(rules: &Rules, t: &Vec<char>) -> (ok: bool)
    requires
        rules.allowed_symbols_regex@.len() > 0 ==> compiles(rules.allowed_symbols_regex@),
    ensures
        ok == symbols_ok(rules@, t@),
{
    if !rules.allowed_symbols_regex.as_str().is_empty() {
        let singles = single_characters(t);
        let allowed = regex_is_match_each(rules.allowed_symbols_regex.as_str(), &singles);
        let mut i: usize = 0;
        while i < t.len()
            invariant
                i <= t.len(),
                rules.allowed_symbols_regex@.len() > 0,
                allowed@.len() == t@.len(),
                singles@.len() == t@.len(),
                forall|j: int| 0 <= j < t@.len() ==> (#[trigger] singles@[j])@ == seq![t@[j]],
                forall|j: int|
                    0 <= j < t@.len() ==> allowed@[j] == pattern_matches(
                        rules.allowed_symbols_regex@,
                        #[trigger] singles@[j]@,
                    ),
                forall|j: int|
                    0 <= j < i ==> pattern_matches(
                        rules.allowed_symbols_regex@,
                        seq![#[trigger] t@[j]],
                    ),
            decreases t.len() - i,
        {
            assert(singles@[i as int]@ == seq![t@[i as int]]);
            if !allowed[i] {
                return false;
            }
            i += 1;
        }
        true
    } else {
        let mut i: usize = 0;
        while i < t.len()
            invariant
                i <= t.len(),
                rules.allowed_symbols_regex@.len() == 0,
                forall|j: int|
                    0 <= j < i ==> !rules.disallowed_symbols@.contains(#[trigger] t@[j]),
            decreases t.len() - i,
        {
            if has_symbol(&rules.disallowed_symbols, t[i]) {
                return false;
            }
            i += 1;
        }
        true
    }
}

/// Whether none of the texts of `broken_whitespace` stands in `t`.
pub fn check_whitespace(rules: &Rules, t: &Vec<char>) -> (ok: bool)
    ensures
        ok == whitespace_ok(rules@, t@),
{
    let mut k: usize = 0;
    while k < rules.broken_whitespace.len()
        invariant
            k <= rules.broken_whitespace.len(),
            forall|j: int|
                0 <= j < k ==> !has_substring(t@, #[trigger] rules@.broken_whitespace[j]),
        decreases rules.broken_whitespace.len() - k,
    {
        let broken = chars_of(rules.broken_whitespace[k].as_str());
        assert(rules@.broken_whitespace[k as int] == broken@);
        if contains(t, &broken) {
            return false;
        }
        k += 1;
    }
    true
}

/// The strings of a list of texts.
pub fn strings_of(list: &Vec<Vec<char>>) -> (strings: Vec<String>)
    ensures
        strings@.len() == list@.len(),
        forall|i: int| 0 <= i < list@.len() ==> (#[trigger] strings@[i])@ == list@[i]@,
{
    let mut strings: Vec<String> = Vec::new();
    let mut i: usize = 0;
    while i < list.len()
        invariant
            i <= list.len(),
            strings@.len() == i,
            forall|j: int| 0 <= j < i ==> (#[trigger] strings@[j])@ == list@[j]@,
        decreases list.len() - i,
    {
        strings.push(string_of(&list[i]));
        i += 1;
    }
    strings
}

/// Whether the number of words is within its bounds and no word, and no
/// stem of a word, is disallowed.
pub fn check_words(rules: &Rules, t: &Vec<char>) -> (ok: bool)
    requires
        rules.stem_separator_regex@.len() > 0 ==> compiles(rules.stem_separator_regex@),
    ensures
        ok == (word_count_ok(rules@, t@) && words_ok(rules@, t@) && stems_ok(rules@, t@)),
{
    let word_list = split_words(t);
    assert(word_list@.len() == words(t@).len());
    if !in_limit(word_list.len(), rules.min_word_count, rules.max_word_count) {
        return false;
    }
    let mut k: usize = 0;
    while k < word_list.len()
        invariant
            k <= word_list.len(),
            texts_of(word_list@) == words(t@),
            forall|j: int| 0 <= j < k ==> word_ok(rules@, #[trigger] words(t@)[j]),
        decreases word_list.len() - k,
    {
        assert(words(t@)[k as int] == word_list@[k as int]@);
        let core = strip_non_letters(&word_list[k]);
        let folded = string_of(&core).as_str().to_lowercase();
        if rules.disallowed_words.contains(folded.as_str()) {
            assert(!word_ok(rules@, words(t@)[k as int]));
            return false;
        }
        k += 1;
    }
    if rules.stem_separator_regex.as_str().is_empty() {
        return true;
    }
    let whole = strings_of(&word_list);
    let heads = regex_split_heads(rules.stem_separator_regex.as_str(), &whole);
    let mut k: usize = 0;
    while k < word_list.len()
        invariant
            k <= word_list.len(),
            texts_of(word_list@) == words(t@),
            rules.stem_separator_regex@.len() > 0,
            whole@.len() == word_list@.len(),
            heads@.len() == word_list@.len(),
            forall|j: int| 0 <= j < word_list@.len() ==> (#[trigger] whole@[j])@ == word_list@[j]@,
            forall|j: int|
                0 <= j < word_list@.len() ==> heads@[j]@ == head_before_match(
                    rules.stem_separator_regex@,
                    #[trigger] whole@[j]@,
                ),
            forall|j: int| 0 <= j < k ==> stem_ok(rules@, #[trigger] words(t@)[j]),
        decreases word_list.len() - k,
    {
        assert(words(t@)[k as int] == word_list@[k as int]@);
        assert(whole@[k as int]@ == word_list@[k as int]@);
        if !same_text(&heads[k], &whole[k]) {
            let stem = heads[k].as_str().to_lowercase();
            if rules.disallowed_words.contains(stem.as_str()) {
                assert(!stem_ok(rules@, words(t@)[k as int]));
                return false;
            }
        }
        k += 1;
    }
    true
}

/// Whether two strings hold the same characters.
pub fn same_text(a: &String, b: &String) -> (same: bool)
    ensures
        same == (a@ == b@),
{
    *a == *b
}

/// Whether none of `patterns` matches `text`.
pub fn check_patterns(patterns: &Vec<String>, text: &str) -> (ok: bool)
    requires
        forall|i: int| 0 <= i < patterns@.len() ==> compiles(#[trigger] patterns@[i]@),
    ensures
        ok == none_matches(patterns.deep_view(), text@),
{
    if patterns.len() == 0 {
        return true;
    }
    let mut only: Vec<String> = Vec::new();
    only.push(text.to_string());
    let mut k: usize = 0;
    while k < patterns.len()
        invariant
            k <= patterns.len(),
            only@.len() == 1,
            only@[0]@ == text@,
            forall|i: int| 0 <= i < patterns@.len() ==> compiles(#[trigger] patterns@[i]@),
            forall|j: int|
                0 <= j < k ==> !pattern_matches(#[trigger] patterns.deep_view()[j], text@),
        decreases patterns.len() - k,
    {
        assert(patterns.deep_view()[k as int] == patterns@[k as int]@);
        let found = regex_is_match_each(patterns[k].as_str(), &only);
        if found[0] {
            return false;
        }
        k += 1;
    }
    true
}

/// Whether `symbol` occurs an even number of times in `t`.
pub fn occurs_evenly(t: &Vec<char>, symbol: &Vec<char>) -> (even: bool)
    ensures
        even == (occurrences(t@, symbol@) % 2 == 0),
{
    if symbol.len() == 0 {
        t.len() % 2 == 1
    } else {
        count_occurrences(t, symbol) % 2 == 0
    }
}

/// Whether `open` and `close` occur equally often in `t`.
pub fn occur_equally(t: &Vec<char>, open: &Vec<char>, close: &Vec<char>) -> (equal: bool)
    ensures
        equal == (occurrences(t@, open@) == occurrences(t@, close@)),
{
    if open.len() == 0 || close.len() == 0 {
        proof {
            if open.len() > 0 {
                lemma_occurrences_bound(t@, open@);
            }
            if close.len() > 0 {
                lemma_occurrences_bound(t@, close@);
            }
        }
        open.len() == 0 && close.len() == 0
    } else {
        count_occurrences(t, open) == count_occurrences(t, close)
    }
}

/// Whether every symbol of `even_symbols` occurs an even number of times.
pub fn check_even(rules: &Rules, t: &Vec<char>) -> (ok: bool)
    ensures
        ok == even_ok(rules@, t@),
{
    let mut k: usize = 0;
    while k < rules.even_symbols.len()
        invariant
            k <= rules.even_symbols.len(),
            forall|j: int|
                0 <= j < k ==> occurrences(t@, #[trigger] rules@.even_symbols[j]) % 2 == 0,
        decreases rules.even_symbols.len() - k,
    {
        let symbol = chars_of(rules.even_symbols[k].as_str());
        assert(rules@.even_symbols[k as int] == symbol@);
        if !occurs_evenly(t, &symbol) {
            return false;
        }
        k += 1;
    }
    true
}

/// Whether the symbols of every pair of `matching_symbols` occur equally
/// often.
pub fn check_matching(rules: &Rules, t: &Vec<char>) -> (ok: bool)
    ensures
        ok == matching_ok(rules@, t@),
{
    let mut k: usize = 0;
    while k < rules.matching_symbols.len()
        invariant
            k <= rules.matching_symbols.len(),
            forall|j: int| 0 <= j < k ==> pair_ok(#[trigger] rules@.matching_symbols[j], t@),
        decreases rules.matching_symbols.len() - k,
    {
        let pair = &rules.matching_symbols[k];
        assert(rules@.matching_symbols[k as int] == pair.deep_view());
        if pair.len() == 2 {
            let open = chars_of(pair[0].as_str());
            let close = chars_of(pair[1].as_str());
            assert(pair.deep_view()[0] == open@);
            assert(pair.deep_view()[1] == close@);
            if !occur_equally(t, &open, &close) {
                return false;
            }
        }
        k += 1;
    }
    true
}

/// Decides whether the profile accepts the candidate `raw`.
pub fn check(rules: &Rules, raw: &str) -> (accepted: bool)
    requires
        rules.valid(),
    ensures
        accepted == accepts(rules@, raw@),
{
    let t = trim(&chars_of(raw));
    if !long_enough(&t, rules.min_trimmed_length) {
        return false;
    }
    if rules.quote_start_with_letter && t.len() >= 2 && t[0] == '"' && !t[1].is_alphabetic() {
        return false;
    }
    if !in_limit(count_letters(&t), rules.min_characters, rules.max_characters) {
        return false;
    }
    if !check_edges(rules, &t) || !check_plain(&t) || !check_symbols(rules, &t)
        || !check_whitespace(rules, &t) {
        return false;
    }
    if !check_words(rules, &t) {
        return false;
    }
    let text = string_of(&t);
    if !check_patterns(&rules.abbreviation_patterns, text.as_str()) || !check_patterns(
        &rules.other_patterns,
        text.as_str(),
    ) {
        return false;
    }
    check_even(rules, &t) && check_matching(rules, &t)
}

/// Validates the profile, then decides whether it accepts the candidate
/// `raw`; the profile's first fault where it has one.
pub fn try_check(rules: &Rules, raw: &str) -> (result: Result<bool, RulesError>)
    ensures
        result is Ok <==> rules.valid(),
        result matches Ok(accepted) ==> accepted == accepts(rules@, raw@),
        result matches Err(e) ==> rules.fault() == Some(e),
{
    match rules.validate() {
        Ok(()) => Ok(check(rules, raw)),
        Err(e) => Err(e),
    }
}

} // verus!
