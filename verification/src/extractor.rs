//! The sentence extractor for Chinese text: cuts a text at its punctuation
//! and hands out, one by one, the pieces that pass its filters.

use std::collections::{HashMap, HashSet};
use vstd::prelude::*;
use vstd::std_specs::hash::*;
use crate::lines::{lines_of, split_lines};
use crate::order::texts;
use crate::search::{append, contains, has_substring};
use crate::text::{alphabetic, chars_of, string_of};
use crate::trim::{
    copy_range, leading_run, lemma_leading_run, lemma_trailing_run, trailing_run, trim, trimmed,
};
use crate::words::texts_of;

verus! {

broadcast use group_hash_axioms;

/// What stops the construction of an extractor.
#[derive(Debug)]
pub enum Error {
    /// Two options contradict each other; the text names the symbol that
    /// they disagree on.
    OptionsConflic(String),
}

impl Error {
    /// The error in words.
    pub fn message(&self) -> (text: String)
        ensures
            text@ == "Options conflict: "@ + self->OptionsConflic_0@,
    {
        match self {
            Error::OptionsConflic(symbol) => {
                let mut text = "Options conflict: ".to_string();
                text.append(symbol.as_str());
                text
            },
        }
    }
}

/// The tables of characters that the extractor reads. A map is keyed by the
/// code point of the character that it replaces.
pub struct CharTables {
    /// Variant forms of punctuation and the form that stands for each.
    pub symbol_map: HashMap<u32, char>,
    /// Traditional characters and the simplified form of each.
    pub character_map: HashMap<u32, char>,
    /// The code points of the standard simplified characters.
    pub standard_characters: HashSet<u32>,
}

/// The character that the map puts in place of `c`; `c` itself where the map
/// has no entry for it.
pub open spec fn image(map: Map<u32, char>, c: char) -> char {
    if map.contains_key(c as u32) {
        map[c as u32]
    } else {
        c
    }
}

/// A sentence ends at this character wherever it stands.
pub open spec fn terminal(c: char) -> bool {
    c == '。' || c == '？' || c == '！' || c == '\n'
}

/// This mark stays at the end of the sentence that it closes.
pub open spec fn shown(c: char) -> bool {
    c == '？' || c == '！'
}

/// Punctuation that a translated sentence may hold.
pub open spec fn punctuation(c: char) -> bool {
    ||| terminal(c)
    ||| c == '（' || c == '）' || c == '，' || c == '、' || c == '：' || c == '；'
    ||| c == '"' || c == '‧' || c == '—' || c == '～' || c == '“' || c == '”'
    ||| c == '·' || c == '‘' || c == '•' || c == '─' || c == '兀' || c == '︰'
    ||| c == '︿' || c == '﹀' || c == '．' || c == '＃' || c == '＆' || c == '＊'
    ||| c == '＋' || c == '－' || c == '＜' || c == '＞' || c == '＝' || c == '＄'
    ||| c == '％' || c == '＠'
}

/// The marker of a page that only tells meanings apart.
pub open spec fn disambiguation_marker() -> Seq<char> {
    seq!['消', '歧', '義']
}

/// The options of an extractor and the tables it reads, as the contracts
/// read them.
pub struct Settings {
    pub translate: bool,
    pub shortest_length: nat,
    pub longest_length: nat,
    pub auxiliary_symbols: Seq<char>,
    pub black_list_symbols: Seq<char>,
    pub character_map: Map<u32, char>,
    pub standard_characters: Set<u32>,
}

/// The class of characters that are no opening bracket.
pub open spec fn not_opening() -> spec_fn(char) -> bool {
    |c: char| c != '（'
}

/// The class of characters that are no closing bracket.
pub open spec fn not_closing() -> spec_fn(char) -> bool {
    |c: char| c != '）'
}

/// `t` without what stands from its first opening bracket to its last
/// closing bracket, where the first comes before the last.
pub open spec fn without_parens(t: Seq<char>) -> Seq<char> {
    let i = leading_run(t, not_opening());
    let k = trailing_run(t, not_closing());
    if i + k + 1 < t.len() {
        t.take(i as int) + t.skip(t.len() - k)
    } else {
        t
    }
}

/// `t` with each character replaced by its image under the map.
pub open spec fn translated(t: Seq<char>, map: Map<u32, char>) -> Seq<char> {
    Seq::new(t.len(), |i: int| image(map, t[i]))
}

/// The text is cut at position `i`: a terminal mark stands there, or an
/// auxiliary symbol after the longest length was reached.
pub open spec fn cut_at(text: Seq<char>, s: Settings, i: int) -> bool {
    terminal(text[i]) || (i >= s.longest_length && s.auxiliary_symbols.contains(text[i]))
}

/// The first position at or after `from` where the text is cut; the length
/// of the text where it is cut nowhere.
pub open spec fn cut_index(text: Seq<char>, s: Settings, from: int) -> int
    decreases text.len() - from,
{
    if from < 0 || from >= text.len() {
        text.len() as int
    } else if cut_at(text, s, from) {
        from
    } else {
        cut_index(text, s, from + 1)
    }
}

/// The candidate sentence made of a piece of text: trimmed, without what
/// stands in brackets, and translated where that is asked for.
pub open spec fn candidate(piece: Seq<char>, s: Settings) -> Seq<char> {
    let plain = without_parens(trimmed(piece));
    if s.translate {
        translated(plain, s.character_map)
    } else {
        plain
    }
}

/// The candidate cannot be a sentence at all: it does not start with a
/// letter, holds an ASCII character, or holds no letter.
pub open spec fn invalid(c: Seq<char>) -> bool {
    ||| c.len() == 0
    ||| !alphabetic(c[0])
    ||| exists|i: int| 0 <= i < c.len() && (#[trigger] c[i] as u32) < 0x80
    ||| forall|i: int| 0 <= i < c.len() ==> !alphabetic(#[trigger] c[i])
}

/// A translated sentence may hold this character.
pub open spec fn standard(c: char, s: Settings) -> bool {
    punctuation(c) || s.standard_characters.contains(c as u32)
}

/// The candidate is dropped.
pub open spec fn rejected(c: Seq<char>, s: Settings) -> bool {
    ||| invalid(c)
    ||| c.len() < s.shortest_length
    ||| s.translate && exists|i: int| 0 <= i < c.len() && !standard(#[trigger] c[i], s)
    ||| exists|i: int| 0 <= i < c.len() && s.black_list_symbols.contains(#[trigger] c[i])
}

/// What one cut of the text gives: the sentence, where the piece before the
/// cut is one, and the text after the cut.
pub open spec fn cut(text: Seq<char>, s: Settings) -> (Option<Seq<char>>, Seq<char>) {
    let at = cut_index(text, s, 0);
    let c = candidate(text.take(at), s);
    let rest = if at < text.len() {
        text.skip(at + 1)
    } else {
        Seq::empty()
    };
    if rejected(c, s) {
        (None, rest)
    } else if at < text.len() && shown(text[at]) {
        (Some(trimmed(c).push(text[at])), rest)
    } else {
        (Some(trimmed(c)), rest)
    }
}

/// The next sentence of the text and the text that is left after it; `None`
/// where the text holds no further sentence.
pub open spec fn next_from(text: Seq<char>, s: Settings) -> Option<(Seq<char>, Seq<char>)>
    decreases text.len(),
{
    if text.len() == 0 {
        None
    } else {
        let (sentence, rest) = cut(text, s);
        if rest.len() >= text.len() {
            None
        } else if sentence is Some {
            Some((sentence.unwrap(), rest))
        } else {
            next_from(rest, s)
        }
    }
}

/// Whether a sentence ends at `c` wherever it stands.
pub fn is_terminal(c: char) -> (yes: bool)
    ensures
        yes == terminal(c),
{
    c == '。' || c == '？' || c == '！' || c == '\n'
}

/// Whether a translated sentence may hold `c` as punctuation.
pub fn is_punctuation(c: char) -> (yes: bool)
    ensures
        yes == punctuation(c),
{
    is_terminal(c) || c == '（' || c == '）' || c == '，' || c == '、' || c == '：' || c == '；'
        || c == '"' || c == '‧' || c == '—' || c == '～' || c == '“' || c == '”' || c == '·'
        || c == '‘' || c == '•' || c == '─' || c == '兀' || c == '︰' || c == '︿' || c == '﹀'
        || c == '．' || c == '＃' || c == '＆' || c == '＊' || c == '＋' || c == '－' || c == '＜'
        || c == '＞' || c == '＝' || c == '＄' || c == '％' || c == '＠'
}

/// Whether `c` is one of `symbols`.
pub fn is_one_of(symbols: &Vec<char>, c: char) -> (found: bool)
    ensures
        found == symbols@.contains(c),
{
    let mut k: usize = 0;
    while k < symbols.len()
        invariant
            k <= symbols.len(),
            forall|j: int| 0 <= j < k ==> symbols@[j] != c,
        decreases symbols.len() - k,
    {
        if symbols[k] == c {
            return true;
        }
        k += 1;
    }
    false
}

/// The character that the map puts in place of `c`.
pub fn map_char(map: &HashMap<u32, char>, c: char) -> (out: char)
    ensures
        out == image(map@, c),
{
    let code: u32 = c as u32;
    match map.get(&code) {
        Some(to) => *to,
        None => c,
    }
}

/// Whether the candidate cannot be a sentence at all.
pub fn is_invalid(s: &Vec<char>) -> (bad: bool)
    ensures
        bad == invalid(s@),
{
    if s.len() == 0 || !s[0].is_alphabetic() {
        return true;
    }
    let mut i: usize = 0;
    while i < s.len()
        invariant
            i <= s.len(),
            forall|j: int| 0 <= j < i ==> (#[trigger] s@[j] as u32) >= 0x80,
        decreases s.len() - i,
    {
        let c: char = s[i];
        if (c as u32) < 0x80 {
            return true;
        }
        i += 1;
    }
    assert(alphabetic(s@[0]));
    false
}

/// `t` without what stands from its first opening bracket to its last
/// closing bracket.
pub fn strip_parens(t: Vec<char>) -> (out: Vec<char>)
    ensures
        out@ == without_parens(t@),
{
    let mut first: usize = 0;
    while first < t.len() && t[first] != '（'
        invariant
            first <= t.len(),
            forall|k: int| 0 <= k < first ==> not_opening()(#[trigger] t@[k]),
        decreases t.len() - first,
    {
        first += 1;
    }
    let mut end: usize = t.len();
    while end > 0 && t[end - 1] != '）'
        invariant
            end <= t.len(),
            forall|k: int| end <= k < t.len() ==> not_closing()(#[trigger] t@[k]),
        decreases end,
    {
        end -= 1;
    }
    proof {
        lemma_leading_run(t@, not_opening(), first as int);
        lemma_trailing_run(t@, not_closing(), end as int);
    }
    if first < end && end - first > 1 {
        let mut out = copy_range(&t, 0, first);
        let tail = copy_range(&t, end, t.len());
        append(&mut out, &tail);
        assert(t@.subrange(0, first as int) == t@.take(first as int));
        assert(t@.subrange(end as int, t@.len() as int) == t@.skip(end as int));
        out
    } else {
        t
    }
}

/// The lines put one after the other.
pub open spec fn joined(lines: Seq<Seq<char>>) -> Seq<char>
    decreases lines.len(),
{
    if lines.len() == 0 {
        Seq::empty()
    } else {
        joined(lines.drop_last()) + lines.last()
    }
}

/// `body` with each character replaced by its image under the symbol map,
/// without the characters that are to be ignored.
pub open spec fn cleaned(body: Seq<char>, symbol_map: Map<u32, char>, ignore: Seq<char>) -> Seq<
    char,
>
    decreases body.len(),
{
    if body.len() == 0 {
        Seq::empty()
    } else {
        let front = cleaned(body.drop_last(), symbol_map, ignore);
        let c = image(symbol_map, body.last());
        if ignore.contains(c) {
            front
        } else {
            front.push(c)
        }
    }
}

/// The part of an article that is scanned: nothing for a page that tells
/// meanings apart, the lines after the title for an article of several
/// lines, and the whole text where it is a single line.
pub open spec fn body_of(text: Seq<char>) -> Seq<char> {
    let lines = lines_of(text);
    if lines.len() > 1 {
        if has_substring(lines[0], disambiguation_marker()) {
            Seq::empty()
        } else {
            joined(lines.skip(1))
        }
    } else {
        text
    }
}

/// The symbols of an option; none where the option was not set.
pub open spec fn symbols_of(option: Option<&Vec<char>>) -> Seq<char> {
    match option {
        Some(symbols) => symbols@,
        None => Seq::empty(),
    }
}

/// The first of the symbols to ignore that is also an auxiliary symbol or a
/// terminal mark, at or after position `from`.
pub open spec fn first_conflict(ignore: Seq<char>, auxiliary: Seq<char>, from: int) -> Option<char>
    decreases ignore.len() - from,
{
    if from < 0 || from >= ignore.len() {
        None
    } else if auxiliary.contains(ignore[from]) || terminal(ignore[from]) {
        Some(ignore[from])
    } else {
        first_conflict(ignore, auxiliary, from + 1)
    }
}

/// Collects the options of an extractor.
pub struct SentenceExtractorBuilder<'a> {
    translate: bool,
    shortest_length: usize,
    longest_length: usize,
    ignore_symbols: Option<&'a Vec<char>>,
    auxiliary_symbols: Option<&'a Vec<char>>,
    black_list_symbols: Option<&'a Vec<char>>,
    tables: Option<&'a CharTables>,
}

/// Hands out the sentences of one text.
pub struct SentenceExtractor<'a> {
    text: Vec<char>,
    cursor: usize,
    translate: bool,
    shortest_length: usize,
    longest_length: usize,
    auxiliary_symbols: Option<&'a Vec<char>>,
    black_list_symbols: Option<&'a Vec<char>>,
    tables: Option<&'a CharTables>,
}

impl<'a> SentenceExtractorBuilder<'a> {
    /// The options that decide which sentences come out.
    pub closed spec fn settings(&self) -> Settings {
        Settings {
            translate: self.translate,
            shortest_length: self.shortest_length as nat,
            longest_length: self.longest_length as nat,
            auxiliary_symbols: symbols_of(self.auxiliary_symbols),
            black_list_symbols: symbols_of(self.black_list_symbols),
            character_map: match self.tables {
                Some(tables) => tables.character_map@,
                None => Map::empty(),
            },
            standard_characters: match self.tables {
                Some(tables) => tables.standard_characters@,
                None => Set::empty(),
            },
        }
    }

    /// The symbols that are taken out of a text before it is scanned.
    pub closed spec fn ignored(&self) -> Seq<char> {
        symbols_of(self.ignore_symbols)
    }

    /// The map that brings variant punctuation to one form.
    pub closed spec fn symbol_map(&self) -> Map<u32, char> {
        match self.tables {
            Some(tables) => tables.symbol_map@,
            None => Map::empty(),
        }
    }

    /// A builder with the usual options: no translation, sentences of at
    /// least 3 characters, auxiliary cuts after 38 characters, no symbols
    /// and no tables.
    pub fn new() -> (builder: SentenceExtractorBuilder<'a>)
        ensures
            builder.settings() == (Settings {
                translate: false,
                shortest_length: 3,
                longest_length: 38,
                auxiliary_symbols: Seq::empty(),
                black_list_symbols: Seq::empty(),
                character_map: Map::empty(),
                standard_characters: Set::empty(),
            }),
            builder.ignored() == Seq::<char>::empty(),
            builder.symbol_map() == Map::<u32, char>::empty(),
    {
        SentenceExtractorBuilder {
            translate: false,
            shortest_length: 3,
            longest_length: 38,
            ignore_symbols: None,
            auxiliary_symbols: None,
            black_list_symbols: None,
            tables: None,
        }
    }

    /// Whether traditional characters are replaced by simplified ones.
    pub fn translate(self, translate: bool) -> (builder: Self)
        ensures
            builder.settings() == (Settings { translate, ..self.settings() }),
            builder.ignored() == self.ignored(),
            builder.symbol_map() == self.symbol_map(),
    {
        SentenceExtractorBuilder { translate, ..self }
    }

    /// The least number of characters of a sentence.
    pub fn shortest_length(self, shortest_length: usize) -> (builder: Self)
        ensures
            builder.settings() == (Settings {
                shortest_length: shortest_length as nat,
                ..self.settings()
            }),
            builder.ignored() == self.ignored(),
            builder.symbol_map() == self.symbol_map(),
    {
        SentenceExtractorBuilder { shortest_length, ..self }
    }

    /// The number of characters after which an auxiliary symbol cuts the
    /// text.
    pub fn longest_length(self, longest_length: usize) -> (builder: Self)
        ensures
            builder.settings() == (Settings {
                longest_length: longest_length as nat,
                ..self.settings()
            }),
            builder.ignored() == self.ignored(),
            builder.symbol_map() == self.symbol_map(),
    {
        SentenceExtractorBuilder { longest_length, ..self }
    }

    /// The symbols that are taken out of a text before it is scanned.
    pub fn ignore_symbols(self, ignore_symbols: &'a Vec<char>) -> (builder: Self)
        ensures
            builder.settings() == self.settings(),
            builder.ignored() == ignore_symbols@,
            builder.symbol_map() == self.symbol_map(),
    {
        SentenceExtractorBuilder { ignore_symbols: Some(ignore_symbols), ..self }
    }

    /// The symbols that cut a text once the longest length was reached.
    pub fn auxiliary_symbols(self, auxiliary_symbols: &'a Vec<char>) -> (builder: Self)
        ensures
            builder.settings() == (Settings {
                auxiliary_symbols: auxiliary_symbols@,
                ..self.settings()
            }),
            builder.ignored() == self.ignored(),
            builder.symbol_map() == self.symbol_map(),
    {
        SentenceExtractorBuilder { auxiliary_symbols: Some(auxiliary_symbols), ..self }
    }

    /// The symbols that no sentence may hold.
    pub fn black_list_symbols(self, black_list_symbols: &'a Vec<char>) -> (builder: Self)
        ensures
            builder.settings() == (Settings {
                black_list_symbols: black_list_symbols@,
                ..self.settings()
            }),
            builder.ignored() == self.ignored(),
            builder.symbol_map() == self.symbol_map(),
    {
        SentenceExtractorBuilder { black_list_symbols: Some(black_list_symbols), ..self }
    }

    /// The tables of characters that the extractor reads.
    pub fn tables(self, tables: &'a CharTables) -> (builder: Self)
        ensures
            builder.settings() == (Settings {
                character_map: tables.character_map@,
                standard_characters: tables.standard_characters@,
                ..self.settings()
            }),
            builder.ignored() == self.ignored(),
            builder.symbol_map() == tables.symbol_map@,
    {
        SentenceExtractorBuilder { tables: Some(tables), ..self }
    }

    /// The symbol on which the options contradict each other: the first
    /// symbol to ignore that is also an auxiliary symbol or a terminal mark.
    pub fn conflict(&self) -> (symbol: Option<char>)
        ensures
            symbol == first_conflict(self.ignored(), self.settings().auxiliary_symbols, 0),
    {
        let ignore = match self.ignore_symbols {
            Some(symbols) => symbols,
            None => {
                return None;
            },
        };
        let mut i: usize = 0;
        while i < ignore.len()
            invariant
                i <= ignore.len(),
                ignore@ == self.ignored(),
                first_conflict(self.ignored(), self.settings().auxiliary_symbols, 0)
                    == first_conflict(
                    self.ignored(),
                    self.settings().auxiliary_symbols,
                    i as int,
                ),
            decreases ignore.len() - i,
        {
            let c = ignore[i];
            let auxiliary = match self.auxiliary_symbols {
                Some(symbols) => is_one_of(symbols, c),
                None => false,
            };
            if auxiliary || is_terminal(c) {
                return Some(c);
            }
            i += 1;
        }
        None
    }

    /// An extractor for `text`. The options may not contradict each other.
    pub fn build(&self, text: &str) -> (extractor: SentenceExtractor<'a>)
        requires
            first_conflict(self.ignored(), self.settings().auxiliary_symbols, 0) is None,
        ensures
            extractor.settings() == self.settings(),
            extractor.rest() == cleaned(body_of(text@), self.symbol_map(), self.ignored()),
    {
        let chars = chars_of(text);
        let lines = split_lines(&chars);
        let mut marked = false;
        if lines.len() > 1 {
            let mut marker: Vec<char> = Vec::new();
            marker.push('消');
            marker.push('歧');
            marker.push('義');
            assert(marker@ == disambiguation_marker());
            assert(texts_of(lines@)[0] == lines@[0]@);
            marked = contains(&lines[0], &marker);
        }
        let mut scanned: Vec<char> = Vec::new();
        if lines.len() > 1 {
            if !marked {
                let mut k: usize = 1;
                let ghost all = lines_of(text@);
                assert(all.skip(1).take(0) == Seq::<Seq<char>>::empty());
                while k < lines.len()
                    invariant
                        1 <= k <= lines.len(),
                        all == texts_of(lines@),
                        scanned@ == cleaned(
                            joined(all.skip(1).take(k - 1)),
                            self.symbol_map(),
                            self.ignored(),
                        ),
                    decreases lines.len() - k,
                {
                    let ghost done = joined(all.skip(1).take(k - 1));
                    assert(all.skip(1).take(k as int).drop_last() == all.skip(1).take(k - 1));
                    assert(all.skip(1).take(k as int).last() == lines@[k as int]@);
                    self.clean_into(&mut scanned, &lines[k], Ghost(done));
                    k += 1;
                }
                assert(all.skip(1).take(k - 1) == all.skip(1));
            }
        } else {
            self.clean_into(&mut scanned, &chars, Ghost(Seq::empty()));
            assert(Seq::<char>::empty() + chars@ == chars@);
        }
        SentenceExtractor {
            text: scanned,
            cursor: 0,
            translate: self.translate,
            shortest_length: self.shortest_length,
            longest_length: self.longest_length,
            auxiliary_symbols: self.auxiliary_symbols,
            black_list_symbols: self.black_list_symbols,
            tables: self.tables,
        }
    }

    /// Appends to `out` the characters of `more`, each replaced by its image
    /// under the symbol map, without those that are to be ignored.
    fn clean_into(&self, out: &mut Vec<char>, more: &Vec<char>, Ghost(done): Ghost<Seq<char>>)
        requires
            old(out)@ == cleaned(done, self.symbol_map(), self.ignored()),
        ensures
            final(out)@ == cleaned(done + more@, self.symbol_map(), self.ignored()),
    {
        let mut i: usize = 0;
        assert(done + more@.take(0) == done);
        while i < more.len()
            invariant
                i <= more.len(),
                out@ == cleaned(done + more@.take(i as int), self.symbol_map(), self.ignored()),
            decreases more.len() - i,
        {
            let c = match self.tables {
                Some(tables) => map_char(&tables.symbol_map, more[i]),
                None => more[i],
            };
            let dropped = match self.ignore_symbols {
                Some(symbols) => is_one_of(symbols, c),
                None => false,
            };
            assert((done + more@.take(i + 1)).drop_last() == done + more@.take(i as int));
            assert((done + more@.take(i + 1)).last() == more@[i as int]);
            if !dropped {
                out.push(c);
            }
            i += 1;
        }
        assert(more@.take(i as int) == more@);
    }

    /// An extractor for `text`, or the symbol on which the options
    /// contradict each other.
    pub fn try_build(&self, text: &str) -> (result: Result<SentenceExtractor<'a>, Error>)
        ensures
            match first_conflict(self.ignored(), self.settings().auxiliary_symbols, 0) {
                Some(symbol) => result matches Err(Error::OptionsConflic(named)) && named@
                    == seq![symbol],
                None => result matches Ok(extractor) && extractor.settings() == self.settings()
                    && extractor.rest() == cleaned(
                    body_of(text@),
                    self.symbol_map(),
                    self.ignored(),
                ),
            },
    {
        match self.conflict() {
            Some(symbol) => {
                let mut named = String::new();
                named.push(symbol);
                Err(Error::OptionsConflic(named))
            },
            None => Ok(self.build(text)),
        }
    }
}

/// Nothing before position `k` cuts the text and `k` does, or the text ends
/// there: `k` is the first cut.
pub proof fn lemma_first_cut(text: Seq<char>, s: Settings, from: int, k: int)
    requires
        0 <= from <= k <= text.len(),
        forall|i: int| from <= i < k ==> !cut_at(text, s, i),
        k < text.len() ==> cut_at(text, s, k),
    ensures
        cut_index(text, s, from) == k,
    decreases k - from,
{
    if from < k {
        lemma_first_cut(text, s, from + 1, k);
    }
}

impl<'a> SentenceExtractor<'a> {
    /// The options that decide which sentences come out.
    pub closed spec fn settings(&self) -> Settings {
        Settings {
            translate: self.translate,
            shortest_length: self.shortest_length as nat,
            longest_length: self.longest_length as nat,
            auxiliary_symbols: symbols_of(self.auxiliary_symbols),
            black_list_symbols: symbols_of(self.black_list_symbols),
            character_map: match self.tables {
                Some(tables) => tables.character_map@,
                None => Map::empty(),
            },
            standard_characters: match self.tables {
                Some(tables) => tables.standard_characters@,
                None => Set::empty(),
            },
        }
    }

    /// The text that was not scanned yet.
    pub closed spec fn rest(&self) -> Seq<char> {
        if self.cursor <= self.text@.len() {
            self.text@.skip(self.cursor as int)
        } else {
            Seq::empty()
        }
    }

    /// Whether the text is cut at position `at`, counted from the start of
    /// the text.
    fn cuts(&self, at: usize, start: usize) -> (yes: bool)
        requires
            start <= at < self.text@.len(),
            start == self.cursor,
        ensures
            yes == cut_at(self.rest(), self.settings(), at - start),
    {
        let c = self.text[at];
        assert(self.rest()[at - start] == c);
        if is_terminal(c) {
            return true;
        }
        if at - start >= self.longest_length {
            match self.auxiliary_symbols {
                Some(symbols) => is_one_of(symbols, c),
                None => false,
            }
        } else {
            false
        }
    }

    /// The candidate made of a piece of text.
    fn candidate_of(&self, piece: &Vec<char>) -> (item: Vec<char>)
        ensures
            item@ == candidate(piece@, self.settings()),
    {
        let plain = strip_parens(trim(piece));
        if !self.translate {
            return plain;
        }
        let mut item: Vec<char> = Vec::new();
        let mut i: usize = 0;
        while i < plain.len()
            invariant
                i <= plain.len(),
                item@ == translated(plain@.take(i as int), self.settings().character_map),
            decreases plain.len() - i,
        {
            let c = match self.tables {
                Some(tables) => map_char(&tables.character_map, plain[i]),
                None => plain[i],
            };
            item.push(c);
            assert(item@ =~= translated(plain@.take(i + 1), self.settings().character_map));
            i += 1;
        }
        assert(plain@.take(i as int) == plain@);
        item
    }

    /// Whether the candidate is dropped.
    fn is_rejected(&self, item: &Vec<char>) -> (yes: bool)
        ensures
            yes == rejected(item@, self.settings()),
    {
        if is_invalid(item) || item.len() < self.shortest_length {
            return true;
        }
        let mut i: usize = 0;
        while i < item.len()
            invariant
                i <= item.len(),
                self.translate ==> forall|j: int|
                    0 <= j < i ==> standard(#[trigger] item@[j], self.settings()),
                forall|j: int|
                    0 <= j < i ==> !self.settings().black_list_symbols.contains(
                        #[trigger] item@[j],
                    ),
            decreases item.len() - i,
        {
            let c: char = item[i];
            if self.translate {
                let known = match self.tables {
                    Some(tables) => {
                        let code: u32 = c as u32;
                        tables.standard_characters.contains(&code)
                    },
                    None => false,
                };
                if !is_punctuation(c) && !known {
                    return true;
                }
            }
            let listed = match self.black_list_symbols {
                Some(symbols) => is_one_of(symbols, c),
                None => false,
            };
            if listed {
                return true;
            }
            i += 1;
        }
        false
    }

    /// Where the text that is left is cut first, counted from its start, and
    /// the character that cuts it; `None` where nothing cuts it.
    pub fn get_cutting_point(&self) -> (point: Option<(usize, char)>)
        ensures
            match point {
                Some((index, mark)) => index == cut_index(self.rest(), self.settings(), 0)
                    && index < self.rest().len() && mark == self.rest()[index as int],
                None => cut_index(self.rest(), self.settings(), 0) == self.rest().len(),
            },
    {
        if self.cursor >= self.text.len() {
            return None;
        }
        let start = self.cursor;
        let mut at: usize = start;
        while at < self.text.len() && !self.cuts(at, start)
            invariant
                start == self.cursor,
                start <= at <= self.text@.len(),
                forall|i: int| 0 <= i < at - start ==> !cut_at(self.rest(), self.settings(), i),
            decreases self.text@.len() - at,
        {
            at += 1;
        }
        proof {
            lemma_first_cut(self.rest(), self.settings(), 0, at - start);
        }
        if at < self.text.len() {
            assert(self.rest()[at - start] == self.text@[at as int]);
            Some((at - start, self.text[at]))
        } else {
            None
        }
    }

    /// The next sentence of the text; `None` once the text holds no further
    /// sentence.
    pub fn next(&mut self) -> (sentence: Option<String>)
        ensures
            final(self).settings() == old(self).settings(),
            match next_from(old(self).rest(), old(self).settings()) {
                Some((text, rest)) => sentence matches Some(found) && found@ == text
                    && final(self).rest() == rest,
                None => sentence is None && final(self).rest().len() == 0,
            },
    {
        loop
            invariant
                self.settings() == old(self).settings(),
                next_from(self.rest(), self.settings()) == next_from(
                    old(self).rest(),
                    old(self).settings(),
                ),
            decreases self.rest().len(),
        {
            if self.cursor >= self.text.len() {
                return None;
            }
            let start = self.cursor;
            let ghost before = self.rest();
            let ghost opts = self.settings();
            let point = self.get_cutting_point();
            let end = match point {
                Some((index, _)) => start + index,
                None => self.text.len(),
            };
            let piece = copy_range(&self.text, start, end);
            assert(piece@ == before.take(end - start));
            let item = self.candidate_of(&piece);
            let dropped = self.is_rejected(&item);
            proof {
                if point is Some {
                    assert(before.skip(end - start + 1) == self.text@.skip(end + 1));
                }
            }
            self.cursor = match point {
                Some(_) => end + 1,
                None => end,
            };
            assert(self.rest() == cut(before, opts).1);
            if !dropped {
                let mut out = trim(&item);
                match point {
                    Some((_, mark)) => {
                        if mark == '？' || mark == '！' {
                            out.push(mark);
                        }
                    },
                    None => {},
                }
                assert(cut(before, opts).0 == Some(out@));
                return Some(string_of(&out));
            }
        }
    }

    /// All the sentences that the text still holds, in order.
    pub fn sentences(&mut self) -> (found: Vec<String>)
        ensures
            final(self).settings() == old(self).settings(),
            final(self).rest().len() == 0,
            texts(found@) == all_from(old(self).rest(), old(self).settings()),
    {
        let mut found: Vec<String> = Vec::new();
        assert(texts(found@) == Seq::<Seq<char>>::empty());
        loop
            invariant
                self.settings() == old(self).settings(),
                texts(found@) + all_from(self.rest(), self.settings()) == all_from(
                    old(self).rest(),
                    old(self).settings(),
                ),
            ensures
                self.settings() == old(self).settings(),
                self.rest().len() == 0,
                texts(found@) == all_from(old(self).rest(), old(self).settings()),
            decreases self.rest().len(),
        {
            let ghost before = self.rest();
            let ghost listed = texts(found@);
            proof {
                lemma_next_shortens(before, self.settings());
            }
            match self.next() {
                Some(sentence) => {
                    found.push(sentence);
                    assert(texts(found@) == listed.push(sentence@));
                },
                None => {
                    break;
                },
            }
        }
        found
    }
}

/// All the sentences of the text, in order.
pub open spec fn all_from(text: Seq<char>, s: Settings) -> Seq<Seq<char>>
    decreases text.len(),
{
    match next_from(text, s) {
        Some((sentence, rest)) => if rest.len() < text.len() {
            seq![sentence] + all_from(rest, s)
        } else {
            Seq::empty()
        },
        None => Seq::empty(),
    }
}

/// What is left after a sentence is shorter than the text it was taken from.
pub proof fn lemma_next_shortens(text: Seq<char>, s: Settings)
    ensures
        next_from(text, s) matches Some((sentence, rest)) ==> rest.len() < text.len(),
    decreases text.len(),
{
    if text.len() > 0 {
        let (sentence, rest) = cut(text, s);
        if rest.len() < text.len() && sentence is None {
            lemma_next_shortens(rest, s);
        }
    }
}

} // verus!
