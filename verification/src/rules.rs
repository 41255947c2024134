//! The rule profile of a language.

use vstd::prelude::*;
use vstd::hash_set::StringHashSet;
use crate::lines::{pieces_of, split_pieces};
use crate::pattern::{compiles, regex_compiles};
use crate::text::{chars_of, lowered, string_of};
use crate::trim::{trim, trimmed};
use crate::words::texts_of;

verus! {

/// Which segmenter cuts a text into candidate sentences.
#[derive(Clone, Copy, Debug, PartialEq, Eq, Structural)]
pub enum Segmenter {
    /// The statistical tokenizer with the training set of the language.
    Default,
    /// A tokenizer outside the library, chosen by language.
    External,
}

/// The declarative rules of one language. A profile does not change during
/// a run.
pub struct Rules {
    /// Least length of the trimmed sentence, in bytes of its UTF-8 form.
    pub min_trimmed_length: usize,
    /// Least number of words.
    pub min_word_count: usize,
    /// Greatest number of words.
    pub max_word_count: usize,
    /// Least number of alphabetic characters.
    pub min_characters: usize,
    /// Greatest number of alphabetic characters.
    pub max_characters: usize,
    /// Whether a sentence may end with `:`.
    pub may_end_with_colon: bool,
    /// Whether a letter has to follow a leading `"`.
    pub quote_start_with_letter: bool,
    /// Whether the last character must not be a letter.
    pub needs_punctuation_end: bool,
    /// Whether the first character has to be an uppercase letter.
    pub needs_uppercase_start: bool,
    /// Whether the first character has to be a letter.
    pub needs_letter_start: bool,
    /// Where not empty, a pattern that every character has to match; it
    /// takes the place of `disallowed_symbols`.
    pub allowed_symbols_regex: String,
    /// Characters that reject a sentence.
    pub disallowed_symbols: Vec<char>,
    /// Words, in lowercase, that reject a sentence.
    pub disallowed_words: StringHashSet,
    /// Where not empty, a pattern that parts a word's stem from what follows.
    pub stem_separator_regex: String,
    /// Texts that reject a sentence in which they stand.
    pub broken_whitespace: Vec<String>,
    /// Patterns of abbreviations; a match rejects the sentence.
    pub abbreviation_patterns: Vec<String>,
    /// Further patterns; a match rejects the sentence.
    pub other_patterns: Vec<String>,
    /// Pairs of a text to look for and the text that takes its place; an
    /// entry that is no pair is passed over.
    pub replacements: Vec<Vec<String>>,
    /// Symbols that have to occur an even number of times.
    pub even_symbols: Vec<String>,
    /// Pairs of an opening and a closing symbol that have to occur equally
    /// often.
    pub matching_symbols: Vec<Vec<String>>,
    /// Pairs of an opening and a closing bracket; what stands between two
    /// matching brackets is removed together with them.
    pub remove_brackets_list: Vec<(char, char)>,
    /// The segmenter of the language.
    pub segmenter: Segmenter,
    /// Greatest number of sentences taken from one text; `usize::MAX` takes
    /// every accepted sentence.
    pub max_sentences_per_text: usize,
}

/// A profile as the contracts read it: numbers, texts and sets of texts.
pub struct Profile {
    pub min_trimmed_length: nat,
    pub min_word_count: nat,
    pub max_word_count: nat,
    pub min_characters: nat,
    pub max_characters: nat,
    pub may_end_with_colon: bool,
    pub quote_start_with_letter: bool,
    pub needs_punctuation_end: bool,
    pub needs_uppercase_start: bool,
    pub needs_letter_start: bool,
    pub allowed_symbols_regex: Seq<char>,
    pub disallowed_symbols: Seq<char>,
    pub disallowed_words: Set<Seq<char>>,
    pub stem_separator_regex: Seq<char>,
    pub broken_whitespace: Seq<Seq<char>>,
    pub abbreviation_patterns: Seq<Seq<char>>,
    pub other_patterns: Seq<Seq<char>>,
    pub replacements: Seq<Seq<Seq<char>>>,
    pub even_symbols: Seq<Seq<char>>,
    pub matching_symbols: Seq<Seq<Seq<char>>>,
    pub remove_brackets_list: Seq<(char, char)>,
    pub segmenter: Segmenter,
    pub max_sentences_per_text: nat,
}

impl View for Rules {
    type V = Profile;

    open spec fn view(&self) -> Profile {
        Profile {
            min_trimmed_length: self.min_trimmed_length as nat,
            min_word_count: self.min_word_count as nat,
            max_word_count: self.max_word_count as nat,
            min_characters: self.min_characters as nat,
            max_characters: self.max_characters as nat,
            may_end_with_colon: self.may_end_with_colon,
            quote_start_with_letter: self.quote_start_with_letter,
            needs_punctuation_end: self.needs_punctuation_end,
            needs_uppercase_start: self.needs_uppercase_start,
            needs_letter_start: self.needs_letter_start,
            allowed_symbols_regex: self.allowed_symbols_regex@,
            disallowed_symbols: self.disallowed_symbols@,
            disallowed_words: self.disallowed_words@,
            stem_separator_regex: self.stem_separator_regex@,
            broken_whitespace: self.broken_whitespace.deep_view(),
            abbreviation_patterns: self.abbreviation_patterns.deep_view(),
            other_patterns: self.other_patterns.deep_view(),
            replacements: self.replacements.deep_view(),
            even_symbols: self.even_symbols.deep_view(),
            matching_symbols: self.matching_symbols.deep_view(),
            remove_brackets_list: self.remove_brackets_list@,
            segmenter: self.segmenter,
            max_sentences_per_text: self.max_sentences_per_text as nat,
        }
    }
}

/// What is wrong with a profile.
#[derive(Clone, Copy, Debug, PartialEq, Eq, Structural)]
pub enum RulesError {
    /// `min_word_count` is above `max_word_count`.
    WordCountBounds,
    /// `min_characters` is above `max_characters`.
    CharacterBounds,
    /// `allowed_symbols_regex` does not compile.
    AllowedSymbolsPattern,
    /// `stem_separator_regex` does not compile.
    StemSeparatorPattern,
    /// The entry of `abbreviation_patterns` at this position does not compile.
    AbbreviationPattern(usize),
    /// The entry of `other_patterns` at this position does not compile.
    OtherPattern(usize),
    /// The entry of `matching_symbols` at this position is no pair.
    MatchingSymbols(usize),
}

/// The position of the first pattern at or after `from` that does not
/// compile.
pub open spec fn first_bad_pattern(patterns: Seq<String>, from: int) -> Option<int>
    decreases patterns.len() - from,
{
    if from < 0 || from >= patterns.len() {
        None
    } else if !compiles(patterns[from]@) {
        Some(from)
    } else {
        first_bad_pattern(patterns, from + 1)
    }
}

/// The position of the first entry at or after `from` that is no pair.
pub open spec fn first_non_pair(entries: Seq<Vec<String>>, from: int) -> Option<int>
    decreases entries.len() - from,
{
    if from < 0 || from >= entries.len() {
        None
    } else if entries[from]@.len() != 2 {
        Some(from)
    } else {
        first_non_pair(entries, from + 1)
    }
}

/// No pattern at or after `from` is bad exactly if all of them compile.
pub proof fn lemma_first_bad_pattern(patterns: Seq<String>, from: int)
    requires
        0 <= from <= patterns.len(),
    ensures
        first_bad_pattern(patterns, from) is None <==> forall|i: int|
            from <= i < patterns.len() ==> compiles(#[trigger] patterns[i]@),
        first_bad_pattern(patterns, from) matches Some(i) ==> from <= i < patterns.len(),
    decreases patterns.len() - from,
{
    if from < patterns.len() && compiles(patterns[from]@) {
        lemma_first_bad_pattern(patterns, from + 1);
    }
}

/// No entry at or after `from` fails exactly if all of them are pairs.
pub proof fn lemma_first_non_pair(entries: Seq<Vec<String>>, from: int)
    requires
        0 <= from <= entries.len(),
    ensures
        first_non_pair(entries, from) is None <==> forall|i: int|
            from <= i < entries.len() ==> (#[trigger] entries[i])@.len() == 2,
        first_non_pair(entries, from) matches Some(i) ==> from <= i < entries.len(),
    decreases entries.len() - from,
{
    if from < entries.len() && entries[from]@.len() == 2 {
        lemma_first_non_pair(entries, from + 1);
    }
}

impl Rules {
    /// The first fault of the profile, in the order of `RulesError`; `None`
    /// for a profile without fault.
    pub open spec fn fault(&self) -> Option<RulesError> {
        if self.min_word_count > self.max_word_count {
            Some(RulesError::WordCountBounds)
        } else if self.min_characters > self.max_characters {
            Some(RulesError::CharacterBounds)
        } else if self.allowed_symbols_regex@.len() > 0 && !compiles(
            self.allowed_symbols_regex@,
        ) {
            Some(RulesError::AllowedSymbolsPattern)
        } else if self.stem_separator_regex@.len() > 0 && !compiles(self.stem_separator_regex@) {
            Some(RulesError::StemSeparatorPattern)
        } else if first_bad_pattern(self.abbreviation_patterns@, 0) is Some {
            Some(
                RulesError::AbbreviationPattern(
                    first_bad_pattern(self.abbreviation_patterns@, 0).unwrap() as usize,
                ),
            )
        } else if first_bad_pattern(self.other_patterns@, 0) is Some {
            Some(
                RulesError::OtherPattern(
                    first_bad_pattern(self.other_patterns@, 0).unwrap() as usize,
                ),
            )
        } else if first_non_pair(self.matching_symbols@, 0) is Some {
            Some(
                RulesError::MatchingSymbols(
                    first_non_pair(self.matching_symbols@, 0).unwrap() as usize,
                ),
            )
        } else {
            None
        }
    }

    /// The profile's invariant: the bounds are ordered, every pattern
    /// compiles, and every entry of `matching_symbols` is a pair.
    pub open spec fn valid(&self) -> bool {
        &&& self.min_word_count <= self.max_word_count
        &&& self.min_characters <= self.max_characters
        &&& self.allowed_symbols_regex@.len() > 0 ==> compiles(self.allowed_symbols_regex@)
        &&& self.stem_separator_regex@.len() > 0 ==> compiles(self.stem_separator_regex@)
        &&& forall|i: int|
            0 <= i < self.abbreviation_patterns@.len() ==> compiles(
                #[trigger] self.abbreviation_patterns@[i]@,
            )
        &&& forall|i: int|
            0 <= i < self.other_patterns@.len() ==> compiles(#[trigger] self.other_patterns@[i]@)
        &&& forall|i: int|
            0 <= i < self.matching_symbols@.len() ==> (#[trigger] self.matching_symbols@[i])@.len()
                == 2
    }

    /// A profile is valid exactly if it has no fault.
    pub proof fn lemma_valid_iff_no_fault(&self)
        ensures
            self.valid() <==> self.fault() is None,
    {
        lemma_first_bad_pattern(self.abbreviation_patterns@, 0);
        lemma_first_bad_pattern(self.other_patterns@, 0);
        lemma_first_non_pair(self.matching_symbols@, 0);
    }

    /// Looks for the first fault of the profile.
    #[verifier::loop_isolation(false)]
    pub fn validate(&self) -> (result: Result<(), RulesError>)
        ensures
            result is Ok <==> self.valid(),
            result matches Err(e) ==> self.fault() == Some(e),
    {
        proof {
            self.lemma_valid_iff_no_fault();
        }
        if self.min_word_count > self.max_word_count {
            return Err(RulesError::WordCountBounds);
        }
        if self.min_characters > self.max_characters {
            return Err(RulesError::CharacterBounds);
        }
        if !self.allowed_symbols_regex.as_str().is_empty() && !regex_compiles(
            self.allowed_symbols_regex.as_str(),
        ) {
            return Err(RulesError::AllowedSymbolsPattern);
        }
        if !self.stem_separator_regex.as_str().is_empty() && !regex_compiles(
            self.stem_separator_regex.as_str(),
        ) {
            return Err(RulesError::StemSeparatorPattern);
        }
        match first_uncompiled(&self.abbreviation_patterns) {
            Some(i) => {
                return Err(RulesError::AbbreviationPattern(i));
            },
            None => {},
        }
        match first_uncompiled(&self.other_patterns) {
            Some(i) => {
                return Err(RulesError::OtherPattern(i));
            },
            None => {},
        }
        let mut i: usize = 0;
        while i < self.matching_symbols.len()
            invariant
                i <= self.matching_symbols.len(),
                first_non_pair(self.matching_symbols@, 0) == first_non_pair(
                    self.matching_symbols@,
                    i as int,
                ),
            decreases self.matching_symbols.len() - i,
        {
            if self.matching_symbols[i].len() != 2 {
                return Err(RulesError::MatchingSymbols(i));
            }
            i += 1;
        }
        Ok(())
    }
}

/// The words that a list of words names: each line of it, trimmed and in
/// lowercase.
pub open spec fn listed_words(lines: Seq<Seq<char>>) -> Set<Seq<char>> {
    Set::new(|w: Seq<char>| exists|i: int| 0 <= i < lines.len() && w == lowered(trimmed(#[trigger] lines[i])))
}

impl Rules {
    /// Adds the words of a list, one per line, to the disallowed words. The
    /// rest of the profile stays as it is.
    pub fn add_disallowed_words(&mut self, list: &str)
        ensures
            final(self)@ == (Profile {
                disallowed_words: old(self)@.disallowed_words.union(
                    listed_words(pieces_of(list@)),
                ),
                ..old(self)@
            }),
            final(self).valid() == old(self).valid(),
            final(self).fault() == old(self).fault(),
    {
        let lines = split_pieces(&chars_of(list));
        let ghost all = pieces_of(list@);
        let ghost before = self.disallowed_words@;
        let mut i: usize = 0;
        assert(before.union(listed_words(all.take(0))) =~= before);
        while i < lines.len()
            invariant
                i <= lines.len(),
                all == texts_of(lines@),
                *self == (Rules { disallowed_words: self.disallowed_words, ..*old(self) }),
                self.disallowed_words@ == before.union(listed_words(all.take(i as int))),
            decreases lines.len() - i,
        {
            let word = string_of(&trim(&lines[i])).as_str().to_lowercase();
            assert(word@ == lowered(trimmed(all[i as int])));
            proof {
                let done = all.take(i as int);
                let more = all.take(i + 1);
                assert(listed_words(more) =~= listed_words(done).insert(word@)) by {
                    assert forall|w: Seq<char>| listed_words(more).contains(w) implies listed_words(
                        done,
                    ).insert(word@).contains(w) by {
                        let k = choose|k: int|
                            0 <= k < more.len() && w == lowered(trimmed(#[trigger] more[k]));
                        if k < i {
                            assert(done[k] == more[k]);
                        }
                    }
                    assert forall|w: Seq<char>| listed_words(done).insert(word@).contains(
                        w,
                    ) implies listed_words(more).contains(w) by {
                        if listed_words(done).contains(w) {
                            let k = choose|k: int|
                                0 <= k < done.len() && w == lowered(trimmed(#[trigger] done[k]));
                            assert(more[k] == done[k]);
                        } else {
                            assert(more[i as int] == all[i as int]);
                        }
                    }
                }
            }
            self.disallowed_words.insert(word);
            assert(self.disallowed_words@ =~= before.union(listed_words(all.take(i + 1))));
            i += 1;
        }
        assert(all.take(i as int) == all);
    }
}

/// The position of the first pattern that does not compile.
pub fn first_uncompiled(patterns: &Vec<String>) -> (found: Option<usize>)
    ensures
        found is None <==> first_bad_pattern(patterns@, 0) is None,
        found matches Some(i) ==> first_bad_pattern(patterns@, 0) == Some(i as int),
{
    let mut i: usize = 0;
    while i < patterns.len()
        invariant
            i <= patterns.len(),
            first_bad_pattern(patterns@, 0) == first_bad_pattern(patterns@, i as int),
        decreases patterns.len() - i,
    {
        if !regex_compiles(patterns[i].as_str()) {
            return Some(i);
        }
        i += 1;
    }
    None
}

impl Default for Rules {
    /// The profile of a language that states no rule of its own.
    fn default() -> (rules: Rules)
        ensures
            rules.min_trimmed_length == 3,
            rules.min_word_count == 1,
            rules.max_word_count == 14,
            rules.min_characters == 0,
            rules.max_characters == usize::MAX,
            !rules.may_end_with_colon,
            rules.quote_start_with_letter,
            !rules.needs_punctuation_end,
            !rules.needs_uppercase_start,
            rules.needs_letter_start,
            rules.allowed_symbols_regex@.len() == 0,
            rules.disallowed_symbols@.len() == 0,
            rules.disallowed_words@ == Set::<Seq<char>>::empty(),
            rules.stem_separator_regex@.len() == 0,
            rules.broken_whitespace@.len() == 0,
            rules.abbreviation_patterns@.len() == 0,
            rules.other_patterns@.len() == 0,
            rules.replacements@.len() == 0,
            rules.even_symbols@.len() == 0,
            rules.matching_symbols@.len() == 0,
            rules.remove_brackets_list@.len() == 0,
            rules.segmenter == Segmenter::Default,
            rules.max_sentences_per_text == 3,
            rules.valid(),
    {
        Rules {
            min_trimmed_length: 3,
            min_word_count: 1,
            max_word_count: 14,
            min_characters: 0,
            max_characters: usize::MAX,
            may_end_with_colon: false,
            quote_start_with_letter: true,
            needs_punctuation_end: false,
            needs_uppercase_start: false,
            needs_letter_start: true,
            allowed_symbols_regex: String::new(),
            disallowed_symbols: Vec::new(),
            disallowed_words: StringHashSet::new(),
            stem_separator_regex: String::new(),
            broken_whitespace: Vec::new(),
            abbreviation_patterns: Vec::new(),
            other_patterns: Vec::new(),
            replacements: Vec::new(),
            even_symbols: Vec::new(),
            matching_symbols: Vec::new(),
            remove_brackets_list: Vec::new(),
            segmenter: Segmenter::Default,
            max_sentences_per_text: 3,
        }
    }
}

} // verus!
