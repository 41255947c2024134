//! The English profile.

use vstd::prelude::*;
use vstd::hash_set::StringHashSet;
use crate::checker::{accepts, try_check};
use crate::pattern::compiles;
use crate::rules::{Profile, Rules, Segmenter};

verus! {

/// The pattern of an English abbreviation: capital letters with any number
/// of full stops between the last two.
pub open spec fn abbreviation() -> Seq<char> {
    "[[:upper:]]+\\.*[[:upper:]]"@
}

/// The English profile: sentences of 1 to 14 words and at least 3 bytes,
/// without the symbols of markup, without white space before punctuation,
/// without numbers and abbreviations.
pub open spec fn profile() -> Profile {
    Profile {
        min_trimmed_length: 3,
        min_word_count: 1,
        max_word_count: 14,
        min_characters: 0,
        max_characters: usize::MAX as nat,
        may_end_with_colon: false,
        quote_start_with_letter: true,
        needs_punctuation_end: false,
        needs_uppercase_start: false,
        needs_letter_start: false,
        allowed_symbols_regex: Seq::empty(),
        disallowed_symbols: seq![
            '<',
            '>',
            '+',
            '*',
            '\\',
            '#',
            '@',
            '^',
            '[',
            ']',
            '(',
            ')',
            '/',
            '\n',
        ],
        disallowed_words: Set::empty(),
        stem_separator_regex: Seq::empty(),
        broken_whitespace: seq!["  "@, " ,"@, " ."@, " ?"@, " !"@, " ;"@],
        abbreviation_patterns: seq![abbreviation()],
        other_patterns: Seq::empty(),
        replacements: Seq::empty(),
        even_symbols: Seq::empty(),
        matching_symbols: Seq::empty(),
        remove_brackets_list: Seq::empty(),
        segmenter: Segmenter::Default,
        max_sentences_per_text: 3,
    }
}

/// The English profile.
pub fn rules() -> (rules: Rules)
    ensures
        rules@ == profile(),
        rules.valid() <==> compiles(abbreviation()),
{
    let rules = Rules {
        min_trimmed_length: 3,
        min_word_count: 1,
        max_word_count: 14,
        min_characters: 0,
        max_characters: usize::MAX,
        may_end_with_colon: false,
        quote_start_with_letter: true,
        needs_punctuation_end: false,
        needs_uppercase_start: false,
        needs_letter_start: false,
        allowed_symbols_regex: String::new(),
        disallowed_symbols: vec![
            '<',
            '>',
            '+',
            '*',
            '\\',
            '#',
            '@',
            '^',
            '[',
            ']',
            '(',
            ')',
            '/',
            '\n',
        ],
        disallowed_words: StringHashSet::new(),
        stem_separator_regex: String::new(),
        broken_whitespace: vec![
            "  ".to_string(),
            " ,".to_string(),
            " .".to_string(),
            " ?".to_string(),
            " !".to_string(),
            " ;".to_string(),
        ],
        abbreviation_patterns: vec!["[[:upper:]]+\\.*[[:upper:]]".to_string()],
        other_patterns: Vec::new(),
        replacements: Vec::new(),
        even_symbols: Vec::new(),
        matching_symbols: Vec::new(),
        remove_brackets_list: Vec::new(),
        segmenter: Segmenter::Default,
        max_sentences_per_text: 3,
    };
    assert(rules@.disallowed_symbols =~= profile().disallowed_symbols);
    assert(rules@.broken_whitespace =~= profile().broken_whitespace);
    assert(rules@.abbreviation_patterns =~= profile().abbreviation_patterns);
    assert(rules@.other_patterns =~= profile().other_patterns);
    assert(rules@.replacements =~= profile().replacements);
    assert(rules@.even_symbols =~= profile().even_symbols);
    assert(rules@.matching_symbols =~= profile().matching_symbols);
    assert(rules@.remove_brackets_list =~= profile().remove_brackets_list);
    assert(rules.abbreviation_patterns@[0]@ == abbreviation());
    rules
}

/// Decides whether the English profile accepts the candidate `raw`. Nothing
/// is accepted where the pattern of abbreviations does not compile.
pub fn check(raw: &str) -> (accepted: bool)
    ensures
        accepted == (compiles(abbreviation()) && accepts(profile(), raw@)),
{
    let rules = rules();
    match try_check(&rules, raw) {
        Ok(accepted) => accepted,
        Err(_) => false,
    }
}

} // verus!
