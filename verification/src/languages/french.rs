//! The French profile.

use vstd::prelude::*;
use vstd::hash_set::StringHashSet;
use crate::checker::{accepts, try_check};
use crate::pattern::compiles;
use crate::rules::{Profile, Rules, Segmenter};

verus! {

/// The pattern of an abbreviation inside a sentence: capital letters with
/// any number of full stops between the last two.
pub open spec fn abbreviation() -> Seq<char> {
    "[[:upper:]]+\\.*[[:upper:]]"@
}

/// The pattern of an initial: one capital letter and a full stop at the
/// start of the sentence or after white space.
pub open spec fn initial() -> Seq<char> {
    "(^|[[:space:]])[[:upper:]]\\."@
}

/// The French profile: sentences of 2 to 14 words with at least 3 letters,
/// from an uppercase letter to a punctuation mark, without the symbols of
/// markup and quotation, without white space before punctuation, without
/// numbers, abbreviations and initials.
pub open spec fn profile() -> Profile {
    Profile {
        min_trimmed_length: 3,
        min_word_count: 2,
        max_word_count: 14,
        min_characters: 3,
        max_characters: usize::MAX as nat,
        may_end_with_colon: false,
        quote_start_with_letter: true,
        needs_punctuation_end: true,
        needs_uppercase_start: true,
        needs_letter_start: true,
        allowed_symbols_regex: Seq::empty(),
        disallowed_symbols: seq![
            '"',
            '<',
            '>',
            '+',
            '*',
            '\\',
            '#',
            '@',
            '^',
            '[',
            ']',
            '(',
            ')',
            '/',
            '\n',
            '«',
            '»',
        ],
        disallowed_words: Set::empty(),
        stem_separator_regex: Seq::empty(),
        broken_whitespace: seq!["  "@, " ,"@, " ."@, " ?"@, " !"@, " ;"@, ", ',"@, " :"@],
        abbreviation_patterns: seq![abbreviation(), initial()],
        other_patterns: Seq::empty(),
        replacements: Seq::empty(),
        even_symbols: Seq::empty(),
        matching_symbols: Seq::empty(),
        remove_brackets_list: Seq::empty(),
        segmenter: Segmenter::Default,
        max_sentences_per_text: 3,
    }
}

/// The French profile.
pub fn rules() -> (rules: Rules)
    ensures
        rules@ == profile(),
        rules.valid() <==> compiles(abbreviation()) && compiles(initial()),
{
    let rules = Rules {
        min_trimmed_length: 3,
        min_word_count: 2,
        max_word_count: 14,
        min_characters: 3,
        max_characters: usize::MAX,
        may_end_with_colon: false,
        quote_start_with_letter: true,
        needs_punctuation_end: true,
        needs_uppercase_start: true,
        needs_letter_start: true,
        allowed_symbols_regex: String::new(),
        disallowed_symbols: vec![
            '"',
            '<',
            '>',
            '+',
            '*',
            '\\',
            '#',
            '@',
            '^',
            '[',
            ']',
            '(',
            ')',
            '/',
            '\n',
            '«',
            '»',
        ],
        disallowed_words: StringHashSet::new(),
        stem_separator_regex: String::new(),
        broken_whitespace: vec![
            "  ".to_string(),
            " ,".to_string(),
            " .".to_string(),
            " ?".to_string(),
            " !".to_string(),
            " ;".to_string(),
            ", ',".to_string(),
            " :".to_string(),
        ],
        abbreviation_patterns: vec![
            "[[:upper:]]+\\.*[[:upper:]]".to_string(),
            "(^|[[:space:]])[[:upper:]]\\.".to_string(),
        ],
        other_patterns: Vec::new(),
        replacements: Vec::new(),
        even_symbols: Vec::new(),
        matching_symbols: Vec::new(),
        remove_brackets_list: Vec::new(),
        segmenter: Segmenter::Default,
        max_sentences_per_text: 3,
    };
    assert(rules@.disallowed_symbols =~= profile().disallowed_symbols);
    assert(rules@.broken_whitespace =~= profile().broken_whitespace);
    assert(rules@.abbreviation_patterns =~= profile().abbreviation_patterns);
    assert(rules@.other_patterns =~= profile().other_patterns);
    assert(rules@.replacements =~= profile().replacements);
    assert(rules@.even_symbols =~= profile().even_symbols);
    assert(rules@.matching_symbols =~= profile().matching_symbols);
    assert(rules@.remove_brackets_list =~= profile().remove_brackets_list);
    assert(rules.abbreviation_patterns@[0]@ == abbreviation());
    assert(rules.abbreviation_patterns@[1]@ == initial());
    rules
}

/// Decides whether the French profile accepts the candidate `raw`. Nothing
/// is accepted where one of the two patterns does not compile.
pub fn check(raw: &str) -> (accepted: bool)
    ensures
        accepted == (compiles(abbreviation()) && compiles(initial()) && accepts(profile(), raw@)),
{
    let rules = rules();
    match try_check(&rules, raw) {
        Ok(accepted) => accepted,
        Err(_) => false,
    }
}

} // verus!
