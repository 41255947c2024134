use common_voice_sentence_collector::checker::check;
use common_voice_sentence_collector::rules::{first_uncompiled, Rules, RulesError, Segmenter};

#[test]
fn test_default_rules() {
    let rules : Rules = Rules {
        ..Default::default()
    };

    assert_eq!(rules.min_trimmed_length, 3);
    assert_eq!(rules.min_word_count, 1);
    assert_eq!(rules.max_word_count, 14);
    assert_eq!(rules.min_characters, 0);
    assert_eq!(rules.may_end_with_colon, false);
    assert_eq!(rules.quote_start_with_letter, true);
    assert_eq!(rules.needs_punctuation_end, false);
    assert_eq!(rules.needs_uppercase_start, false);
    assert_eq!(rules.needs_letter_start, true);
    assert_eq!(rules.allowed_symbols_regex, String::from(""));
    assert_eq!(rules.disallowed_symbols, vec![]);
    assert!(rules.disallowed_words.is_empty());
    assert_eq!(rules.broken_whitespace, Vec::<String>::new());
    assert_eq!(rules.abbreviation_patterns, Vec::<String>::new());
    assert_eq!(rules.other_patterns, Vec::<String>::new());
    assert_eq!(rules.replacements, Vec::<Vec<String>>::new());
    assert_eq!(rules.even_symbols, Vec::<String>::new());
    assert_eq!(rules.matching_symbols, Vec::<Vec<String>>::new());
}

#[test]
fn test_default_rules_further_fields() {
    let rules = Rules::default();

    assert_eq!(rules.max_characters, usize::MAX);
    assert_eq!(rules.stem_separator_regex, "");
    assert_eq!(rules.remove_brackets_list, vec![]);
    assert_eq!(rules.segmenter, Segmenter::Default);
    assert_eq!(rules.max_sentences_per_text, 3);
    assert_eq!(rules.validate(), Ok(()));
}

#[test]
fn test_validate_bounds() {
    let rules = Rules {
        min_word_count: 3,
        max_word_count: 2,
        min_characters: 9,
        max_characters: 1,
        ..Default::default()
    };
    assert_eq!(rules.validate(), Err(RulesError::WordCountBounds));

    let rules = Rules {
        min_word_count: 2,
        max_word_count: 2,
        min_characters: 9,
        max_characters: 1,
        ..Default::default()
    };
    assert_eq!(rules.validate(), Err(RulesError::CharacterBounds));

    let rules = Rules {
        min_word_count: 2,
        max_word_count: 2,
        min_characters: 9,
        max_characters: 9,
        ..Default::default()
    };
    assert_eq!(rules.validate(), Ok(()));
}

#[test]
fn test_validate_patterns() {
    let rules = Rules {
        allowed_symbols_regex: String::from("[a-z"),
        stem_separator_regex: String::from("*"),
        ..Default::default()
    };
    assert_eq!(rules.validate(), Err(RulesError::AllowedSymbolsPattern));

    let rules = Rules {
        stem_separator_regex: String::from("*"),
        other_patterns: vec![String::from("(")],
        ..Default::default()
    };
    assert_eq!(rules.validate(), Err(RulesError::StemSeparatorPattern));

    let rules = Rules {
        abbreviation_patterns: vec![String::from("a"), String::from("b"), String::from("c)")],
        other_patterns: vec![String::from("(")],
        ..Default::default()
    };
    assert_eq!(rules.validate(), Err(RulesError::AbbreviationPattern(2)));

    let rules = Rules {
        other_patterns: vec![String::from("\\w{5,50}"), String::from("x{2,1}"), String::from("(")],
        matching_symbols: vec![vec![]],
        ..Default::default()
    };
    assert_eq!(rules.validate(), Err(RulesError::OtherPattern(1)));
}

#[test]
fn test_validate_matching_symbols() {
    let rules = Rules {
        matching_symbols: vec![
            vec![String::from("("), String::from(")")],
            vec![String::from("["), String::from("]"), String::from("!")],
        ],
        ..Default::default()
    };
    assert_eq!(rules.validate(), Err(RulesError::MatchingSymbols(1)));

    let rules = Rules {
        matching_symbols: vec![vec![]],
        ..Default::default()
    };
    assert_eq!(rules.validate(), Err(RulesError::MatchingSymbols(0)));
}

#[test]
fn test_first_uncompiled() {
    assert_eq!(first_uncompiled(&vec![]), None);
    assert_eq!(first_uncompiled(&vec![String::from("[A-Z]{2}"), String::from("\\d+")]), None);
    assert_eq!(first_uncompiled(&vec![String::from("a"), String::from("(a"), String::from("[")]), Some(1));
    assert_eq!(first_uncompiled(&vec![String::from("\\w{1000}")]), Some(0));
}

#[test]
fn test_add_disallowed_words() {
    let mut rules = Rules {
        min_word_count: 2,
        ..Default::default()
    };
    rules.add_disallowed_words("Blerg\n  foo \r\nBAR");

    assert_eq!(rules.disallowed_words.len(), 3);
    assert!(rules.disallowed_words.contains("blerg"));
    assert!(rules.disallowed_words.contains("foo"));
    assert!(rules.disallowed_words.contains("bar"));
    assert!(!rules.disallowed_words.contains("Blerg"));
    assert_eq!(rules.min_word_count, 2);
    assert!(!check(&rules, "This has blerg"));
    assert!(!check(&rules, "This has Foo."));
    assert!(check(&rules, "This has nothing"));

    rules.add_disallowed_words("nothing\nfoo");
    assert_eq!(rules.disallowed_words.len(), 4);
    assert!(!check(&rules, "This has nothing"));
}

#[test]
fn test_add_disallowed_words_takes_an_empty_line_as_the_empty_word() {
    let mut rules = Rules::default();
    rules.add_disallowed_words("blerg\n");

    assert_eq!(rules.disallowed_words.len(), 2);
    assert!(rules.disallowed_words.contains(""));
    assert!(!check(&rules, "A dash -- here"));
    assert!(check(&rules, "No dash here"));
}
