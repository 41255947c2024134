use common_voice_sentence_collector::replacer::{remove_brackets, remove_spans, replace_strings};
use common_voice_sentence_collector::rules::Rules;
use common_voice_sentence_collector::search::{contains, count_occurrences, replace_all};

fn chars(text: &str) -> Vec<char> {
    text.chars().collect()
}

fn string(text: Vec<char>) -> String {
    text.into_iter().collect()
}

#[test]
fn test_nothing() {
    let rules: Rules = Rules {
        ..Default::default()
    };

    assert_eq!(replace_strings(&rules, &String::from("Me&You")), "Me&You");
}

#[test]
fn test_nothing_if_replacement_missing() {
    let rules: Rules = Rules {
        replacements: vec![
            vec![String::from("&")]
        ],
        ..Default::default()
    };

    assert_eq!(replace_strings(&rules, &String::from("Me&You")), "Me&You");
}

#[test]
fn test_nothing_if_empty_rules() {
    let rules: Rules = Rules {
        replacements: vec![
            vec![]
        ],
        ..Default::default()
    };

    assert_eq!(replace_strings(&rules, &String::from("Me&You")), "Me&You");
}

#[test]
fn test_one_abbreviation() {
    let rules: Rules = Rules {
        replacements: vec![
            vec![String::from("&"), String::from("and")]
        ],
        ..Default::default()
    };

    assert_eq!(replace_strings(&rules, &String::from("Me&You")), "MeandYou");
}

#[test]
fn test_one_abbreviation_whitespace() {
    let rules: Rules = Rules {
        replacements: vec![
            vec![String::from(" & "), String::from(" and ")]
        ],
        ..Default::default()
    };

    assert_eq!(replace_strings(&rules, &String::from("Me & You")), "Me and You");
}

#[test]
fn test_one_abbreviation_mixed() {
    let rules: Rules = Rules {
        replacements: vec![
            vec![String::from("&"), String::from(" and ")]
        ],
        ..Default::default()
    };

    assert_eq!(replace_strings(&rules, &String::from("Me&You")), "Me and You");
}

#[test]
fn test_multiple_occurances() {
    let rules: Rules = Rules {
        replacements: vec![
            vec![String::from("&"), String::from("and")]
        ],
        ..Default::default()
    };

    assert_eq!(replace_strings(&rules, &String::from("Me & You & Them")), "Me and You and Them");
}

#[test]
fn test_multiple_abbreviations() {
    let rules: Rules = Rules {
        replacements: vec![
            vec![String::from("&"), String::from(" and ")],
            vec![String::from("etc."), String::from("et cetera")],
        ],
        ..Default::default()
    };

    assert_eq!(replace_strings(&rules, &String::from("Me&You")), "Me and You");
    assert_eq!(replace_strings(&rules, &String::from("Me&You etc.")), "Me and You et cetera");
}

#[test]
fn test_replace_empty() {
    let rules: Rules = Rules {
        replacements: vec![
            vec![String::from("&"), String::from("")],
        ],
        ..Default::default()
    };

    assert_eq!(replace_strings(&rules, &String::from("Me&You")), "MeYou");
}

#[test]
fn test_remove_brackets_list_empty() {
    let rules: Rules = Rules {
        ..Default::default()
    };

    assert_eq!(replace_strings(&rules, &String::from("One: (content) should stay.")), "One: (content) should stay.");
}

#[test]
fn test_remove_brackets_list() {
    let rules = Rules {
        remove_brackets_list: vec![
            ('(', ')'),
            ('[', ']'),
        ],
        ..Default::default()
    };

    assert_eq!(replace_strings(&rules, &String::from("Two: (content) should be removed.")), "Two: should be removed.");
    assert_eq!(replace_strings(&rules, &String::from("Three: [content (and nested one)] should be removed.")), "Three: should be removed.");
    assert_eq!(replace_strings(&rules, &String::from("Four: (content (and nested one)) should be removed.")), "Four: should be removed.");
    assert_eq!(replace_strings(&rules, &String::from("Five: (one) (two) and [three] 'and' should stay.")), "Five: and 'and' should stay.");
}

#[test]
fn test_input_is_trimmed() {
    let rules: Rules = Rules {
        ..Default::default()
    };

    assert_eq!(replace_strings(&rules, "  Me&You \n"), "Me&You");
    assert_eq!(replace_strings(&rules, " \t "), "");
    assert_eq!(replace_strings(&rules, ""), "");
}

#[test]
fn test_replacements_apply_in_declared_order() {
    let rules: Rules = Rules {
        replacements: vec![
            vec![String::from("a"), String::from("b")],
            vec![String::from("b"), String::from("c")],
        ],
        ..Default::default()
    };

    assert_eq!(replace_strings(&rules, "aabb"), "cccc");
}

#[test]
fn test_replace_empty_search() {
    let rules: Rules = Rules {
        replacements: vec![vec![String::from(""), String::from("-")]],
        ..Default::default()
    };

    assert_eq!(replace_strings(&rules, "abc"), "-a-b-c-");
    assert_eq!(replace_strings(&rules, ""), "-");
}

#[test]
fn test_replace_takes_matches_from_the_left_without_overlap() {
    assert_eq!(string(replace_all(&chars("aaaa"), &chars("aa"), &chars("b"))), "bb");
    assert_eq!(string(replace_all(&chars("aaa"), &chars("aa"), &chars("b"))), "ba");
    assert_eq!(string(replace_all(&chars("abab"), &chars("ab"), &chars("abab"))), "abababab");
    assert_eq!(string(replace_all(&chars("abc"), &chars("abcd"), &chars("x"))), "abc");
}

#[test]
fn test_replace_twice_can_differ_from_replace_once() {
    let rules: Rules = Rules {
        replacements: vec![vec![String::from("ab"), String::from("a")]],
        ..Default::default()
    };

    let once = replace_strings(&rules, "abb");
    assert_eq!(once, "ab");
    assert_eq!(replace_strings(&rules, &once), "a");
}

#[test]
fn test_replace_twice_is_replace_once_where_nothing_is_left_to_do() {
    let rules: Rules = Rules {
        remove_brackets_list: vec![('(', ')')],
        replacements: vec![
            vec![String::from("&"), String::from("and")],
            vec![String::from("etc."), String::from("et cetera")],
        ],
        ..Default::default()
    };

    let once = replace_strings(&rules, "  Me & You (both) etc. ");
    assert_eq!(once, "Me and You et cetera");
    assert_eq!(replace_strings(&rules, &once), once);
}

#[test]
fn test_search_and_count() {
    assert!(contains(&chars("This has  broken"), &chars("  ")));
    assert!(!contains(&chars("This has none"), &chars("  ")));
    assert!(contains(&chars("abc"), &chars("")));
    assert!(contains(&chars(""), &chars("")));
    assert!(!contains(&chars("ab"), &chars("abc")));
    assert_eq!(count_occurrences(&chars("aaaa"), &chars("aa")), 2);
    assert_eq!(count_occurrences(&chars("aaa"), &chars("aa")), 1);
    assert_eq!(count_occurrences(&chars("a(b)(c"), &chars("(")), 2);
    assert_eq!(count_occurrences(&chars(""), &chars("(")), 0);
}

#[test]
fn test_remove_spans_takes_innermost_spans_only() {
    assert_eq!(string(remove_spans(&chars("a (b (c) d) e"), '(', ')')), "a (b   d) e");
    assert_eq!(string(remove_spans(&chars("a (b) (c) d"), '(', ')')), "a     d");
    assert_eq!(string(remove_spans(&chars("()"), '(', ')')), " ");
    assert_eq!(string(remove_spans(&chars("(a"), '(', ')')), "(a");
    assert_eq!(string(remove_spans(&chars("a) (b"), '(', ')')), "a) (b");
}

#[test]
fn test_brackets_do_not_match_across_lines() {
    assert_eq!(string(remove_spans(&chars("a (b\nc) d"), '(', ')')), "a (b\nc) d");
    assert_eq!(string(remove_brackets(chars("a (b\nc) d"), '(', ')')), "a (b\nc) d");
}

#[test]
fn test_brackets_of_one_symbol() {
    assert_eq!(string(remove_brackets(chars("say |aside| more"), '|', '|')), "say more");
    assert_eq!(string(remove_brackets(chars("one | two"), '|', '|')), "one | two");
}

#[test]
fn test_bracket_removal_ends_within_as_many_passes_as_characters() {
    let nested = "((((((((((x))))))))))";
    assert_eq!(string(remove_brackets(chars(nested), '(', ')')), " ");

    let mut text = chars(nested);
    let mut passes = 0;
    loop {
        let spans = remove_spans(&text, '(', ')');
        let next = replace_all(&spans, &chars("  "), &chars(" "));
        if next == text {
            break;
        }
        text = next;
        passes += 1;
    }
    assert!(passes <= nested.chars().count());
    assert_eq!(string(text), " ");
}

#[test]
fn test_bracket_removal_collapses_double_spaces() {
    let rules = Rules {
        remove_brackets_list: vec![('(', ')')],
        ..Default::default()
    };

    assert_eq!(replace_strings(&rules, "Six:    spaces"), "Six: spaces");
}

#[test]
fn test_double_spaces_stay_without_brackets_to_remove() {
    let rules = Rules {
        ..Default::default()
    };

    assert_eq!(replace_strings(&rules, "Six:    spaces"), "Six:    spaces");
}

#[test]
fn test_literal_search_is_the_search_of_the_standard_library() {
    let texts = ["", "a", "aa", "aaa", "abab", "a b  c   d", "Me&You & Them", "\u{e9}t\u{e9}", "((x))"];
    let patterns = ["a", "aa", "ab", " ", "  ", "&", "\u{e9}", "(", "))", "abc"];
    for text in texts {
        for pattern in patterns {
            assert_eq!(contains(&chars(text), &chars(pattern)), text.contains(pattern));
            assert_eq!(
                count_occurrences(&chars(text), &chars(pattern)),
                text.matches(pattern).count()
            );
            for to in ["", "x", "aa", pattern] {
                assert_eq!(
                    string(replace_all(&chars(text), &chars(pattern), &chars(to))),
                    text.replace(pattern, to)
                );
            }
        }
        assert_eq!(string(replace_all(&chars(text), &chars(""), &chars("-"))), text.replace("", "-"));
        assert!(contains(&chars(text), &chars("")));
    }
}

#[test]
fn test_bracket_removal_is_the_removal_by_pattern() {
    let pattern = regex::Regex::new(r"\([^\(\)\n]*\)").unwrap();
    for text in [
        "Two: (content) should be removed.",
        "Four: (content (and nested one)) should be removed.",
        "Five: (one) (two) and [three] 'and' should stay.",
        "no brackets   at all",
        "((((deep))))",
        "(open only",
        "close only)",
        ")(",
        "a (b\nc) d (e) f",
        "",
    ] {
        let mut expected = text.to_string();
        let mut previous = String::from("\u{0}");
        while previous != expected {
            previous = expected.clone();
            expected = pattern.replace_all(&previous, " ").to_string().replace("  ", " ");
        }
        assert_eq!(string(remove_brackets(chars(text), '(', ')')), expected);
    }
}

#[test]
fn test_replacing_symbols_twice_is_replacing_them_once() {
    let rules: Rules = Rules {
        replacements: vec![
            vec![String::from("&"), String::from("and")],
            vec![String::from("%"), String::from(" percent")],
            vec![String::from("+")],
        ],
        ..Default::default()
    };

    for text in ["Me & You", "5% & 6%", "&&", "a+b & c", "", "plain text"] {
        let once = replace_strings(&rules, text);
        assert_eq!(replace_strings(&rules, &once), once);
    }
    assert_eq!(replace_strings(&rules, "5% & 6%"), "5 percent and 6 percent");
}
