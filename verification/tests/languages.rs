use common_voice_sentence_collector::checker::check;
use common_voice_sentence_collector::languages::{english, french};

#[test]
fn checker_test_check_generic() {
    assert_eq!(english::check(""), false);
    assert_eq!(english::check("\"Some test"), true);
    assert_eq!(english::check("\"😊"), false);
    assert_eq!(english::check("This ends with:"), false);
}

#[test]
fn checker_test_check_whitespace() {
    assert_eq!(english::check(" AA "), false);
    assert_eq!(english::check("This has broken  space"), false);
    assert_eq!(english::check("This as well !"), false);
    assert_eq!(english::check("And this ;"), false);
}

#[test]
fn checker_test_check_length() {
    assert_eq!(english::check("This is gonna be way way way way way way way way way way too long"), false);
    assert_eq!(english::check("This is absolutely valid."), true);
}

#[test]
fn checker_test_check_numbers() {
    assert_eq!(english::check("This contains 1 number"), false);
}

#[test]
fn checker_test_check_symbols() {
    assert_eq!(english::check("foo\n\nfoo"), false);
    assert_eq!(english::check("foo<>"), false);
    assert_eq!(english::check("foo*@"), false);
}

#[test]
fn checker_test_check_abbreviations() {
    assert_eq!(english::check("A.B"), false);
    assert_eq!(english::check(r#""S.T.A.L.K.E.R."#), false);
}

#[test]
fn test_check() {
    assert_eq!(english::check("A.B"), false);
    assert_eq!(english::check(r#""S.T.A.L.K.E.R."#), false);
    assert_eq!(english::check("foo\n\nfoo"), false);
}

#[test]
fn french_test_check_generic() {
    assert_eq!(french::check(""), false);
    assert_eq!(french::check("\"ðŸ˜Š"), false);
    assert_eq!(french::check("This ends with:"), false);
    assert_eq!(french::check("This does not end with a period"), false);
    assert_eq!(french::check("?This does not start with a alphanumeric letter"), false);
    assert_eq!(french::check("this starts with lowercase"), false);
}

#[test]
fn french_test_check_whitespace() {
    assert_eq!(french::check(" AA "), false);
    assert_eq!(french::check("This has broken  space"), false);
    assert_eq!(french::check("This as well !"), false);
    assert_eq!(french::check("And this ;"), false);
}

#[test]
fn french_test_check_length() {
    assert_eq!(french::check("This is gonna be way way way way way way way way way way too long"), false);
    assert_eq!(french::check("Short"), false);
    assert_eq!(french::check("This is absolutely validÃ©."), true);
    assert_eq!(french::check("No!!!"), false);
}

#[test]
fn french_test_check_numbers() {
    assert_eq!(french::check("This contains 1 number"), false);
}

#[test]
fn french_test_check_symbols() {
    assert_eq!(french::check("foo\n\nfoo"), false);
    assert_eq!(french::check("foo<>"), false);
    assert_eq!(french::check("fooÂ«"), false);
    assert_eq!(french::check("foo*@"), false);
}

#[test]
fn french_test_check_abbreviations() {
    assert_eq!(french::check("A.B"), false);
    assert_eq!(french::check("A."), false);
    assert_eq!(french::check("Some sentence that ends with A."), false);
    assert_eq!(french::check(r#""S.T.A.L.K.E.R."#), false);
}

#[test]
fn test_english() {
    let rules = english::rules();

    assert!(check(&rules, &String::from("This is absolutely valid.")));
    assert!(check(&rules, &String::from("this is lowercase")));
    assert!(!check(&rules, ""));
    assert!(!check(&rules, &String::from("\"üòä")));
    assert!(!check(&rules, &String::from("This ends with:")));
    assert!(!check(&rules, &String::from(" AA ")));
    assert!(!check(&rules, &String::from("This has broken  space")));
    assert!(!check(&rules, &String::from("This as well !")));
    assert!(!check(&rules, &String::from("And this ;")));
    assert!(!check(&rules, &String::from("This is gonna be way way way way way way way way way way too long")));
    assert!(!check(&rules, &String::from("This contains 1 number")));
    assert!(!check(&rules, &String::from("foo\n\nfoo")));
    assert!(!check(&rules, &String::from("foo\\foo")));
    assert!(!check(&rules, &String::from("foo<>")));
    assert!(!check(&rules, &String::from("foo*@")));
    assert!(!check(&rules, &String::from("A.B")));
    assert!(!check(&rules, &String::from("S.T.A.L.K.E.R.")));
}

#[test]
fn test_french() {
    let rules = french::rules();

    assert!(check(&rules, &String::from("This is absolutely valid√©.")));
    assert!(!check(&rules, ""));
    assert!(!check(&rules, &String::from("\"üòä")));
    assert!(!check(&rules, &String::from("This ends with:")));
    assert!(!check(&rules, &String::from("This does not end with a period")));
    assert!(!check(&rules, &String::from("?This does not start with a letter")));
    assert!(!check(&rules, &String::from("this starts with lowercase")));
    assert!(!check(&rules, &String::from(" AA ")));
    assert!(!check(&rules, &String::from("This has broken  space")));
    assert!(!check(&rules, &String::from("This as well !")));
    assert!(!check(&rules, &String::from("And this ;")));
    assert!(!check(&rules, &String::from("This is gonna be way way way way way way way way way way too long")));
    assert!(!check(&rules, &String::from("Short")));
    assert!(!check(&rules, &String::from("No!!!")));
    assert!(!check(&rules, &String::from("This contains 1 number")));
    assert!(!check(&rules, &String::from("foo\n\nfoo")));
    assert!(!check(&rules, &String::from("foo<>")));
    assert!(!check(&rules, &String::from("foo¬´")));
    assert!(!check(&rules, &String::from("foo*@")));
    assert!(!check(&rules, &String::from("A.B")));
    assert!(!check(&rules, &String::from("S.T.A.L.K.E.R.")));
    assert!(!check(&rules, &String::from("Some sentence that ends with A.")));
}

#[test]
fn test_english_profile() {
    let rules = english::rules();

    assert!(rules.validate().is_ok());
    assert!(check(&rules, "This is absolutely valid."));
    assert!(!check(&rules, "S.T.A.L.K.E.R."));
    assert!(!check(&rules, "This contains 1 number"));
    assert!(check(&rules, "this is lowercase"));
}

#[test]
fn test_french_profile() {
    let rules = french::rules();

    assert!(rules.validate().is_ok());
    assert!(!check(&rules, "this starts with lowercase"));
    assert!(check(&rules, "This is absolutely valid\u{e9}."));
}

#[test]
fn test_language_check_is_check_with_the_profile() {
    let english_rules = english::rules();
    let french_rules = french::rules();
    for sentence in [
        "This is absolutely valid.",
        "this is lowercase",
        "Ends with colon:",
        "A.B",
        "Une phrase avec \u{ab} guillemets \u{bb}.",
        "Short",
        "",
    ] {
        assert_eq!(english::check(sentence), check(&english_rules, sentence));
        assert_eq!(french::check(sentence), check(&french_rules, sentence));
    }
}
