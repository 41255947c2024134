use common_voice_sentence_collector::extractor::{
    is_invalid, strip_parens, CharTables, Error, SentenceExtractorBuilder,
};
use std::collections::{HashMap, HashSet};

fn chars(text: &str) -> Vec<char> {
    text.chars().collect()
}

fn string(text: Vec<char>) -> String {
    text.into_iter().collect()
}

#[test]
fn test_single_line_is_cut_at_terminal_marks() {
    let builder = SentenceExtractorBuilder::new();
    let mut iter = builder.build("唐王國。鹰号称铜。高等");

    assert_eq!(iter.next().unwrap(), "唐王國");
    assert_eq!(iter.next().unwrap(), "鹰号称铜");
    assert!(iter.next().is_none());
    assert!(iter.next().is_none());
}

#[test]
fn test_shortest_length_decides_which_pieces_are_sentences() {
    let builder = SentenceExtractorBuilder::new().shortest_length(2);
    let mut iter = builder.build("唐王國。鹰号称铜。高等");

    assert_eq!(iter.next().unwrap(), "唐王國");
    assert_eq!(iter.next().unwrap(), "鹰号称铜");
    assert_eq!(iter.next().unwrap(), "高等");
    assert!(iter.next().is_none());

    let builder = SentenceExtractorBuilder::new().shortest_length(4);
    let mut iter = builder.build("唐王國。鹰号称铜。高等");

    assert_eq!(iter.next().unwrap(), "鹰号称铜");
    assert!(iter.next().is_none());
}

#[test]
fn test_question_and_exclamation_marks_stay() {
    let builder = SentenceExtractorBuilder::new();
    let mut iter = builder.build("你好嗎？我很好！多謝你。");

    assert_eq!(iter.next().unwrap(), "你好嗎？");
    assert_eq!(iter.next().unwrap(), "我很好！");
    assert_eq!(iter.next().unwrap(), "多謝你");
    assert!(iter.next().is_none());
}

#[test]
fn test_empty_text_has_no_sentence() {
    let builder = SentenceExtractorBuilder::new();

    assert!(builder.build("").next().is_none());
    assert_eq!(builder.build("").sentences().len(), 0);
    assert!(builder.build("。。？").next().is_none());
}

#[test]
fn test_title_line_is_dropped() {
    let builder = SentenceExtractorBuilder::new();
    let mut iter = builder.build("愛因斯坦\n佢係物理學家。\n佢好出名。");

    assert_eq!(iter.next().unwrap(), "佢係物理學家");
    assert_eq!(iter.next().unwrap(), "佢好出名");
    assert!(iter.next().is_none());
}

#[test]
fn test_lines_after_the_title_are_joined() {
    let builder = SentenceExtractorBuilder::new();
    let mut iter = builder.build("標題\n春眠不\n覺曉。");

    assert_eq!(iter.next().unwrap(), "春眠不覺曉");
    assert!(iter.next().is_none());
}

#[test]
fn test_disambiguation_page_has_no_sentence() {
    let builder = SentenceExtractorBuilder::new();

    assert!(builder.build("蘋果 (消歧義)\n蘋果可以係生果。").next().is_none());
    assert_eq!(
        builder.build("消歧義。蘋果可以係生果。").sentences(),
        vec!["消歧義", "蘋果可以係生果"]
    );
}

#[test]
fn test_ascii_drops_the_sentence() {
    let builder = SentenceExtractorBuilder::new();
    let mut iter = builder.build("佢生於1879年。佢係物理學家。ABC係字母。");

    assert_eq!(iter.next().unwrap(), "佢係物理學家");
    assert!(iter.next().is_none());
}

#[test]
fn test_sentence_has_to_start_with_a_letter() {
    let builder = SentenceExtractorBuilder::new();
    let mut iter = builder.build("「佢好出名」。佢好出名。");

    assert_eq!(iter.next().unwrap(), "佢好出名");
    assert!(iter.next().is_none());
}

#[test]
fn test_brackets_are_taken_out() {
    let builder = SentenceExtractorBuilder::new();
    let mut iter = builder.build("愛因斯坦（物理學家）好出名。佢（一）同（二）都啱。佢）唔（啱。");

    assert_eq!(iter.next().unwrap(), "愛因斯坦好出名");
    assert_eq!(iter.next().unwrap(), "佢都啱");
    assert_eq!(iter.next().unwrap(), "佢）唔（啱");
    assert!(iter.next().is_none());
}

#[test]
fn test_strip_parens() {
    assert_eq!(string(strip_parens(chars("前（中）後"))), "前後");
    assert_eq!(string(strip_parens(chars("前（中）間（中）後"))), "前後");
    assert_eq!(string(strip_parens(chars("前（）後"))), "前後");
    assert_eq!(string(strip_parens(chars("前）中（後"))), "前）中（後");
    assert_eq!(string(strip_parens(chars("前（後"))), "前（後");
    assert_eq!(string(strip_parens(chars("前）（中）後"))), "前）後");
    assert_eq!(string(strip_parens(chars(""))), "");
}

#[test]
fn test_is_invalid() {
    assert!(is_invalid(&chars("")));
    assert!(is_invalid(&chars("。好")));
    assert!(is_invalid(&chars("好a")));
    assert!(is_invalid(&chars("好 好")));
    assert!(!is_invalid(&chars("好")));
    assert!(!is_invalid(&chars("好。")));
}

#[test]
fn test_ignore_symbols_are_taken_out() {
    let ignore_symbols = vec!['「', '」'];
    let builder = SentenceExtractorBuilder::new().ignore_symbols(&ignore_symbols);
    let mut iter = builder.build("標題\n俗稱「死武專」。「工匠」同武器係一對嘅。");

    assert_eq!(iter.next().unwrap(), "俗稱死武專");
    assert_eq!(iter.next().unwrap(), "工匠同武器係一對嘅");
    assert!(iter.next().is_none());
}

#[test]
fn test_black_list_symbols_drop_the_sentence() {
    let black_list_symbols = vec!['《', '》'];
    let builder = SentenceExtractorBuilder::new().black_list_symbols(&black_list_symbols);
    let mut iter = builder.build("在「只」是《朱》顏。改『問』君【能】有幾多愁。");

    assert_eq!(iter.next().unwrap(), "改『問』君【能】有幾多愁");
    assert!(iter.next().is_none());

    let builder = SentenceExtractorBuilder::new();
    let mut iter = builder.build("在「只」是《朱》顏。改『問』君【能】有幾多愁。");

    assert_eq!(iter.next().unwrap(), "在「只」是《朱》顏");
    assert_eq!(iter.next().unwrap(), "改『問』君【能】有幾多愁");
    assert!(iter.next().is_none());
}

#[test]
fn test_auxiliary_symbols_cut_once_the_longest_length_is_reached() {
    let auxiliary_symbols = vec!['，'];
    let builder = SentenceExtractorBuilder::new()
        .longest_length(5)
        .auxiliary_symbols(&auxiliary_symbols);
    let mut iter = builder.build("一二，三四五六，七八九十。甲乙丙，丁戊。");

    assert_eq!(iter.next().unwrap(), "一二，三四五六");
    assert_eq!(iter.next().unwrap(), "七八九十");
    assert_eq!(iter.next().unwrap(), "甲乙丙，丁戊");
    assert!(iter.next().is_none());
}

#[test]
fn test_auxiliary_symbols_cut_at_once_with_longest_length_zero() {
    let auxiliary_symbols = vec!['，', '、'];
    let builder = SentenceExtractorBuilder::new()
        .shortest_length(1)
        .longest_length(0)
        .auxiliary_symbols(&auxiliary_symbols);

    assert_eq!(
        builder.build("春，多、國玉？砌！應").sentences(),
        vec!["春", "多", "國玉？", "砌！", "應"]
    );
}

#[test]
fn test_auxiliary_symbols_are_not_used_without_being_set() {
    let builder = SentenceExtractorBuilder::new().longest_length(2);

    assert_eq!(builder.build("一二三，四五六。").sentences(), vec!["一二三，四五六"]);
}

#[test]
fn test_symbol_map_brings_variants_to_one_form() {
    let tables = CharTables {
        symbol_map: HashMap::from([('?' as u32, '？'), ('｡' as u32, '。')]),
        character_map: HashMap::new(),
        standard_characters: HashSet::new(),
    };
    let builder = SentenceExtractorBuilder::new().tables(&tables);

    assert_eq!(builder.build("你好嗎?我很好｡").sentences(), vec!["你好嗎？", "我很好"]);
    assert_eq!(
        SentenceExtractorBuilder::new().build("你好嗎?我很好｡").sentences(),
        Vec::<String>::new()
    );
}

#[test]
fn test_symbols_are_ignored_after_they_are_mapped() {
    let tables = CharTables {
        symbol_map: HashMap::from([('﹁' as u32, '「')]),
        character_map: HashMap::new(),
        standard_characters: HashSet::new(),
    };
    let ignore_symbols = vec!['「'];
    let builder = SentenceExtractorBuilder::new().tables(&tables).ignore_symbols(&ignore_symbols);

    assert_eq!(builder.build("佢﹁好「出名。").sentences(), vec!["佢好出名"]);
}

#[test]
fn test_translation() {
    let tables = CharTables {
        symbol_map: HashMap::new(),
        character_map: HashMap::from([('國' as u32, '国'), ('愛' as u32, '爱')]),
        standard_characters: "我爱中国他美".chars().map(|c| c as u32).collect(),
    };
    let builder = SentenceExtractorBuilder::new().translate(true).tables(&tables);
    let mut iter = builder.build("我愛中國。他愛美國，我愛他。我愛英國。");

    assert_eq!(iter.next().unwrap(), "我爱中国");
    assert_eq!(iter.next().unwrap(), "他爱美国，我爱他");
    assert!(iter.next().is_none());

    let builder = SentenceExtractorBuilder::new().tables(&tables);
    let mut iter = builder.build("我愛中國。");

    assert_eq!(iter.next().unwrap(), "我愛中國");
}

#[test]
fn test_translation_without_tables_keeps_punctuation_only() {
    let builder = SentenceExtractorBuilder::new().translate(true);

    assert!(builder.build("我愛中國。").next().is_none());
}

#[test]
fn test_sentences_are_what_next_hands_out() {
    let builder = SentenceExtractorBuilder::new();
    let text = "標題\n月何時了？往事知多少。小樓昨夜。又東風！故國不堪";
    let mut one_by_one = vec![];
    let mut iter = builder.build(text);
    while let Some(sentence) = iter.next() {
        one_by_one.push(sentence);
    }

    assert_eq!(builder.build(text).sentences(), one_by_one);
    assert_eq!(one_by_one, vec!["月何時了？", "往事知多少", "小樓昨夜", "又東風！", "故國不堪"]);
}

#[test]
fn test_options_conflict() {
    let symbols = vec!['、', '，'];
    let auxiliary = vec!['；', '，'];
    let builder = SentenceExtractorBuilder::new()
        .ignore_symbols(&symbols)
        .auxiliary_symbols(&auxiliary);

    assert_eq!(builder.conflict(), Some('，'));
    match builder.try_build("一二三。") {
        Err(Error::OptionsConflic(symbol)) => assert_eq!(symbol, "，"),
        Ok(_) => panic!("the conflict was not found"),
    }
    match builder.try_build("一二三。") {
        Err(error) => assert_eq!(error.message(), "Options conflict: ，"),
        Ok(_) => panic!("the conflict was not found"),
    }
}

#[test]
fn test_options_conflict_with_terminal_mark() {
    let symbols = vec!['「', '。', '，'];
    let auxiliary = vec!['，'];
    let builder = SentenceExtractorBuilder::new()
        .ignore_symbols(&symbols)
        .auxiliary_symbols(&auxiliary);

    assert_eq!(builder.conflict(), Some('。'));
    assert!(builder.try_build("一二三。").is_err());
}

#[test]
fn test_options_without_conflict() {
    let symbols = vec!['「', '」'];
    let auxiliary = vec!['，'];
    let builder = SentenceExtractorBuilder::new()
        .ignore_symbols(&symbols)
        .auxiliary_symbols(&auxiliary);

    assert_eq!(builder.conflict(), None);
    assert_eq!(SentenceExtractorBuilder::new().conflict(), None);
    let mut iter = builder.try_build("「一二三」。").ok().unwrap();
    assert_eq!(iter.next().unwrap(), "一二三");
}

#[test]
fn test_strip_parens_is_the_removal_by_pattern() {
    let pattern = regex::Regex::new("（.*）").unwrap();
    for text in [
        "前（中）後",
        "前（中）間（中）後",
        "（）",
        "）（",
        "前（後",
        "前）後",
        "前）（中）後（",
        "（（（",
        "）））",
        "",
        "無括號",
    ] {
        assert_eq!(string(strip_parens(chars(text))), pattern.replace(text, ""));
    }
}
