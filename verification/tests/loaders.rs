use common_voice_sentence_collector::lines::{split_lines, split_pieces};
use common_voice_sentence_collector::loaders::{
    read_article, read_filtered_titles, FileLoader, Loader, Wikipedia,
};
use common_voice_sentence_collector::order::text_set;

fn chars(text: &str) -> Vec<char> {
    text.chars().collect()
}

fn lines(text: &str) -> Vec<String> {
    split_lines(&chars(text)).into_iter().map(|line| line.into_iter().collect()).collect()
}

fn pieces(text: &str) -> Vec<String> {
    split_pieces(&chars(text)).into_iter().map(|line| line.into_iter().collect()).collect()
}

#[test]
fn test_file_loader_config() {
    let loader = FileLoader::new(String::from("en"), String::from("/data"));
    let config = loader.get_config();

    assert_eq!(config.language, "en");
    assert_eq!(config.directory, "/data");
    assert_eq!(config.max_sentences_per_text, usize::MAX);
    assert_eq!(config.file_prefix, "");
}

#[test]
fn test_wikipedia_config() {
    let loader = Wikipedia::new(String::from("de"), String::from("/dump"));
    let config = loader.get_config();

    assert_eq!(config.language, "de");
    assert_eq!(config.directory, "/dump");
    assert_eq!(config.max_sentences_per_text, 3);
    assert_eq!(config.file_prefix, "wiki_");
}

#[test]
fn test_file_loader_takes_each_line_as_a_text() {
    let loader = FileLoader::new(String::from("en"), String::from(""));
    let none = text_set(&vec![]);

    assert_eq!(
        loader.load("First sentence.\nSecond one.\r\n\nLast", &none),
        vec!["First sentence.", "Second one.", "", "Last"]
    );
    assert_eq!(loader.load("", &none), Vec::<String>::new());
}

#[test]
fn test_lines_are_the_lines_of_the_standard_library() {
    for text in ["", "a", "a\n", "a\nb", "a\r\nb\r\n", "\n", "\n\n", "a\rb", "a\r", "a\r\n\r\n", "\r\n", "x\n\ry"] {
        let expected: Vec<String> = text.lines().map(String::from).collect();
        assert_eq!(lines(text), expected);
    }
}

#[test]
fn test_pieces_are_what_stands_between_line_feeds() {
    for text in ["", "a", "a\n", "a\nb", "a\r\nb\r\n", "\n", "\n\n"] {
        let expected: Vec<String> = text.split('\n').map(String::from).collect();
        assert_eq!(pieces(text), expected);
    }
}

#[test]
fn test_wikipedia_takes_the_text_of_each_article() {
    let loader = Wikipedia::new(String::from("en"), String::from(""));
    let none = text_set(&vec![]);
    let content = "{\"title\": \"One\", \"text\": \"First text.\"}\n{\"title\": \"Two\", \"text\": \"Second \\\"text\\\".\"}\n";

    assert_eq!(loader.load(content, &none), vec!["First text.", "Second \"text\"."]);
}

#[test]
fn test_wikipedia_gives_an_empty_text_for_a_line_it_cannot_read() {
    let loader = Wikipedia::new(String::from("en"), String::from(""));
    let none = text_set(&vec![]);
    let content = "not json\n{\"title\": \"No text\"}\n{\"title\": \"Number\", \"text\": 7}\n[1, 2]\n{\"text\": \"No title.\"}";

    assert_eq!(loader.load(content, &none), vec!["", "", "", "", "No title."]);
}

#[test]
fn test_wikipedia_keeps_the_articles_with_a_filtered_title() {
    let loader = Wikipedia::new(String::from("en"), String::from(""));
    let titles = text_set(&vec![String::from("Two"), String::from("Four")]);
    let content = "{\"title\": \"One\", \"text\": \"First.\"}\n{\"title\": \"Two\", \"text\": \"Second.\"}\n{\"text\": \"Third.\"}\nbroken\n{\"title\": \"Four\", \"text\": \"Fourth.\"}";

    assert_eq!(loader.load(content, &titles), vec!["", "Second.", "", "", "Fourth."]);
}

#[test]
fn test_read_filtered_titles() {
    let titles = read_filtered_titles("Albert Einstein\nSoul Eater\r\n\nAlbert Einstein\n");

    assert_eq!(titles.len(), 3);
    assert!(titles.contains("Albert Einstein"));
    assert!(titles.contains("Soul Eater"));
    assert!(titles.contains(""));
    assert!(!titles.contains("Soul"));
    assert!(read_filtered_titles("").is_empty());
}

#[test]
fn test_wikipedia_compares_the_title_itself() {
    let loader = Wikipedia::new(String::from("en"), String::from(""));
    let titles = text_set(&vec![
        String::from("A \"quoted\" title"),
        String::from("Back\\slash"),
        String::from("null"),
        String::from("7"),
    ]);
    let content = "{\"title\": \"A \\\"quoted\\\" title\", \"text\": \"First.\"}\n{\"title\": \"Back\\\\slash\", \"text\": \"Second.\"}\n{\"text\": \"No title.\"}\n{\"title\": null, \"text\": \"Null title.\"}\n{\"title\": 7, \"text\": \"Number title.\"}\n{\"title\": \"null\", \"text\": \"Named null.\"}";

    assert_eq!(
        loader.load(content, &titles),
        vec!["First.", "Second.", "", "", "", "Named null."]
    );
}

#[test]
fn test_read_article() {
    let none = text_set(&vec![]);
    let titles = text_set(&vec![String::from("One")]);

    assert_eq!(read_article("{\"title\": \"One\", \"text\": \"First.\"}", &none), "First.");
    assert_eq!(read_article("{\"title\": \"One\", \"text\": \"First.\"}", &titles), "First.");
    assert_eq!(read_article("{\"title\": \"Two\", \"text\": \"Second.\"}", &titles), "");
    assert_eq!(read_article("{\"title\": \"Two\", \"text\": \"Second.\"}", &none), "Second.");
    assert_eq!(read_article("{\"title\": \"One\"}", &titles), "");
    assert_eq!(read_article("{\"title\": \"One\", \"text\": [\"list\"]}", &titles), "");
    assert_eq!(read_article("{\"title\": \"One\", \"text\": \"cut", &none), "");
    assert_eq!(read_article("\"text\"", &none), "");
    assert_eq!(read_article("", &none), "");
}
