use common_voice_sentence_collector::config::Config;

#[test]
fn test_default_config() {
    let config : Config = Config {
        ..Default::default()
    };

    assert_eq!(config.language, "en");
    assert_eq!(config.directory, "");
    assert_eq!(config.max_sentences_per_text, 3);
    assert_eq!(config.file_prefix, "wiki_");
}
