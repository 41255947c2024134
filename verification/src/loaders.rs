//! The loaders: what a source contributes to the configuration, and how the
//! content of one of its files is cut into texts.

use vstd::prelude::*;
use vstd::hash_set::StringHashSet;
use crate::config::Config;
use crate::lines::{lines_of, split_lines};
use crate::order::{lemma_to_set_push, texts};
use crate::text::{chars_of, string_of};
use crate::words::texts_of;

verus! {

/// What `serde_json` reads as the member `name` of the JSON value that
/// `line` holds: nothing where the line is no JSON value; else the member's
/// text where it is a string, and no text where the value has no such member
/// or the member is no string.
pub uninterp spec fn json_member(line: Seq<char>, name: Seq<char>) -> Option<Option<Seq<char>>>;

/// The characters of a string that may be missing.
pub open spec fn text_of(member: Option<String>) -> Option<Seq<char>> {
    match member {
        Some(text) => Some(text@),
        None => None,
    }
}

/// Parses `line` with `serde_json::from_str` into a `serde_json::Value` and
/// reads each of the named members with `Value::as_str`; a missing member
/// reads as JSON null, which is no string. What comes back for a member
/// depends on the line and the name alone and is named `json_member`.
#[verifier::external_body]
pub(crate) fn json_members(line: &str, names: &Vec<String>) -> (found: Option<Vec<Option<String>>>)
    ensures
        match found {
            Some(members) => members@.len() == names@.len() && forall|i: int|
                0 <= i < names@.len() ==> json_member(line@, #[trigger] names@[i]@) == Some(
                    text_of(members@[i]),
                ),
            None => forall|name: Seq<char>| json_member(line@, name) is None,
        },
{
    match serde_json::from_str::<serde_json::Value>(line) {
        Ok(value) => Some(
            names.iter().map(|name| value[name.as_str()].as_str().map(String::from)).collect(),
        ),
        Err(_) => None,
    }
}

/// The text that a line of an article file contributes: the member `text` of
/// its JSON value, where the line is one and the member a string, and where
/// no titles are asked for or its member `title` is a string among them;
/// else nothing.
pub open spec fn article_text(line: Seq<char>, titles: Set<Seq<char>>) -> Seq<char> {
    match json_member(line, "text"@) {
        Some(Some(text)) => if titles.is_empty() || (json_member(line, "title"@) matches Some(
            Some(title),
        ) && titles.contains(title)) {
            text
        } else {
            Seq::empty()
        },
        _ => Seq::empty(),
    }
}

/// The text of each line of an article file.
pub open spec fn article_texts(lines: Seq<Seq<char>>, titles: Set<Seq<char>>) -> Seq<Seq<char>> {
    Seq::new(lines.len(), |i: int| article_text(lines[i], titles))
}

/// The text of one article: its member `text`, unless titles are asked for
/// and its title is not among them.
pub fn read_article(line: &str, filtered_titles: &StringHashSet) -> (text: String)
    ensures
        text@ == article_text(line@, filtered_titles@),
{
    let mut names: Vec<String> = Vec::new();
    names.push("text".to_string());
    names.push("title".to_string());
    let mut members = match json_members(line, &names) {
        Some(members) => members,
        None => {
            return String::new();
        },
    };
    assert(names@[0]@ == "text"@ && names@[1]@ == "title"@);
    let title = members.pop().unwrap();
    let text = members.pop().unwrap();
    match text {
        Some(text) => {
            if filtered_titles.is_empty() {
                return text;
            }
            match title {
                Some(title) => {
                    if filtered_titles.contains(title.as_str()) {
                        text
                    } else {
                        String::new()
                    }
                },
                None => String::new(),
            }
        },
        None => String::new(),
    }
}

/// A source of texts.
pub trait Loader {
    /// What the source contributes to the configuration.
    fn get_config(&self) -> &Config;

    /// The texts that the content of one file holds. Where `filtered_titles`
    /// is not empty, a source that knows titles keeps the texts with one of
    /// these titles only.
    fn load(&self, content: &str, filtered_titles: &StringHashSet) -> Vec<String>;
}

/// Reads files that hold one sentence per line.
pub struct FileLoader {
    pub config: Config,
}

/// Reads the article files that WikiExtractor writes: one JSON value per
/// line, with the members `title` and `text`.
pub struct Wikipedia {
    pub config: Config,
}

impl FileLoader {
    /// A loader that takes every accepted sentence of every file in
    /// `directory`.
    pub fn new(language: String, directory: String) -> (loader: Self)
        ensures
            loader.config.language == language,
            loader.config.directory == directory,
            loader.config.max_sentences_per_text == usize::MAX,
            loader.config.file_prefix@ == Seq::<char>::empty(),
    {
        let config = Config {
            language,
            directory,
            max_sentences_per_text: usize::MAX,
            file_prefix: String::new(),
        };
        Self { config }
    }
}

impl Wikipedia {
    /// A loader that takes at most three sentences of each article in the
    /// files of `directory` whose name starts with `wiki_`.
    pub fn new(language: String, directory: String) -> (loader: Self)
        ensures
            loader.config.language == language,
            loader.config.directory == directory,
            loader.config.max_sentences_per_text == 3,
            loader.config.file_prefix@ == "wiki_"@,
    {
        let config = Config {
            language,
            directory,
            max_sentences_per_text: 3,
            file_prefix: "wiki_".to_string(),
        };
        Self { config }
    }
}

impl Loader for FileLoader {
    fn get_config(&self) -> (config: &Config)
        ensures
            *config == self.config,
    {
        &self.config
    }

    /// Each line of the content is one text.
    fn load(&self, content: &str, filtered_titles: &StringHashSet) -> (found: Vec<String>)
        ensures
            texts(found@) == lines_of(content@),
    {
        let lines = split_lines(&chars_of(content));
        let mut found: Vec<String> = Vec::new();
        let mut i: usize = 0;
        while i < lines.len()
            invariant
                i <= lines.len(),
                texts(found@) == texts_of(lines@).take(i as int),
            decreases lines.len() - i,
        {
            let ghost before = texts(found@);
            let line = string_of(&lines[i]);
            found.push(line);
            assert(texts(found@) == before.push(line@));
            assert(texts_of(lines@).take(i + 1) == before.push(lines@[i as int]@));
            i += 1;
        }
        assert(texts_of(lines@).take(i as int) == texts_of(lines@));
        found
    }
}

impl Loader for Wikipedia {
    fn get_config(&self) -> (config: &Config)
        ensures
            *config == self.config,
    {
        &self.config
    }

    /// Each line of the content is one article and gives one text.
    fn load(&self, content: &str, filtered_titles: &StringHashSet) -> (found: Vec<String>)
        ensures
            texts(found@) == article_texts(lines_of(content@), filtered_titles@),
    {
        let lines = split_lines(&chars_of(content));
        let mut found: Vec<String> = Vec::new();
        let mut i: usize = 0;
        while i < lines.len()
            invariant
                i <= lines.len(),
                texts(found@) == article_texts(texts_of(lines@), filtered_titles@).take(i as int),
            decreases lines.len() - i,
        {
            let line = string_of(&lines[i]);
            assert(texts_of(lines@)[i as int] == line@);
            let text = read_article(line.as_str(), filtered_titles);
            let ghost before = texts(found@);
            found.push(text);
            assert(texts(found@) == before.push(text@));
            assert(article_texts(texts_of(lines@), filtered_titles@).take(i + 1) == before.push(
                article_text(line@, filtered_titles@),
            ));
            i += 1;
        }
        assert(article_texts(texts_of(lines@), filtered_titles@).take(i as int) == article_texts(
            texts_of(lines@),
            filtered_titles@,
        ));
        found
    }
}

/// The titles that a list of titles names: one per line.
pub fn read_filtered_titles(content: &str) -> (titles: StringHashSet)
    ensures
        titles@ == lines_of(content@).to_set(),
{
    let lines = split_lines(&chars_of(content));
    let mut titles = StringHashSet::new();
    let mut i: usize = 0;
    assert(texts_of(lines@).take(0).to_set() =~= Set::<Seq<char>>::empty());
    while i < lines.len()
        invariant
            i <= lines.len(),
            titles@ == texts_of(lines@).take(i as int).to_set(),
        decreases lines.len() - i,
    {
        let title = string_of(&lines[i]);
        titles.insert(title);
        proof {
            let before = texts_of(lines@).take(i as int);
            assert(texts_of(lines@).take(i + 1) == before.push(lines@[i as int]@));
            lemma_to_set_push(before, lines@[i as int]@);
        }
        i += 1;
    }
    assert(texts_of(lines@).take(i as int) == texts_of(lines@));
    titles
}

} // verus!
