//! Run configuration contributed by a loader.

use vstd::prelude::*;

verus! {

/// What a loader tells the pipeline about its source.
pub struct Config {
    /// Language code that selects the rule profile and the segmenter's training set.
    pub language: String,
    /// Directory that holds the input files.
    pub directory: String,
    /// Per-source cap; `usize::MAX` lifts the cap and turns random sampling off.
    pub max_sentences_per_text: usize,
    /// Only files whose name starts with this prefix are read.
    pub file_prefix: String,
}

impl Default for Config {
    fn default() -> (config: Config)
        ensures
            config.language@ == "en"@,
            config.directory@ == ""@,
            config.max_sentences_per_text == 3,
            config.file_prefix@ == "wiki_"@,
    {
        Config {
            language: "en".to_string(),
            directory: "".to_string(),
            max_sentences_per_text: 3,
            file_prefix: "wiki_".to_string(),
        }
    }
}

} // verus!
