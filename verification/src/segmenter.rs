//! The choice of a segmenter for a language. The segmenters themselves stand
//! outside the library; what they cut from a text comes in as a list of
//! candidate sentences.

use vstd::pervasive::unreached;
use vstd::prelude::*;
use crate::text::same_str;

verus! {

/// The training sets of the statistical sentence tokenizer.
#[derive(Clone, Copy, Debug, PartialEq, Eq, Structural)]
pub enum TrainingSet {
    Czech,
    Danish,
    Dutch,
    English,
    Estonian,
    Finnish,
    French,
    German,
    Greek,
    Italian,
    Norwegian,
    Polish,
    Portuguese,
    Slovene,
    Spanish,
    Swedish,
    Turkish,
}

/// The tokenizers that run in Python.
#[derive(Clone, Copy, Debug, PartialEq, Eq, Structural)]
pub enum PythonSegmenter {
    /// NLTK's sentence tokenizer with its English model.
    NltkEnglish,
    /// NLTK's sentence tokenizer with its German model loaded.
    NltkGerman,
    /// NLTK's Punkt tokenizer, untrained, with `?`, `!` and the danda as the
    /// ends of a sentence.
    NltkBengali,
    /// Zemberek's sentence extractor for Turkish.
    ZemberekTurkish,
}

/// The training set of a language; the English one for a language that has
/// none of its own.
pub open spec fn training_set_for(language: Seq<char>) -> TrainingSet {
    if language == "cs"@ {
        TrainingSet::Czech
    } else if language == "de"@ {
        TrainingSet::German
    } else if language == "dk"@ {
        TrainingSet::Danish
    } else if language == "el"@ {
        TrainingSet::Greek
    } else if language == "en"@ {
        TrainingSet::English
    } else if language == "es"@ {
        TrainingSet::Spanish
    } else if language == "et"@ {
        TrainingSet::Estonian
    } else if language == "fi"@ {
        TrainingSet::Finnish
    } else if language == "fr"@ {
        TrainingSet::French
    } else if language == "it"@ {
        TrainingSet::Italian
    } else if language == "nl"@ {
        TrainingSet::Dutch
    } else if language == "no"@ {
        TrainingSet::Norwegian
    } else if language == "pl"@ {
        TrainingSet::Polish
    } else if language == "pt"@ {
        TrainingSet::Portuguese
    } else if language == "se"@ {
        TrainingSet::Swedish
    } else if language == "sl"@ {
        TrainingSet::Slovene
    } else if language == "tr"@ {
        TrainingSet::Turkish
    } else {
        TrainingSet::English
    }
}

/// The Python tokenizer of a language, where it has one.
pub open spec fn python_segmenter_for(language: Seq<char>) -> Option<PythonSegmenter> {
    if language == "en"@ {
        Some(PythonSegmenter::NltkEnglish)
    } else if language == "de"@ {
        Some(PythonSegmenter::NltkGerman)
    } else if language == "bn"@ {
        Some(PythonSegmenter::NltkBengali)
    } else if language == "tr"@ {
        Some(PythonSegmenter::ZemberekTurkish)
    } else {
        None
    }
}

/// The training set that the statistical tokenizer uses for `language`.
pub fn get_training_data(language: &str) -> (set: TrainingSet)
    ensures
        set == training_set_for(language@),
{
    if same_str(language, "cs") {
        TrainingSet::Czech
    } else if same_str(language, "de") {
        TrainingSet::German
    } else if same_str(language, "dk") {
        TrainingSet::Danish
    } else if same_str(language, "el") {
        TrainingSet::Greek
    } else if same_str(language, "en") {
        TrainingSet::English
    } else if same_str(language, "es") {
        TrainingSet::Spanish
    } else if same_str(language, "et") {
        TrainingSet::Estonian
    } else if same_str(language, "fi") {
        TrainingSet::Finnish
    } else if same_str(language, "fr") {
        TrainingSet::French
    } else if same_str(language, "it") {
        TrainingSet::Italian
    } else if same_str(language, "nl") {
        TrainingSet::Dutch
    } else if same_str(language, "no") {
        TrainingSet::Norwegian
    } else if same_str(language, "pl") {
        TrainingSet::Polish
    } else if same_str(language, "pt") {
        TrainingSet::Portuguese
    } else if same_str(language, "se") {
        TrainingSet::Swedish
    } else if same_str(language, "sl") {
        TrainingSet::Slovene
    } else if same_str(language, "tr") {
        TrainingSet::Turkish
    } else {
        TrainingSet::English
    }
}

/// The Python tokenizer of `language`, where it has one.
pub fn python_segmenter(language: &str) -> (segmenter: Option<PythonSegmenter>)
    ensures
        segmenter == python_segmenter_for(language@),
{
    if same_str(language, "en") {
        Some(PythonSegmenter::NltkEnglish)
    } else if same_str(language, "de") {
        Some(PythonSegmenter::NltkGerman)
    } else if same_str(language, "bn") {
        Some(PythonSegmenter::NltkBengali)
    } else if same_str(language, "tr") {
        Some(PythonSegmenter::ZemberekTurkish)
    } else {
        None
    }
}

/// Cuts `text` into sentences with the Python tokenizer of `language`, which
/// has to have one. `run` is the way into Python: it is handed the tokenizer
/// and the text and returns the sentences.
pub fn split_sentences_with_python<F: Fn(PythonSegmenter, &str) -> Vec<String>>(
    language: &str,
    text: &str,
    run: F,
) -> (sentences: Vec<String>)
    requires
        python_segmenter_for(language@) is Some,
        call_requires(run, (python_segmenter_for(language@).unwrap(), text)),
    ensures
        call_ensures(run, (python_segmenter_for(language@).unwrap(), text), sentences),
{
    match python_segmenter(language) {
        Some(segmenter) => run(segmenter, text),
        None => unreached(),
    }
}

} // verus!
