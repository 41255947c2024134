//! Selection of short, clean sentences from large text corpora.
//!
//! A text is normalized by the replacer, cut into candidate sentences by a
//! segmenter outside this library, and the selector takes from the
//! candidates those that the checker accepts under the rule profile of the
//! language. Chinese text has an extractor of its own.

pub mod checker;
pub mod config;
pub mod driver;
pub mod extractor;
pub mod languages;
pub mod lines;
pub mod loaders;
pub mod order;
pub mod pattern;
pub mod replacer;
pub mod rules;
pub mod search;
pub mod segmenter;
pub mod selector;
pub mod text;
pub mod trim;
pub mod words;
