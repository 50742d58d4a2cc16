//! A language-agnostic natural-language tagger.
//!
//! Text is split on Unicode sentence and word boundaries, and each word is
//! classified by the general categories of its characters. Neighbouring words
//! of one category, or separators and whitespace together, are merged into
//! larger tokens that borrow from the text and keep their place within their
//! run. A detector guesses the language of a text, and a tagger marks the stop
//! words of that language.

mod category;
mod coalesce;
mod float;
mod language;
mod language_detection;
mod segment;
mod stop_words;
mod tagger;
mod token;
mod tokenize;

pub use category::{category_of, classify, Category};
pub use coalesce::{coalesce, lemma_coalesce_twice, repair, Piece, RunError};
pub use float::{is_float_literal, parses_as_float};
pub use language::Language;
pub use language_detection::LanguageDetector;
pub use segment::word_positions;
pub use stop_words::get;
pub use tagger::{Tag, Tagger};
pub use token::{Place, Position, Token};
pub use tokenize::{token_positions, tokens_from_words, TokenizeError};
