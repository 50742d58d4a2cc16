use vstd::prelude::*;
use vstd::string::StringSliceAdditionalSpecFns;

use crate::category::category_of;
use crate::language::Language;
use crate::segment::{placed_words, sentences_of, word_runs};
use crate::token::{Position, Token};
use crate::tokenize::{categories_hold, joined, token_places, token_positions, tokenizes, TokenizeError};

verus! {

/// Whether two texts are equal under Unicode case folding, as unicase
/// compares them.
pub uninterp spec fn unicase_eq(a: Seq<char>, b: Seq<char>) -> bool;

/// Relies on unicase's `UniCase::new(a) == UniCase::new(b)`: whether the two
/// texts are equal ignoring case, which depends on the texts alone.
#[verifier::external_body]
fn equal_ignoring_case(a: &str, b: &str) -> (r: bool)
    ensures
        r == unicase_eq(a@, b@),
{
    unicase::UniCase::new(a) == unicase::UniCase::new(b)
}

/// A mark a tagger puts on a token.
#[derive(Clone, Copy, Debug, PartialEq, Eq, Structural)]
pub enum Tag {
    StopWord,
}

/// `StopWord` for a text that equals one of the words ignoring case.
pub open spec fn stop_tag(words: Seq<Seq<char>>, t: Seq<char>) -> Option<Tag> {
    if exists|i: int| 0 <= i < words.len() && unicase_eq(#[trigger] words[i], t) {
        Some(Tag::StopWord)
    } else {
        None
    }
}

/// Tags the tokens of a text in one language.
pub struct Tagger {
    pub lang: Language,
    stop_words: Vec<String>,
}

impl Tagger {
    /// The stop words the tagger looks for.
    pub closed spec fn words(&self) -> Seq<Seq<char>> {
        self.stop_words@.map_values(|s: String| s@)
    }

    /// The language the tagger was made for.
    pub closed spec fn language(&self) -> Language {
        self.lang
    }

    /// A tagger for the stop words of `lang`.
    pub fn new(lang: Language) -> (r: Self)
        ensures
            r.language() == lang,
            r.words() == crate::stop_words::stop_words_of(lang.spec_iso639_1()),
    {
        let stop_words = crate::stop_words::get(lang);
        let r = Tagger { lang, stop_words };
        assert(r.words() =~= crate::stop_words::stop_words_of(lang.spec_iso639_1()));
        r
    }

    /// The tag of one token: `StopWord` where its text is a stop word,
    /// ignoring case.
    pub fn tag_token(&self, token: Token) -> (r: Option<Tag>)
        ensures
            r == stop_tag(self.words(), token.spec_text()@),
    {
        let s = token.as_str();
        let mut i: usize = 0;
        while i < self.stop_words.len()
            invariant
                0 <= i <= self.stop_words@.len(),
                s == token.spec_text(),
                forall|j: int| 0 <= j < i ==> !unicase_eq(#[trigger] self.words()[j], s@),
            decreases self.stop_words.len() - i,
        {
            if equal_ignoring_case(self.stop_words[i].as_str(), s) {
                assert(self.words()[i as int] == self.stop_words@[i as int]@);
                return Some(Tag::StopWord);
            }
            i = i + 1;
        }
        None
    }

    /// The tokens of `text`, as `token_positions` gives them, each with its
    /// tag. `tokenizes` pins the tokens down exactly, as it does for
    /// `token_positions`.
    pub fn tag<'a>(&self, text: &'a str) -> (r: Result<Vec<(Position, Token<'a>, Option<Tag>)>, TokenizeError>)
        ensures
            r is Err <==> exists|i: int| 0 <= i < placed_words(sentences_of(text@)).len()
                && category_of((#[trigger] placed_words(sentences_of(text@))[i]).1) is None,
            r matches Ok(v) ==> exists|t: Seq<(Position, Token<'a>)>| {
                &&& tokenizes(text, t)
                &&& joined(t) == text.spec_bytes()
                &&& categories_hold(t)
                &&& word_runs(token_places(t))
                &&& t.len() == v@.len()
                &&& forall|i: int| 0 <= i < t.len() ==> (#[trigger] v@[i]).0 == t[i].0 && v@[i].1 == t[i].1
                    && v@[i].2 == stop_tag(self.words(), t[i].1.spec_text()@)
            },
    {
        let tokens = token_positions(text)?;
        let mut out: Vec<(Position, Token<'a>, Option<Tag>)> = Vec::new();
        let mut i: usize = 0;
        while i < tokens.len()
            invariant
                0 <= i <= tokens@.len(),
                out@.len() == i,
                forall|j: int| 0 <= j < i ==> (#[trigger] out@[j]).0 == tokens@[j].0 && out@[j].1 == tokens@[j].1
                    && out@[j].2 == stop_tag(self.words(), tokens@[j].1.spec_text()@),
            decreases tokens.len() - i,
        {
            let (position, token) = tokens[i];
            let tag = self.tag_token(token);
            out.push((position, token, tag));
            i = i + 1;
        }
        Ok(out)
    }
}

} // verus!
