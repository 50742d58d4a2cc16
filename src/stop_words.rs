use vstd::prelude::*;

use crate::language::Language;

verus! {

/// The stop words that stop-words lists for a two-letter ISO 639-1 code.
pub uninterp spec fn stop_words_of(code: Seq<char>) -> Seq<Seq<char>>;

/// Relies on stop-words' `get`: the list of stop words for a two-letter
/// ISO 639-1 code, read from the word lists the crate embeds. It panics on a
/// code it has no list for; it has one for each `Language`'s code.
#[verifier::external_body]
fn stop_word_list(code: &str) -> (r: Vec<String>)
    requires
        exists|l: Language| code@ == l.spec_iso639_1(),
    ensures
        r@.len() == stop_words_of(code@).len(),
        forall|i: int| 0 <= i < r@.len() ==> (#[trigger] r@[i])@ == stop_words_of(code@)[i],
{
    stop_words::get(code)
}

/// The stop words of a language.
pub fn get(lang: Language) -> (r: Vec<String>)
    ensures
        r@.len() == stop_words_of(lang.spec_iso639_1()).len(),
        forall|i: int| 0 <= i < r@.len() ==> (#[trigger] r@[i])@ == stop_words_of(lang.spec_iso639_1())[i],
{
    let code = lang.iso639_1();
    assert(code@ == lang.spec_iso639_1());
    stop_word_list(code)
}

} // verus!
