use vstd::prelude::*;

use crate::language::{all_languages, Language};

verus! {

/// What whatlang finds in a text when it may choose among the languages of
/// these ISO 639-3 codes: a code, and whether the finding is reliable.
pub uninterp spec fn whatlang_finding(codes: Seq<Seq<char>>, text: Seq<char>) -> Option<(Seq<char>, bool)>;

/// The characters of each code.
pub open spec fn code_views(codes: Seq<&str>) -> Seq<Seq<char>> {
    codes.map_values(|c: &str| c@)
}

/// A finding with its code as characters.
pub open spec fn finding_of(found: Option<(&str, bool)>) -> Option<(Seq<char>, bool)> {
    match found {
        Some((code, reliable)) => Some((code@, reliable)),
        None => None,
    }
}

/// The ISO 639-3 codes of the languages.
pub open spec fn language_codes(langs: Seq<Language>) -> Seq<Seq<char>> {
    langs.map_values(|l: Language| l.spec_code())
}

/// Relies on whatlang's `Detector::with_allowlist(..).detect(text)`: the
/// ISO 639-3 code of the language it found and whether it deems the finding
/// reliable. Each given code must be one whatlang knows, which holds of every
/// `Language`'s code.
#[verifier::external_body]
fn whatlang_detect(codes: &Vec<&str>, text: &str) -> (r: Option<(&'static str, bool)>)
    requires
        forall|i: int| 0 <= i < codes@.len() ==> Language::spec_from_code((#[trigger] codes@[i])@) is Some,
    ensures
        finding_of(r) == whatlang_finding(code_views(codes@), text@),
{
    let allow = codes.iter().map(|c| whatlang::Lang::from_code(*c).unwrap()).collect();
    let info = whatlang::Detector::with_allowlist(allow).detect(text)?;
    Some((info.lang().code(), info.is_reliable()))
}

/// Relies on lingua's `LanguageDetectorBuilder::from_languages(..).build()`
/// and `detect_language_of(text)`: the ISO 639-3 code of the language it
/// found, which is one of the languages it was given. lingua panics on an
/// empty list of languages; each given code must be one lingua knows, which
/// holds of every `Language`'s lingua code.
#[verifier::external_body]
fn lingua_detect(codes: &Vec<&str>, text: &str) -> (r: Option<String>)
    requires
        codes@.len() > 0,
        forall|i: int| 0 <= i < codes@.len() ==> Language::spec_from_lingua_code((#[trigger] codes@[i])@) is Some,
    ensures
        r matches Some(c) ==> exists|i: int| 0 <= i < codes@.len() && c@ == (#[trigger] codes@[i])@,
{
    let langs: Vec<lingua::Language> = codes
        .iter()
        .map(|c| lingua::Language::from_iso_code_639_3(&c.parse().unwrap()))
        .collect();
    let detector = lingua::LanguageDetectorBuilder::from_languages(&langs).build();
    detector.detect_language_of(text).map(|l| l.iso_code_639_3().to_string())
}

/// Languages ordered as they are declared, without repeats.
pub open spec fn sorted_languages(s: Seq<Language>) -> bool {
    forall|i: int, j: int| 0 <= i < j < s.len() ==> (#[trigger] s[i]).spec_ordinal() < (#[trigger] s[j]).spec_ordinal()
}

/// What a whatlang finding gives: its language, if whatlang deems it reliable.
pub open spec fn whatlang_choice(found: Option<(Seq<char>, bool)>) -> Option<Language> {
    match found {
        Some((code, true)) => Language::spec_from_code(code),
        _ => None,
    }
}

/// What a lingua finding gives.
pub open spec fn lingua_choice(found: Option<String>) -> Option<Language> {
    match found {
        Some(code) => Language::spec_from_lingua_code(code@),
        None => None,
    }
}

/// Language detector over a set of allowed languages.
#[derive(Debug)]
pub struct LanguageDetector {
    langs: Vec<Language>,
}

impl View for LanguageDetector {
    type V = Seq<Language>;

    /// The allowed languages, in declaration order.
    closed spec fn view(&self) -> Seq<Language> {
        self.langs@
    }
}

impl Default for LanguageDetector {
    /// A detector that allows every language.
    fn default() -> (r: Self)
        ensures
            r.wf(),
            r@ == all_languages(),
    {
        LanguageDetector::all()
    }
}

impl LanguageDetector {
    /// The allowed languages are kept in declaration order, without repeats.
    pub closed spec fn wf(&self) -> bool {
        sorted_languages(self.langs@)
    }

    /// A detector that allows no language.
    pub fn empty() -> (r: Self)
        ensures
            r.wf(),
            r@ == Seq::<Language>::empty(),
    {
        LanguageDetector { langs: Vec::new() }
    }

    /// A detector that allows every language.
    pub fn all() -> (r: Self)
        ensures
            r.wf(),
            r@ == all_languages(),
    {
        LanguageDetector { langs: Language::all() }
    }

    /// Allows one more language.
    pub fn allow(&mut self, lang: Language) -> (r: &mut Self)
        requires
            old(self).wf(),
        ensures
            *final(self) == *final(r),
            r.wf(),
            forall|l: Language| r@.contains(l) <==> (old(self)@.contains(l) || l == lang),
    {
        let mut i: usize = 0;
        while i < self.langs.len() && self.langs[i].ordinal() < lang.ordinal()
            invariant
                sorted_languages(self.langs@),
                0 <= i <= self.langs@.len(),
                forall|j: int| 0 <= j < i ==> (#[trigger] self.langs@[j]).spec_ordinal() < lang.spec_ordinal(),
            decreases self.langs.len() - i,
        {
            i = i + 1;
        }
        if i < self.langs.len() && self.langs[i] == lang {
            assert(self.langs@.contains(lang));
            return self;
        }
        let ghost before = self.langs@;
        self.langs.insert(i, lang);
        proof {
            let after = self.langs@;
            assert(after =~= before.insert(i as int, lang));
            assert forall|a: int, b: int| 0 <= a < b < after.len() implies (#[trigger] after[a]).spec_ordinal() < (#[trigger] after[b]).spec_ordinal() by {
                if a < i && b < i {
                    assert(after[a] == before[a] && after[b] == before[b]);
                } else if a < i && b == i {
                } else if a < i {
                    assert(after[a] == before[a] && after[b] == before[b - 1]);
                } else if a == i {
                    assert(after[b] == before[b - 1]);
                    assert(before[i as int].spec_ordinal() >= lang.spec_ordinal());
                    assert(before[i as int] != lang);
                    if b - 1 > i {
                        assert(before[i as int].spec_ordinal() < before[b - 1].spec_ordinal());
                    }
                } else {
                    assert(after[a] == before[a - 1] && after[b] == before[b - 1]);
                }
            }
            assert forall|l: Language| after.contains(l) <==> (before.contains(l) || l == lang) by {
                if after.contains(l) {
                    let k = choose|k: int| 0 <= k < after.len() && after[k] == l;
                    if k < i {
                        assert(before[k] == l);
                    } else if k > i {
                        assert(before[k - 1] == l);
                    }
                }
                if before.contains(l) {
                    let k = choose|k: int| 0 <= k < before.len() && before[k] == l;
                    if k < i {
                        assert(after[k] == l);
                    } else {
                        assert(after[k + 1] == l);
                    }
                }
                if l == lang {
                    assert(after[i as int] == l);
                }
            }
        }
        self
    }

    /// Stops allowing a language.
    pub fn deny(&mut self, lang: Language) -> (r: &mut Self)
        requires
            old(self).wf(),
        ensures
            *final(self) == *final(r),
            r.wf(),
            forall|l: Language| r@.contains(l) <==> (old(self)@.contains(l) && l != lang),
    {
        let mut i: usize = 0;
        while i < self.langs.len() && self.langs[i] != lang
            invariant
                sorted_languages(self.langs@),
                0 <= i <= self.langs@.len(),
                forall|j: int| 0 <= j < i ==> (#[trigger] self.langs@[j]) != lang,
            decreases self.langs.len() - i,
        {
            i = i + 1;
        }
        if i == self.langs.len() {
            return self;
        }
        let ghost before = self.langs@;
        self.langs.remove(i);
        proof {
            let after = self.langs@;
            assert(after =~= before.remove(i as int));
            assert forall|a: int, b: int| 0 <= a < b < after.len() implies (#[trigger] after[a]).spec_ordinal() < (#[trigger] after[b]).spec_ordinal() by {
                if b < i {
                    assert(after[a] == before[a] && after[b] == before[b]);
                } else if a < i {
                    assert(after[a] == before[a] && after[b] == before[b + 1]);
                } else {
                    assert(after[a] == before[a + 1] && after[b] == before[b + 1]);
                }
            }
            assert forall|l: Language| after.contains(l) <==> (before.contains(l) && l != lang) by {
                if after.contains(l) {
                    let k = choose|k: int| 0 <= k < after.len() && after[k] == l;
                    if k < i {
                        assert(before[k] == l);
                        assert(before[k].spec_ordinal() < before[i as int].spec_ordinal());
                    } else {
                        assert(before[k + 1] == l);
                        assert(before[i as int].spec_ordinal() < before[k + 1].spec_ordinal());
                    }
                }
                if before.contains(l) && l != lang {
                    let k = choose|k: int| 0 <= k < before.len() && before[k] == l;
                    if k < i {
                        assert(after[k] == l);
                    } else {
                        assert(k != i);
                        assert(after[k - 1] == l);
                    }
                }
            }
        }
        self
    }

    /// The allowed languages, in declaration order.
    pub fn languages(&self) -> (r: Vec<Language>)
        requires
            self.wf(),
        ensures
            r@ == self@,
            sorted_languages(r@),
    {
        let mut r: Vec<Language> = Vec::new();
        let mut i: usize = 0;
        while i < self.langs.len()
            invariant
                0 <= i <= self.langs@.len(),
                r@ == self.langs@.take(i as int),
            decreases self.langs.len() - i,
        {
            r.push(self.langs[i]);
            assert(r@ =~= self.langs@.take(i + 1));
            i = i + 1;
        }
        assert(self.langs@.take(self.langs@.len() as int) =~= self.langs@);
        r
    }

    /// The language of a whatlang finding: the finding's language where
    /// whatlang deems it reliable, `None` otherwise.
    pub fn from_whatlang(found: Option<(&str, bool)>) -> (r: Option<Language>)
        ensures
            r == whatlang_choice(finding_of(found)),
    {
        match found {
            Some((code, true)) => Language::from_code(code),
            _ => None,
        }
    }

    /// The language of a lingua finding.
    pub fn from_lingua(found: Option<String>) -> (r: Option<Language>)
        ensures
            r == lingua_choice(found),
    {
        match found {
            Some(code) => Language::from_lingua_code(code.as_str()),
            None => None,
        }
    }

    /// Detects the language of a text among the allowed ones: whatlang's
    /// finding where it is reliable, lingua's otherwise, which is always one
    /// of the allowed languages. `None` when neither finds a language this
    /// library knows.
    pub fn detect(&self, text: &str) -> (r: Option<Language>)
        requires
            self.wf(),
            self@.len() >= 2,
        ensures
            whatlang_choice(whatlang_finding(language_codes(self@), text@)) is Some ==> r == whatlang_choice(
                whatlang_finding(language_codes(self@), text@),
            ),
            whatlang_choice(whatlang_finding(language_codes(self@), text@)) is None && r is Some
                ==> self@.contains(r->0),
    {
        let langs = self.languages();
        let mut codes: Vec<&str> = Vec::new();
        let mut lingua_codes: Vec<&str> = Vec::new();
        let mut i: usize = 0;
        while i < langs.len()
            invariant
                0 <= i <= langs@.len(),
                codes@.len() == i,
                lingua_codes@.len() == i,
                forall|j: int| 0 <= j < i ==> (#[trigger] codes@[j])@ == langs@[j].spec_code(),
                forall|j: int| 0 <= j < i ==> (#[trigger] lingua_codes@[j])@ == langs@[j].spec_lingua_code(),
            decreases langs.len() - i,
        {
            codes.push(langs[i].code());
            lingua_codes.push(langs[i].lingua_code());
            i = i + 1;
        }
        assert forall|j: int| 0 <= j < codes@.len() implies Language::spec_from_code((#[trigger] codes@[j])@) is Some by {
            assert(codes@[j]@ == langs@[j].spec_code());
            langs@[j].lemma_codes();
        }
        assert forall|j: int| 0 <= j < lingua_codes@.len() implies Language::spec_from_lingua_code((#[trigger] lingua_codes@[j])@) is Some by {
            assert(lingua_codes@[j]@ == langs@[j].spec_lingua_code());
            langs@[j].lemma_codes();
        }
        assert(code_views(codes@) =~= language_codes(self@));
        match LanguageDetector::from_whatlang(whatlang_detect(&codes, text)) {
            Some(lang) => Some(lang),
            None => {
                if lingua_codes.len() == 0 {
                    return None;
                }
                let found = lingua_detect(&lingua_codes, text);
                proof {
                    if found is Some {
                        let c = found->0;
                        let i = choose|i: int| 0 <= i < lingua_codes@.len() && c@ == (#[trigger] lingua_codes@[i])@;
                        langs@[i].lemma_codes();
                        assert(self@[i] == langs@[i]);
                    }
                }
                LanguageDetector::from_lingua(found)
            },
        }
    }
}

} // verus!
