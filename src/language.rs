use vstd::prelude::*;
use vstd::string::StringSliceAdditionalSpecFns;
use vstd::utf8::*;

verus! {

/// Language codes following the ISO 639-3 standard.
#[non_exhaustive]
#[derive(Clone, Copy, Debug, PartialEq, Eq, PartialOrd, Ord, Hash, Structural)]
pub enum Language {
    /// العربية (Arabic).
    Ara,
    /// বাংলা (Bengali).
    Ben,
    /// 普通话 (Mandarin).
    Cmn,
    /// Deutsch (German).
    Deu,
    /// English (English).
    Eng,
    /// Esperanto (Esperanto).
    Epo,
    /// Français (French).
    Fra,
    /// हिन्दी (Hindi).
    Hin,
    /// Bahasa Indonesia (Indonesian).
    Ind,
    /// Italiano (Italian).
    Ita,
    /// 日本語 (Japanese).
    Jpn,
    /// Português (Portuguese).
    Por,
    /// Русский (Russian).
    Rus,
    /// Español (Spanish).
    Spa,
    /// Türkçe (Turkish).
    Tur,
    /// اُردُو (Urdu).
    Urd,
}

/// Every language, in declaration order.
pub open spec fn all_languages() -> Seq<Language> {
    seq![Language::Ara, Language::Ben, Language::Cmn, Language::Deu, Language::Eng, Language::Epo, Language::Fra, Language::Hin, Language::Ind, Language::Ita, Language::Jpn, Language::Por, Language::Rus, Language::Spa, Language::Tur, Language::Urd]
}

/// Whether two texts have the same characters.
pub fn same_text(a: &str, b: &str) -> (r: bool)
    ensures
        r == (a@ == b@),
{
    let x = a.as_bytes();
    let y = b.as_bytes();
    proof {
        encode_utf8_decode_utf8(a@);
        encode_utf8_decode_utf8(b@);
    }
    if x.len() != y.len() {
        return false;
    }
    let mut i: usize = 0;
    while i < x.len()
        invariant
            x@ == a.spec_bytes(),
            y@ == b.spec_bytes(),
            x@.len() == y@.len(),
            0 <= i <= x@.len(),
            forall|j: int| 0 <= j < i ==> x@[j] == y@[j],
        decreases x.len() - i,
    {
        if x[i] != y[i] {
            return false;
        }
        i = i + 1;
    }
    assert(x@ =~= y@);
    true
}

impl Language {
    /// The place of the language in declaration order.
    pub open spec fn spec_ordinal(self) -> nat {
        match self {
            Language::Ara => 0,
            Language::Ben => 1,
            Language::Cmn => 2,
            Language::Deu => 3,
            Language::Eng => 4,
            Language::Epo => 5,
            Language::Fra => 6,
            Language::Hin => 7,
            Language::Ind => 8,
            Language::Ita => 9,
            Language::Jpn => 10,
            Language::Por => 11,
            Language::Rus => 12,
            Language::Spa => 13,
            Language::Tur => 14,
            Language::Urd => 15,
        }
    }

    /// The ISO 639-3 code.
    pub open spec fn spec_code(self) -> Seq<char> {
        match self {
            Language::Ara => seq!['a', 'r', 'a'],
            Language::Ben => seq!['b', 'e', 'n'],
            Language::Cmn => seq!['c', 'm', 'n'],
            Language::Deu => seq!['d', 'e', 'u'],
            Language::Eng => seq!['e', 'n', 'g'],
            Language::Epo => seq!['e', 'p', 'o'],
            Language::Fra => seq!['f', 'r', 'a'],
            Language::Hin => seq!['h', 'i', 'n'],
            Language::Ind => seq!['i', 'n', 'd'],
            Language::Ita => seq!['i', 't', 'a'],
            Language::Jpn => seq!['j', 'p', 'n'],
            Language::Por => seq!['p', 'o', 'r'],
            Language::Rus => seq!['r', 'u', 's'],
            Language::Spa => seq!['s', 'p', 'a'],
            Language::Tur => seq!['t', 'u', 'r'],
            Language::Urd => seq!['u', 'r', 'd'],
        }
    }

    /// The ISO 639-1 code.
    pub open spec fn spec_iso639_1(self) -> Seq<char> {
        match self {
            Language::Ara => seq!['a', 'r'],
            Language::Ben => seq!['b', 'n'],
            Language::Cmn => seq!['z', 'h'],
            Language::Deu => seq!['d', 'e'],
            Language::Eng => seq!['e', 'n'],
            Language::Epo => seq!['e', 'o'],
            Language::Fra => seq!['f', 'r'],
            Language::Hin => seq!['h', 'i'],
            Language::Ind => seq!['i', 'd'],
            Language::Ita => seq!['i', 't'],
            Language::Jpn => seq!['j', 'a'],
            Language::Por => seq!['p', 't'],
            Language::Rus => seq!['r', 'u'],
            Language::Spa => seq!['e', 's'],
            Language::Tur => seq!['t', 'r'],
            Language::Urd => seq!['u', 'r'],
        }
    }

    /// The language whose ISO 639-3 code this is.
    pub open spec fn spec_from_code(code: Seq<char>) -> Option<Language> {
        if code == seq!['a', 'r', 'a'] {
            Some(Language::Ara)
        } else if code == seq!['b', 'e', 'n'] {
            Some(Language::Ben)
        } else if code == seq!['c', 'm', 'n'] {
            Some(Language::Cmn)
        } else if code == seq!['d', 'e', 'u'] {
            Some(Language::Deu)
        } else if code == seq!['e', 'n', 'g'] {
            Some(Language::Eng)
        } else if code == seq!['e', 'p', 'o'] {
            Some(Language::Epo)
        } else if code == seq!['f', 'r', 'a'] {
            Some(Language::Fra)
        } else if code == seq!['h', 'i', 'n'] {
            Some(Language::Hin)
        } else if code == seq!['i', 'n', 'd'] {
            Some(Language::Ind)
        } else if code == seq!['i', 't', 'a'] {
            Some(Language::Ita)
        } else if code == seq!['j', 'p', 'n'] {
            Some(Language::Jpn)
        } else if code == seq!['p', 'o', 'r'] {
            Some(Language::Por)
        } else if code == seq!['r', 'u', 's'] {
            Some(Language::Rus)
        } else if code == seq!['s', 'p', 'a'] {
            Some(Language::Spa)
        } else if code == seq!['t', 'u', 'r'] {
            Some(Language::Tur)
        } else if code == seq!['u', 'r', 'd'] {
            Some(Language::Urd)
        } else {
            None
        }
    }

    pub fn ordinal(self) -> (r: usize)
        ensures
            r == self.spec_ordinal(),
    {
        match self {
            Language::Ara => 0,
            Language::Ben => 1,
            Language::Cmn => 2,
            Language::Deu => 3,
            Language::Eng => 4,
            Language::Epo => 5,
            Language::Fra => 6,
            Language::Hin => 7,
            Language::Ind => 8,
            Language::Ita => 9,
            Language::Jpn => 10,
            Language::Por => 11,
            Language::Rus => 12,
            Language::Spa => 13,
            Language::Tur => 14,
            Language::Urd => 15,
        }
    }

    /// Every language, in declaration order.
    pub fn all() -> (r: Vec<Language>)
        ensures
            r@ == all_languages(),
    {
        let r = vec![Language::Ara, Language::Ben, Language::Cmn, Language::Deu, Language::Eng, Language::Epo, Language::Fra, Language::Hin, Language::Ind, Language::Ita, Language::Jpn, Language::Por, Language::Rus, Language::Spa, Language::Tur, Language::Urd];
        assert(r@ =~= all_languages());
        r
    }

    /// The ISO 639-3 code.
    pub fn code(self) -> (r: &'static str)
        ensures
            r@ == self.spec_code(),
    {
        match self {
            Language::Ara => {
                proof {
                    reveal_strlit("ara");
                }
                assert("ara"@ =~= seq!['a', 'r', 'a']);
                "ara"
            },
            Language::Ben => {
                proof {
                    reveal_strlit("ben");
                }
                assert("ben"@ =~= seq!['b', 'e', 'n']);
                "ben"
            },
            Language::Cmn => {
                proof {
                    reveal_strlit("cmn");
                }
                assert("cmn"@ =~= seq!['c', 'm', 'n']);
                "cmn"
            },
            Language::Deu => {
                proof {
                    reveal_strlit("deu");
                }
                assert("deu"@ =~= seq!['d', 'e', 'u']);
                "deu"
            },
            Language::Eng => {
                proof {
                    reveal_strlit("eng");
                }
                assert("eng"@ =~= seq!['e', 'n', 'g']);
                "eng"
            },
            Language::Epo => {
                proof {
                    reveal_strlit("epo");
                }
                assert("epo"@ =~= seq!['e', 'p', 'o']);
                "epo"
            },
            Language::Fra => {
                proof {
                    reveal_strlit("fra");
                }
                assert("fra"@ =~= seq!['f', 'r', 'a']);
                "fra"
            },
            Language::Hin => {
                proof {
                    reveal_strlit("hin");
                }
                assert("hin"@ =~= seq!['h', 'i', 'n']);
                "hin"
            },
            Language::Ind => {
                proof {
                    reveal_strlit("ind");
                }
                assert("ind"@ =~= seq!['i', 'n', 'd']);
                "ind"
            },
            Language::Ita => {
                proof {
                    reveal_strlit("ita");
                }
                assert("ita"@ =~= seq!['i', 't', 'a']);
                "ita"
            },
            Language::Jpn => {
                proof {
                    reveal_strlit("jpn");
                }
                assert("jpn"@ =~= seq!['j', 'p', 'n']);
                "jpn"
            },
            Language::Por => {
                proof {
                    reveal_strlit("por");
                }
                assert("por"@ =~= seq!['p', 'o', 'r']);
                "por"
            },
            Language::Rus => {
                proof {
                    reveal_strlit("rus");
                }
                assert("rus"@ =~= seq!['r', 'u', 's']);
                "rus"
            },
            Language::Spa => {
                proof {
                    reveal_strlit("spa");
                }
                assert("spa"@ =~= seq!['s', 'p', 'a']);
                "spa"
            },
            Language::Tur => {
                proof {
                    reveal_strlit("tur");
                }
                assert("tur"@ =~= seq!['t', 'u', 'r']);
                "tur"
            },
            Language::Urd => {
                proof {
                    reveal_strlit("urd");
                }
                assert("urd"@ =~= seq!['u', 'r', 'd']);
                "urd"
            },
        }
    }

    /// The ISO 639-1 code.
    pub fn iso639_1(self) -> (r: &'static str)
        ensures
            r@ == self.spec_iso639_1(),
    {
        match self {
            Language::Ara => {
                proof {
                    reveal_strlit("ar");
                }
                assert("ar"@ =~= seq!['a', 'r']);
                "ar"
            },
            Language::Ben => {
                proof {
                    reveal_strlit("bn");
                }
                assert("bn"@ =~= seq!['b', 'n']);
                "bn"
            },
            Language::Cmn => {
                proof {
                    reveal_strlit("zh");
                }
                assert("zh"@ =~= seq!['z', 'h']);
                "zh"
            },
            Language::Deu => {
                proof {
                    reveal_strlit("de");
                }
                assert("de"@ =~= seq!['d', 'e']);
                "de"
            },
            Language::Eng => {
                proof {
                    reveal_strlit("en");
                }
                assert("en"@ =~= seq!['e', 'n']);
                "en"
            },
            Language::Epo => {
                proof {
                    reveal_strlit("eo");
                }
                assert("eo"@ =~= seq!['e', 'o']);
                "eo"
            },
            Language::Fra => {
                proof {
                    reveal_strlit("fr");
                }
                assert("fr"@ =~= seq!['f', 'r']);
                "fr"
            },
            Language::Hin => {
                proof {
                    reveal_strlit("hi");
                }
                assert("hi"@ =~= seq!['h', 'i']);
                "hi"
            },
            Language::Ind => {
                proof {
                    reveal_strlit("id");
                }
                assert("id"@ =~= seq!['i', 'd']);
                "id"
            },
            Language::Ita => {
                proof {
                    reveal_strlit("it");
                }
                assert("it"@ =~= seq!['i', 't']);
                "it"
            },
            Language::Jpn => {
                proof {
                    reveal_strlit("ja");
                }
                assert("ja"@ =~= seq!['j', 'a']);
                "ja"
            },
            Language::Por => {
                proof {
                    reveal_strlit("pt");
                }
                assert("pt"@ =~= seq!['p', 't']);
                "pt"
            },
            Language::Rus => {
                proof {
                    reveal_strlit("ru");
                }
                assert("ru"@ =~= seq!['r', 'u']);
                "ru"
            },
            Language::Spa => {
                proof {
                    reveal_strlit("es");
                }
                assert("es"@ =~= seq!['e', 's']);
                "es"
            },
            Language::Tur => {
                proof {
                    reveal_strlit("tr");
                }
                assert("tr"@ =~= seq!['t', 'r']);
                "tr"
            },
            Language::Urd => {
                proof {
                    reveal_strlit("ur");
                }
                assert("ur"@ =~= seq!['u', 'r']);
                "ur"
            },
        }
    }

    /// The code lingua gives the language: ISO 639-3, with Mandarin under
    /// the macrolanguage code `zho`.
    pub open spec fn spec_lingua_code(self) -> Seq<char> {
        if self == Language::Cmn {
            seq!['z', 'h', 'o']
        } else {
            self.spec_code()
        }
    }

    /// The language lingua reports under this code.
    pub open spec fn spec_from_lingua_code(code: Seq<char>) -> Option<Language> {
        if code == seq!['z', 'h', 'o'] {
            Some(Language::Cmn)
        } else if code == seq!['c', 'm', 'n'] {
            None
        } else {
            Language::spec_from_code(code)
        }
    }

    /// Each code leads back to its language.
    pub proof fn lemma_codes(self)
        ensures
            Language::spec_from_code(self.spec_code()) == Some(self),
            Language::spec_from_lingua_code(self.spec_lingua_code()) == Some(self),
    {
    }

    pub fn lingua_code(self) -> (r: &'static str)
        ensures
            r@ == self.spec_lingua_code(),
    {
        if self == Language::Cmn {
            proof {
                reveal_strlit("zho");
            }
            assert("zho"@ =~= seq!['z', 'h', 'o']);
            "zho"
        } else {
            self.code()
        }
    }

    pub fn from_lingua_code(code: &str) -> (r: Option<Language>)
        ensures
            r == Language::spec_from_lingua_code(code@),
    {
        proof {
            reveal_strlit("zho");
            reveal_strlit("cmn");
        }
        assert("zho"@ =~= seq!['z', 'h', 'o']);
        assert("cmn"@ =~= seq!['c', 'm', 'n']);
        if same_text(code, "zho") {
            Some(Language::Cmn)
        } else if same_text(code, "cmn") {
            None
        } else {
            Language::from_code(code)
        }
    }

    /// The language whose ISO 639-3 code this is, if any.
    pub fn from_code(code: &str) -> (r: Option<Language>)
        ensures
            r == Language::spec_from_code(code@),
    {
        let all = Language::all();
        let mut i: usize = 0;
        while i < all.len()
            invariant
                all@ == all_languages(),
                0 <= i <= all@.len(),
                forall|j: int| 0 <= j < i ==> code@ != (#[trigger] all@[j]).spec_code(),
            decreases all.len() - i,
        {
            let l = all[i];
            if same_text(code, l.code()) {
                return Some(l);
            }
            i = i + 1;
        }
        None
    }
}

} // verus!
