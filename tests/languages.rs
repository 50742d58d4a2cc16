use universal_tagger::Position::{First, Last, Middle};
use universal_tagger::Token::{Letter, Punctuation, Separator};
use universal_tagger::{get, Language, LanguageDetector, Position, Tag, Tagger, Token};

#[test]
fn simple_usage() {
    let text = "Ĉu vi ne volas eklerni Esperanton? Bonvolu! Estas unu de la plej bonaj aferoj!";
    let lang = LanguageDetector::default().detect(text).unwrap();
    assert_eq!(lang, Language::Epo);
}

#[test]
fn allow() {
    let text = "There is no reason not to learn Esperanto.";
    let lang = LanguageDetector::empty()
        .allow(Language::Eng)
        .allow(Language::Rus)
        .detect(text)
        .unwrap();
    assert_eq!(lang, Language::Eng);
}

#[test]
fn tag_tokens() {

    let text = "Colorless green ideas sleep furiously.";
    let lang = LanguageDetector::empty()
        .allow(Language::Eng)
        .allow(Language::Cmn)
        .detect(text)
        .unwrap();
    assert_eq!(lang, Language::Eng);
    let words = Tagger::new(lang).tag(text).unwrap();
    assert_eq!(
        words,
        &[
            (First(0), Letter("Colorless"), None),
            (Middle(9), Separator(" "), None),
            (Middle(10), Letter("green"), None),
            (Middle(15), Separator(" "), None),
            (Middle(16), Letter("ideas"), None),
            (Middle(21), Separator(" "), None),
            (Middle(22), Letter("sleep"), None),
            (Middle(27), Separator(" "), None),
            (Middle(28), Letter("furiously"), None),
            (Last(37), Punctuation("."), None),
        ]
    );
}

#[test]
fn conversion_roundtrip() {
    for lang in Language::all() {
        assert_eq!(Language::from_code(lang.code()), Some(lang));
        let whatlang = whatlang::Lang::from_code(lang.code()).unwrap();
        assert_eq!(Language::from_code(whatlang.code()), Some(lang));
        let iso: lingua::IsoCode639_3 = lang.lingua_code().parse().unwrap();
        let lingua = lingua::Language::from_iso_code_639_3(&iso);
        assert_eq!(Language::from_lingua_code(&lingua.iso_code_639_3().to_string()), Some(lang));
        assert!(!get(lang).is_empty());
    }
}

#[test]
fn stop_words_are_tagged_ignoring_case() {
    let tagger = Tagger::new(Language::Eng);
    let tagged = tagger.tag("The fox").unwrap();
    assert_eq!(tagged[0], (Position::First(0), Token::Letter("The"), Some(Tag::StopWord)));
    assert_eq!(tagged[2], (Position::Last(4), Token::Letter("fox"), None));
    assert_eq!(tagger.tag_token(Token::Letter("THE")), Some(Tag::StopWord));
}

#[test]
fn stop_word_list_of_english() {
    let words = get(Language::Eng);
    assert!(words.iter().any(|w| w == "the"));
    assert!(!words.iter().any(|w| w == "colorless"));
}

#[test]
fn detector_allow_and_deny() {
    let mut detector = LanguageDetector::empty();
    assert!(detector.languages().is_empty());
    detector.allow(Language::Rus).allow(Language::Eng).allow(Language::Rus);
    assert_eq!(detector.languages(), vec![Language::Eng, Language::Rus]);
    detector.deny(Language::Eng).deny(Language::Deu);
    assert_eq!(detector.languages(), vec![Language::Rus]);
    assert_eq!(LanguageDetector::all().languages(), Language::all());
    assert_eq!(LanguageDetector::all().languages().len(), 16);
}

#[test]
fn whatlang_and_lingua_findings() {
    assert_eq!(LanguageDetector::from_whatlang(Some(("eng", true))), Some(Language::Eng));
    assert_eq!(LanguageDetector::from_whatlang(Some(("eng", false))), None);
    assert_eq!(LanguageDetector::from_whatlang(Some(("xyz", true))), None);
    assert_eq!(LanguageDetector::from_whatlang(None), None);
    assert_eq!(LanguageDetector::from_lingua(Some("zho".to_string())), Some(Language::Cmn));
    assert_eq!(LanguageDetector::from_lingua(Some("cmn".to_string())), None);
    assert_eq!(LanguageDetector::from_lingua(Some("rus".to_string())), Some(Language::Rus));
    assert_eq!(LanguageDetector::from_lingua(None), None);
}

#[test]
fn language_codes() {
    assert_eq!(Language::Cmn.code(), "cmn");
    assert_eq!(Language::Cmn.lingua_code(), "zho");
    assert_eq!(Language::Eng.iso639_1(), "en");
    assert_eq!(Language::Jpn.iso639_1(), "ja");
    assert_eq!(Language::from_code("epo"), Some(Language::Epo));
    assert_eq!(Language::from_code("xx"), None);
}
