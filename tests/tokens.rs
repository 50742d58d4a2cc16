use universal_tagger::Position::{First, Last, Middle, Only};
use universal_tagger::Token::{Letter, Punctuation, Separator, Whitespace};
use universal_tagger::{
    classify, coalesce, parses_as_float, repair, token_positions, word_positions, Category, Piece, Place,
    Position, RunError, Token, TokenizeError,
};

#[test]
fn lib_it_works() {
    assert!(token_positions("").unwrap().is_empty());
}

#[test]
fn token_usage() {

    let text = "Colorless green ideas sleep furiously.";
    let tokens = token_positions(text).unwrap();
    assert_eq!(
        tokens,
        &[
            (First(0), Letter("Colorless")),
            (Middle(9), Separator(" ")),
            (Middle(10), Letter("green")),
            (Middle(15), Separator(" ")),
            (Middle(16), Letter("ideas")),
            (Middle(21), Separator(" ")),
            (Middle(22), Letter("sleep")),
            (Middle(27), Separator(" ")),
            (Middle(28), Letter("furiously")),
            (Last(37), Punctuation(".")),
        ]
    );
}

#[test]
fn abbreviation_then_double_spaces() {

    let tokens = token_positions("Mr.  Fox  jumped.").unwrap();
    assert_eq!(
        tokens,
        &[
            (First(0), Letter("Mr")),
            (Last(2), Punctuation(".")),
            (Only(3), Separator("  ")),
            (First(5), Letter("Fox")),
            (Middle(8), Separator("  ")),
            (Middle(10), Letter("jumped")),
            (Last(16), Punctuation(".")),
        ]
    );
}

#[test]
fn currency_before_decimal() {
    let tokens = token_positions("$2.50").unwrap();
    assert_eq!(tokens.len(), 2);
    assert_eq!(tokens[0].1, Token::Symbol("$"));
    assert_eq!(tokens[1].1, Token::Float("2.50"));
    assert_eq!(tokens[0].0.index(), 0);
    assert_eq!(tokens[1].0.index(), 1);
}

#[test]
fn spaces_at_sentence_end_stay_one_token() {
    let tokens = token_positions("end.  Next").unwrap();
    let spaces: Vec<_> = tokens.iter().filter(|(_, t)| t.as_str().trim().is_empty()).collect();
    assert_eq!(spaces.len(), 1);
    assert_eq!(spaces[0].1, Token::Separator("  "));
}

#[test]
fn newlines_across_sentences_merge() {

    let tokens = token_positions("end.\n\nNext").unwrap();
    assert_eq!(
        tokens,
        &[
            (First(0), Letter("end")),
            (Last(3), Punctuation(".")),
            (Only(4), Whitespace("\n\n")),
            (Only(6), Letter("Next")),
        ]
    );
}

#[test]
fn tokens_rebuild_the_text() {
    for text in ["", "Colorless green ideas sleep furiously.", "Mr.  Fox  jumped.", "$2.50", "a\n\t\nb", "Ĉu vi? Jes!  Ne."] {
        let tokens = token_positions(text).unwrap();
        let rebuilt: String = tokens.iter().map(|(_, t)| t.as_str()).collect();
        assert_eq!(rebuilt, text);
    }
}

#[test]
fn tokens_classify_as_recorded() {
    for text in ["Colorless green ideas sleep furiously.", "Mr.  Fox  jumped.", "$2.50", "x2 + 3.5e2 = 350!"] {
        for (_, token) in token_positions(text).unwrap() {
            assert_eq!(classify(token.as_str()), Some(token.category()));
        }
    }
}

#[test]
fn places_form_whole_runs() {
    for text in ["Colorless green ideas sleep furiously.", "Mr.  Fox  jumped.", "end.\n\nNext", "a\n\t\nb"] {
        let tokens = token_positions(text).unwrap();
        let mut open = false;
        for (position, _) in &tokens {
            let place = position.place();
            assert_eq!(matches!(place, Place::Middle | Place::Last), open);
            open = matches!(place, Place::First | Place::Middle);
        }
        assert!(!open);
    }
}

#[test]
fn coalescing_twice_changes_nothing() {
    let text = "Colorless green ideas sleep furiously.";
    let words = word_positions(text);
    let pieces: Vec<Piece> = words
        .iter()
        .map(|(p, w)| Piece {
            category: classify(w).unwrap(),
            place: p.place(),
            start: p.index(),
            end: p.index() + w.len(),
        })
        .collect();
    let once = coalesce(text, &pieces).unwrap();
    let twice = coalesce(text, &once).unwrap();
    assert_eq!(once, twice);
}

#[test]
fn coalesce_merges_a_run() {
    let text = "ab";
    let pieces = vec![
        Piece { category: Category::Letter, place: Place::First, start: 0, end: 1 },
        Piece { category: Category::Letter, place: Place::Last, start: 1, end: 2 },
    ];
    let merged = coalesce(text, &pieces).unwrap();
    assert_eq!(merged, vec![Piece { category: Category::Letter, place: Place::Only, start: 0, end: 2 }]);
}

#[test]
fn coalesce_reports_a_broken_run() {
    let text = "ab";
    let pieces = vec![
        Piece { category: Category::Letter, place: Place::First, start: 0, end: 1 },
        Piece { category: Category::Letter, place: Place::First, start: 1, end: 2 },
    ];
    assert_eq!(coalesce(text, &pieces), Err(RunError::BrokenRun(1)));
}

#[test]
fn repair_joins_split_spaces() {
    let pieces = vec![
        Piece { category: Category::Punctuation, place: Place::Middle, start: 0, end: 1 },
        Piece { category: Category::Separator, place: Place::Last, start: 1, end: 2 },
        Piece { category: Category::Separator, place: Place::First, start: 2, end: 3 },
        Piece { category: Category::Letter, place: Place::Middle, start: 3, end: 4 },
    ];
    let places: Vec<Place> = repair(&pieces).iter().map(|p| p.place).collect();
    assert_eq!(places, vec![Place::Last, Place::Only, Place::Only, Place::First]);
}

#[test]
fn unclassifiable_word_is_an_error() {
    assert_eq!(classify("a\u{24B6}"), None);
    assert_eq!(token_positions("x a\u{24B6}"), Err(TokenizeError::Unclassifiable(2)));
}

#[test]
fn classification_order() {
    assert_eq!(classify(" "), Some(Category::Separator));
    assert_eq!(classify("\n"), Some(Category::Whitespace));
    assert_eq!(classify("\n\u{2028}"), Some(Category::SeparatorOrWhitespace));
    assert_eq!(classify("word"), Some(Category::Letter));
    assert_eq!(classify("!?"), Some(Category::Punctuation));
    assert_eq!(classify("12"), Some(Category::Number));
    assert_eq!(classify("12.5"), Some(Category::Float));
    assert_eq!(classify("1e5"), Some(Category::Float));
    assert_eq!(classify("inf"), Some(Category::Letter));
    assert_eq!(classify("$"), Some(Category::Symbol));
    assert_eq!(classify("\u{301}"), Some(Category::Mark));
    assert_eq!(classify("it's"), Some(Category::LetterOrPunctuation));
    assert_eq!(classify("1.2.3"), Some(Category::NumberOrPunctuation));
    assert_eq!(classify("x2"), Some(Category::LetterOrNumber));
    assert_eq!(classify("e\u{301}"), Some(Category::LetterOrMark));
    assert_eq!(classify("1\u{301}"), Some(Category::NumberOrMark));
    assert_eq!(classify("\u{200B}"), Some(Category::Other));
    assert_eq!(classify("a\u{200B}"), Some(Category::LetterOrOther));
    assert_eq!(classify("1\u{200B}"), Some(Category::NumberOrOther));
    assert_eq!(classify(".\u{200B}"), Some(Category::OtherOrPunctuation));
}

#[test]
fn float_literals() {
    let yes = ["2.50", "1.", ".5", "1e5", "1E-5", "+3", "-inf", "Infinity", "NaN", "7"];
    let no = ["", ".", "e5", "1e", "1.2.3", "++1", "infinit", "1e+", "0x10"];
    for s in yes {
        let chars: Vec<char> = s.chars().collect();
        assert!(parses_as_float(&chars), "{s}");
        assert!(s.parse::<f64>().is_ok());
    }
    for s in no {
        let chars: Vec<char> = s.chars().collect();
        assert!(!parses_as_float(&chars), "{s}");
        assert!(s.parse::<f64>().is_err());
    }
}

#[test]
fn word_positions_tag_each_sentence() {
    let words = word_positions("Hi. Yo");
    let got: Vec<(Position, &str)> = words;
    assert_eq!(
        got,
        vec![
            (Position::First(0), "Hi"),
            (Position::Middle(2), "."),
            (Position::Last(3), " "),
            (Position::Only(4), "Yo"),
        ]
    );
}

#[test]
fn token_accessors() {
    let t = Token::new(Category::Float, "2.5");
    assert_eq!(t, Token::Float("2.5"));
    assert_eq!(t.category(), Category::Float);
    assert_eq!(t.as_str(), "2.5");
    assert!(Token::can_merge(&Token::Letter("a"), &Token::Letter("bc")));
    assert!(Token::can_merge(&Token::Separator(" "), &Token::Whitespace("\n")));
    assert!(Token::can_merge(&Token::SeparatorOrWhitespace(" \n"), &Token::Separator(" ")));
    assert!(!Token::can_merge(&Token::Letter("a"), &Token::Number("1")));
    assert!(!Token::can_merge(&Token::Number("1"), &Token::Float("2.5")));
    assert!(!Token::can_merge(&Token::Letter("a"), &Token::LetterOrNumber("a1")));
    assert_eq!(Position::new(Place::Last, 4), Position::Last(4));
}

#[test]
fn coalescing_again_folds_a_run_after_a_last_piece() {
    let text = "a\n\t\n";
    let words = word_positions(text);
    let pieces: Vec<Piece> = words
        .iter()
        .map(|(p, w)| Piece {
            category: classify(w).unwrap(),
            place: p.place(),
            start: p.index(),
            end: p.index() + w.len(),
        })
        .collect();
    let once = coalesce(text, &pieces).unwrap();
    let twice = coalesce(text, &once).unwrap();
    assert_eq!(once.len(), 3);
    assert_eq!((once[1].place, once[2].place), (Place::Last, Place::Only));
    assert_eq!(twice.len(), 2);
    assert_eq!(twice[1], Piece { category: Category::Whitespace, place: Place::Last, start: 1, end: 4 });
}

#[test]
fn newline_and_space_across_sentences_fuse() {
    let tokens = token_positions("end.\n Next").unwrap();
    assert_eq!(
        tokens,
        &[
            (First(0), Letter("end")),
            (Last(3), Punctuation(".")),
            (Only(4), Token::SeparatorOrWhitespace("\n ")),
            (Only(6), Letter("Next")),
        ]
    );
}

#[test]
fn coalesce_joins_separator_and_whitespace() {
    let text = " \n";
    let pieces = vec![
        Piece { category: Category::Separator, place: Place::Only, start: 0, end: 1 },
        Piece { category: Category::Whitespace, place: Place::Only, start: 1, end: 2 },
    ];
    let merged = coalesce(text, &pieces).unwrap();
    assert_eq!(merged, vec![Piece { category: Category::SeparatorOrWhitespace, place: Place::Only, start: 0, end: 2 }]);
}
