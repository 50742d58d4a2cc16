use unicode_categories::UnicodeCategories;
use vstd::prelude::*;

use crate::float::{is_float_literal, parses_as_float};

verus! {

/// The Unicode general category `Z*` (space, line or paragraph separator).
pub uninterp spec fn unicode_separator(c: char) -> bool;

/// The Unicode `White_Space` property.
pub uninterp spec fn unicode_white_space(c: char) -> bool;

/// The Unicode general category `L*`.
pub uninterp spec fn unicode_letter(c: char) -> bool;

/// The Unicode general category `P*`.
pub uninterp spec fn unicode_punctuation(c: char) -> bool;

/// The Unicode general category `N*`.
pub uninterp spec fn unicode_number(c: char) -> bool;

/// The Unicode general category `S*`.
pub uninterp spec fn unicode_symbol(c: char) -> bool;

/// The Unicode general category `M*`.
pub uninterp spec fn unicode_mark(c: char) -> bool;

/// The Unicode general categories `Cc`, `Cf` and `Co` (control, format and
/// private use).
pub uninterp spec fn unicode_other(c: char) -> bool;

/// Relies on `UnicodeCategories::is_separator` of unicode_categories: a
/// table lookup that depends on the character alone.
#[verifier::external_body]
fn separator(c: char) -> (r: bool)
    ensures
        r == unicode_separator(c),
{
    c.is_separator()
}

/// Relies on `char::is_whitespace`: the `White_Space` property of the character.
#[verifier::external_body]
fn white_space(c: char) -> (r: bool)
    ensures
        r == unicode_white_space(c),
{
    c.is_whitespace()
}

/// Relies on `UnicodeCategories::is_letter` of unicode_categories.
#[verifier::external_body]
fn letter(c: char) -> (r: bool)
    ensures
        r == unicode_letter(c),
{
    c.is_letter()
}

/// Relies on `UnicodeCategories::is_punctuation` of unicode_categories.
#[verifier::external_body]
fn punctuation(c: char) -> (r: bool)
    ensures
        r == unicode_punctuation(c),
{
    c.is_punctuation()
}

/// Relies on `UnicodeCategories::is_number` of unicode_categories.
#[verifier::external_body]
fn number(c: char) -> (r: bool)
    ensures
        r == unicode_number(c),
{
    c.is_number()
}

/// Relies on `UnicodeCategories::is_symbol` of unicode_categories.
#[verifier::external_body]
fn symbol(c: char) -> (r: bool)
    ensures
        r == unicode_symbol(c),
{
    c.is_symbol()
}

/// Relies on `UnicodeCategories::is_mark` of unicode_categories.
#[verifier::external_body]
fn mark(c: char) -> (r: bool)
    ensures
        r == unicode_mark(c),
{
    c.is_mark()
}

/// Relies on `UnicodeCategories::is_other` of unicode_categories.
#[verifier::external_body]
fn other(c: char) -> (r: bool)
    ensures
        r == unicode_other(c),
{
    c.is_other()
}

/// Relies on `str::chars`: the characters of the text, in order.
#[verifier::external_body]
fn chars_of(s: &str) -> (r: Vec<char>)
    ensures
        r@ == s@,
{
    s.chars().collect()
}

/// The lexical kind of a span of text, from the general categories of its
/// characters.
#[derive(Clone, Copy, Debug, PartialEq, Eq, Hash, Structural)]
pub enum Category {
    Separator,
    Whitespace,
    SeparatorOrWhitespace,
    Letter,
    Punctuation,
    Number,
    /// The whole span reads as a base-10 floating-point literal. Tested
    /// after `Number`, so runs of digits stay `Number`.
    Float,
    Symbol,
    Mark,
    LetterOrPunctuation,
    NumberOrPunctuation,
    LetterOrNumber,
    LetterOrMark,
    NumberOrMark,
    Other,
    LetterOrOther,
    NumberOrOther,
    OtherOrPunctuation,
}

/// A separator, whitespace, or mixed run of both.
pub open spec fn is_gap(c: Category) -> bool {
    c == Category::Separator || c == Category::Whitespace || c == Category::SeparatorOrWhitespace
}

/// Whether neighbours of these categories may merge: the same category, or
/// both of the separator and whitespace kinds.
pub open spec fn joinable(a: Category, b: Category) -> bool {
    a == b || (is_gap(a) && is_gap(b))
}

pub fn is_gap_exec(c: Category) -> (r: bool)
    ensures
        r == is_gap(c),
{
    match c {
        Category::Separator | Category::Whitespace | Category::SeparatorOrWhitespace => true,
        _ => false,
    }
}

pub fn joinable_exec(a: Category, b: Category) -> (r: bool)
    ensures
        r == joinable(a, b),
{
    a == b || (is_gap_exec(a) && is_gap_exec(b))
}

/// The character properties that classification reads.
#[derive(Clone, Copy, Debug, PartialEq, Eq)]
pub struct CharClass {
    pub separator: bool,
    pub white_space: bool,
    pub letter: bool,
    pub punctuation: bool,
    pub number: bool,
    pub symbol: bool,
    pub mark: bool,
    pub other: bool,
}

pub open spec fn class_of(c: char) -> CharClass {
    CharClass {
        separator: unicode_separator(c),
        white_space: unicode_white_space(c),
        letter: unicode_letter(c),
        punctuation: unicode_punctuation(c),
        number: unicode_number(c),
        symbol: unicode_symbol(c),
        mark: unicode_mark(c),
        other: unicode_other(c),
    }
}

/// Whether one character may stand in a span of the category. `Float` is
/// decided on the whole span instead.
pub open spec fn char_fits(cat: Category, k: CharClass) -> bool {
    match cat {
        Category::Separator => k.separator,
        Category::Whitespace => k.white_space && !k.separator,
        Category::SeparatorOrWhitespace => k.white_space || k.separator,
        Category::Letter => k.letter,
        Category::Punctuation => k.punctuation,
        Category::Number => k.number,
        Category::Float => false,
        Category::Symbol => k.symbol,
        Category::Mark => k.mark,
        Category::LetterOrPunctuation => k.letter || k.punctuation,
        Category::NumberOrPunctuation => k.number || k.punctuation,
        Category::LetterOrNumber => k.letter || k.number,
        Category::LetterOrMark => k.letter || k.mark,
        Category::NumberOrMark => k.number || k.mark,
        Category::Other => k.other,
        Category::LetterOrOther => k.letter || k.other,
        Category::NumberOrOther => k.number || k.other,
        Category::OtherOrPunctuation => k.punctuation || k.other,
    }
}

/// Whether the span meets the category's own test.
pub open spec fn fits(cat: Category, s: Seq<char>) -> bool {
    if cat == Category::Float {
        is_float_literal(s)
    } else {
        forall|i: int| 0 <= i < s.len() ==> #[trigger] char_fits(cat, class_of(s[i]))
    }
}

/// The first category, in declaration order, whose test the span meets;
/// `None` when the span meets none of them.
pub open spec fn category_of(s: Seq<char>) -> Option<Category> {
    if fits(Category::Separator, s) {
        Some(Category::Separator)
    } else if fits(Category::Whitespace, s) {
        Some(Category::Whitespace)
    } else if fits(Category::SeparatorOrWhitespace, s) {
        Some(Category::SeparatorOrWhitespace)
    } else if fits(Category::Letter, s) {
        Some(Category::Letter)
    } else if fits(Category::Punctuation, s) {
        Some(Category::Punctuation)
    } else if fits(Category::Number, s) {
        Some(Category::Number)
    } else if fits(Category::Float, s) {
        Some(Category::Float)
    } else if fits(Category::Symbol, s) {
        Some(Category::Symbol)
    } else if fits(Category::Mark, s) {
        Some(Category::Mark)
    } else if fits(Category::LetterOrPunctuation, s) {
        Some(Category::LetterOrPunctuation)
    } else if fits(Category::NumberOrPunctuation, s) {
        Some(Category::NumberOrPunctuation)
    } else if fits(Category::LetterOrNumber, s) {
        Some(Category::LetterOrNumber)
    } else if fits(Category::LetterOrMark, s) {
        Some(Category::LetterOrMark)
    } else if fits(Category::NumberOrMark, s) {
        Some(Category::NumberOrMark)
    } else if fits(Category::Other, s) {
        Some(Category::Other)
    } else if fits(Category::LetterOrOther, s) {
        Some(Category::LetterOrOther)
    } else if fits(Category::NumberOrOther, s) {
        Some(Category::NumberOrOther)
    } else if fits(Category::OtherOrPunctuation, s) {
        Some(Category::OtherOrPunctuation)
    } else {
        None
    }
}

fn char_class(c: char) -> (r: CharClass)
    ensures
        r == class_of(c),
{
    CharClass {
        separator: separator(c),
        white_space: white_space(c),
        letter: letter(c),
        punctuation: punctuation(c),
        number: number(c),
        symbol: symbol(c),
        mark: mark(c),
        other: other(c),
    }
}

fn char_fits_exec(cat: Category, k: CharClass) -> (r: bool)
    ensures
        r == char_fits(cat, k),
{
    match cat {
        Category::Separator => k.separator,
        Category::Whitespace => k.white_space && !k.separator,
        Category::SeparatorOrWhitespace => k.white_space || k.separator,
        Category::Letter => k.letter,
        Category::Punctuation => k.punctuation,
        Category::Number => k.number,
        Category::Float => false,
        Category::Symbol => k.symbol,
        Category::Mark => k.mark,
        Category::LetterOrPunctuation => k.letter || k.punctuation,
        Category::NumberOrPunctuation => k.number || k.punctuation,
        Category::LetterOrNumber => k.letter || k.number,
        Category::LetterOrMark => k.letter || k.mark,
        Category::NumberOrMark => k.number || k.mark,
        Category::Other => k.other,
        Category::LetterOrOther => k.letter || k.other,
        Category::NumberOrOther => k.number || k.other,
        Category::OtherOrPunctuation => k.punctuation || k.other,
    }
}

/// Whether every character, by its class, fits a category other than `Float`.
fn all_fit(cat: Category, chars: &Vec<char>, classes: &Vec<CharClass>) -> (r: bool)
    requires
        cat != Category::Float,
        classes@.len() == chars@.len(),
        forall|i: int| 0 <= i < chars@.len() ==> #[trigger] classes@[i] == class_of(chars@[i]),
    ensures
        r == fits(cat, chars@),
{
    let mut i: usize = 0;
    while i < classes.len()
        invariant
            0 <= i <= classes@.len(),
            cat != Category::Float,
            classes@.len() == chars@.len(),
            forall|j: int| 0 <= j < chars@.len() ==> #[trigger] classes@[j] == class_of(chars@[j]),
            forall|j: int| 0 <= j < i ==> #[trigger] char_fits(cat, class_of(chars@[j])),
        decreases classes.len() - i,
    {
        if !char_fits_exec(cat, classes[i]) {
            assert(classes@[i as int] == class_of(chars@[i as int]));
            assert(!char_fits(cat, class_of(chars@[i as int])));
            return false;
        }
        i = i + 1;
    }
    true
}

/// Classifies a span of text: the first category whose test it meets, in the
/// order of `Category`'s variants, or `None` where it meets none.
pub fn classify(word: &str) -> (r: Option<Category>)
    ensures
        r == category_of(word@),
{
    let chars = chars_of(word);
    let mut classes: Vec<CharClass> = Vec::new();
    let mut i: usize = 0;
    while i < chars.len()
        invariant
            0 <= i <= chars@.len(),
            classes@.len() == i,
            forall|j: int| 0 <= j < i ==> #[trigger] classes@[j] == class_of(chars@[j]),
        decreases chars.len() - i,
    {
        classes.push(char_class(chars[i]));
        i = i + 1;
    }
    if all_fit(Category::Separator, &chars, &classes) {
        Some(Category::Separator)
    } else if all_fit(Category::Whitespace, &chars, &classes) {
        Some(Category::Whitespace)
    } else if all_fit(Category::SeparatorOrWhitespace, &chars, &classes) {
        Some(Category::SeparatorOrWhitespace)
    } else if all_fit(Category::Letter, &chars, &classes) {
        Some(Category::Letter)
    } else if all_fit(Category::Punctuation, &chars, &classes) {
        Some(Category::Punctuation)
    } else if all_fit(Category::Number, &chars, &classes) {
        Some(Category::Number)
    } else if parses_as_float(chars.as_slice()) {
        Some(Category::Float)
    } else if all_fit(Category::Symbol, &chars, &classes) {
        Some(Category::Symbol)
    } else if all_fit(Category::Mark, &chars, &classes) {
        Some(Category::Mark)
    } else if all_fit(Category::LetterOrPunctuation, &chars, &classes) {
        Some(Category::LetterOrPunctuation)
    } else if all_fit(Category::NumberOrPunctuation, &chars, &classes) {
        Some(Category::NumberOrPunctuation)
    } else if all_fit(Category::LetterOrNumber, &chars, &classes) {
        Some(Category::LetterOrNumber)
    } else if all_fit(Category::LetterOrMark, &chars, &classes) {
        Some(Category::LetterOrMark)
    } else if all_fit(Category::NumberOrMark, &chars, &classes) {
        Some(Category::NumberOrMark)
    } else if all_fit(Category::Other, &chars, &classes) {
        Some(Category::Other)
    } else if all_fit(Category::LetterOrOther, &chars, &classes) {
        Some(Category::LetterOrOther)
    } else if all_fit(Category::NumberOrOther, &chars, &classes) {
        Some(Category::NumberOrOther)
    } else if all_fit(Category::OtherOrPunctuation, &chars, &classes) {
        Some(Category::OtherOrPunctuation)
    } else {
        None
    }
}

} // verus!
