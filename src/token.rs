use vstd::prelude::*;

use crate::category::{joinable, joinable_exec, Category};

verus! {

/// A token's place within a run of word segments.
#[derive(Clone, Copy, Debug, PartialEq, Eq, Hash, Structural)]
pub enum Place {
    First,
    Middle,
    Last,
    Only,
}

/// After a token of this place, its run is still open.
pub open spec fn opens(p: Place) -> bool {
    p == Place::First || p == Place::Middle
}

/// A token of this place needs an open run before it.
pub open spec fn continues(p: Place) -> bool {
    p == Place::Middle || p == Place::Last
}

/// A token's place within its run, with the byte offset at which the token
/// starts.
#[derive(Clone, Copy, Debug, PartialEq, Eq, Hash, Structural)]
pub enum Position {
    First(usize),
    Middle(usize),
    Last(usize),
    Only(usize),
}

impl Position {
    pub open spec fn spec_new(place: Place, index: usize) -> Position {
        match place {
            Place::First => Position::First(index),
            Place::Middle => Position::Middle(index),
            Place::Last => Position::Last(index),
            Place::Only => Position::Only(index),
        }
    }

    pub open spec fn spec_place(self) -> Place {
        match self {
            Position::First(_) => Place::First,
            Position::Middle(_) => Place::Middle,
            Position::Last(_) => Place::Last,
            Position::Only(_) => Place::Only,
        }
    }

    pub open spec fn spec_index(self) -> usize {
        match self {
            Position::First(i) => i,
            Position::Middle(i) => i,
            Position::Last(i) => i,
            Position::Only(i) => i,
        }
    }

    pub fn new(place: Place, index: usize) -> (r: Position)
        ensures
            r == Position::spec_new(place, index),
            r.spec_place() == place,
            r.spec_index() == index,
    {
        match place {
            Place::First => Position::First(index),
            Place::Middle => Position::Middle(index),
            Place::Last => Position::Last(index),
            Place::Only => Position::Only(index),
        }
    }

    pub fn place(&self) -> (r: Place)
        ensures
            r == self.spec_place(),
    {
        match self {
            Position::First(_) => Place::First,
            Position::Middle(_) => Place::Middle,
            Position::Last(_) => Place::Last,
            Position::Only(_) => Place::Only,
        }
    }

    pub fn index(&self) -> (r: usize)
        ensures
            r == self.spec_index(),
    {
        match self {
            Position::First(i) => *i,
            Position::Middle(i) => *i,
            Position::Last(i) => *i,
            Position::Only(i) => *i,
        }
    }
}

/// A classified span of the input text, borrowed from it.
#[derive(Clone, Copy, Debug, PartialEq, Eq)]
pub enum Token<'text> {
    Separator(&'text str),
    Whitespace(&'text str),
    SeparatorOrWhitespace(&'text str),
    Letter(&'text str),
    Punctuation(&'text str),
    Number(&'text str),
    Float(&'text str),
    Symbol(&'text str),
    Mark(&'text str),
    LetterOrPunctuation(&'text str),
    NumberOrPunctuation(&'text str),
    LetterOrNumber(&'text str),
    LetterOrMark(&'text str),
    NumberOrMark(&'text str),
    Other(&'text str),
    LetterOrOther(&'text str),
    NumberOrOther(&'text str),
    OtherOrPunctuation(&'text str),
}

impl<'text> Token<'text> {
    pub open spec fn spec_new(category: Category, text: &'text str) -> Token<'text> {
        match category {
            Category::Separator => Token::Separator(text),
            Category::Whitespace => Token::Whitespace(text),
            Category::SeparatorOrWhitespace => Token::SeparatorOrWhitespace(text),
            Category::Letter => Token::Letter(text),
            Category::Punctuation => Token::Punctuation(text),
            Category::Number => Token::Number(text),
            Category::Float => Token::Float(text),
            Category::Symbol => Token::Symbol(text),
            Category::Mark => Token::Mark(text),
            Category::LetterOrPunctuation => Token::LetterOrPunctuation(text),
            Category::NumberOrPunctuation => Token::NumberOrPunctuation(text),
            Category::LetterOrNumber => Token::LetterOrNumber(text),
            Category::LetterOrMark => Token::LetterOrMark(text),
            Category::NumberOrMark => Token::NumberOrMark(text),
            Category::Other => Token::Other(text),
            Category::LetterOrOther => Token::LetterOrOther(text),
            Category::NumberOrOther => Token::NumberOrOther(text),
            Category::OtherOrPunctuation => Token::OtherOrPunctuation(text),
        }
    }

    pub open spec fn spec_category(self) -> Category {
        match self {
            Token::Separator(_) => Category::Separator,
            Token::Whitespace(_) => Category::Whitespace,
            Token::SeparatorOrWhitespace(_) => Category::SeparatorOrWhitespace,
            Token::Letter(_) => Category::Letter,
            Token::Punctuation(_) => Category::Punctuation,
            Token::Number(_) => Category::Number,
            Token::Float(_) => Category::Float,
            Token::Symbol(_) => Category::Symbol,
            Token::Mark(_) => Category::Mark,
            Token::LetterOrPunctuation(_) => Category::LetterOrPunctuation,
            Token::NumberOrPunctuation(_) => Category::NumberOrPunctuation,
            Token::LetterOrNumber(_) => Category::LetterOrNumber,
            Token::LetterOrMark(_) => Category::LetterOrMark,
            Token::NumberOrMark(_) => Category::NumberOrMark,
            Token::Other(_) => Category::Other,
            Token::LetterOrOther(_) => Category::LetterOrOther,
            Token::NumberOrOther(_) => Category::NumberOrOther,
            Token::OtherOrPunctuation(_) => Category::OtherOrPunctuation,
        }
    }

    pub open spec fn spec_text(self) -> &'text str {
        match self {
            Token::Separator(w) => w,
            Token::Whitespace(w) => w,
            Token::SeparatorOrWhitespace(w) => w,
            Token::Letter(w) => w,
            Token::Punctuation(w) => w,
            Token::Number(w) => w,
            Token::Float(w) => w,
            Token::Symbol(w) => w,
            Token::Mark(w) => w,
            Token::LetterOrPunctuation(w) => w,
            Token::NumberOrPunctuation(w) => w,
            Token::LetterOrNumber(w) => w,
            Token::LetterOrMark(w) => w,
            Token::NumberOrMark(w) => w,
            Token::Other(w) => w,
            Token::LetterOrOther(w) => w,
            Token::NumberOrOther(w) => w,
            Token::OtherOrPunctuation(w) => w,
        }
    }

    /// The token of the given category over the given text.
    pub fn new(category: Category, text: &'text str) -> (r: Token<'text>)
        ensures
            r == Token::spec_new(category, text),
            r.spec_category() == category,
            r.spec_text() == text,
    {
        match category {
            Category::Separator => Token::Separator(text),
            Category::Whitespace => Token::Whitespace(text),
            Category::SeparatorOrWhitespace => Token::SeparatorOrWhitespace(text),
            Category::Letter => Token::Letter(text),
            Category::Punctuation => Token::Punctuation(text),
            Category::Number => Token::Number(text),
            Category::Float => Token::Float(text),
            Category::Symbol => Token::Symbol(text),
            Category::Mark => Token::Mark(text),
            Category::LetterOrPunctuation => Token::LetterOrPunctuation(text),
            Category::NumberOrPunctuation => Token::NumberOrPunctuation(text),
            Category::LetterOrNumber => Token::LetterOrNumber(text),
            Category::LetterOrMark => Token::LetterOrMark(text),
            Category::NumberOrMark => Token::NumberOrMark(text),
            Category::Other => Token::Other(text),
            Category::LetterOrOther => Token::LetterOrOther(text),
            Category::NumberOrOther => Token::NumberOrOther(text),
            Category::OtherOrPunctuation => Token::OtherOrPunctuation(text),
        }
    }

    pub fn category(&self) -> (r: Category)
        ensures
            r == self.spec_category(),
    {
        match self {
            Token::Separator(_) => Category::Separator,
            Token::Whitespace(_) => Category::Whitespace,
            Token::SeparatorOrWhitespace(_) => Category::SeparatorOrWhitespace,
            Token::Letter(_) => Category::Letter,
            Token::Punctuation(_) => Category::Punctuation,
            Token::Number(_) => Category::Number,
            Token::Float(_) => Category::Float,
            Token::Symbol(_) => Category::Symbol,
            Token::Mark(_) => Category::Mark,
            Token::LetterOrPunctuation(_) => Category::LetterOrPunctuation,
            Token::NumberOrPunctuation(_) => Category::NumberOrPunctuation,
            Token::LetterOrNumber(_) => Category::LetterOrNumber,
            Token::LetterOrMark(_) => Category::LetterOrMark,
            Token::NumberOrMark(_) => Category::NumberOrMark,
            Token::Other(_) => Category::Other,
            Token::LetterOrOther(_) => Category::LetterOrOther,
            Token::NumberOrOther(_) => Category::NumberOrOther,
            Token::OtherOrPunctuation(_) => Category::OtherOrPunctuation,
        }
    }

    /// The text the token covers.
    pub fn as_str(&self) -> (r: &'text str)
        ensures
            r == self.spec_text(),
    {
        match self {
            Token::Separator(w) => w,
            Token::Whitespace(w) => w,
            Token::SeparatorOrWhitespace(w) => w,
            Token::Letter(w) => w,
            Token::Punctuation(w) => w,
            Token::Number(w) => w,
            Token::Float(w) => w,
            Token::Symbol(w) => w,
            Token::Mark(w) => w,
            Token::LetterOrPunctuation(w) => w,
            Token::NumberOrPunctuation(w) => w,
            Token::LetterOrNumber(w) => w,
            Token::LetterOrMark(w) => w,
            Token::NumberOrMark(w) => w,
            Token::Other(w) => w,
            Token::LetterOrOther(w) => w,
            Token::NumberOrOther(w) => w,
            Token::OtherOrPunctuation(w) => w,
        }
    }

    /// Whether two tokens are of kinds that merge: one category, or both
    /// separators and whitespace.
    pub fn can_merge(first: &Self, second: &Self) -> (r: bool)
        ensures
            r == joinable(first.spec_category(), second.spec_category()),
    {
        joinable_exec(first.category(), second.category())
    }
}

} // verus!
