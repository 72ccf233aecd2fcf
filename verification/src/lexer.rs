//! Tokens, positions and lexical errors.
use vstd::prelude::*;

pub mod char_stream;
pub mod grammar;
pub mod laws;
pub mod numeral;
pub mod position;
pub mod token_stream;
pub mod utf8;

verus! {

/// The classification of one lexical unit. Variants that carry text borrow it
/// from the source buffer.
#[derive(Copy, Clone, PartialEq, Eq, PartialOrd, Ord, Hash, Debug)]
pub enum TokenKind<'a> {
    /// An unsigned integer literal: decimal, octal (leading `0`) or
    /// hexadecimal (leading `0x` / `0X`).
    Number(u64),
    /// The text between two double quotes, taken as it stands.
    StringLiteral(&'a str),
    /// The single character between two single quotes.
    CharLiteral(char),
    /// An identifier.
    Id(&'a str),
    /// One of the characters `! % & ( ) * + , - / ; < = > @ [ ] { | }`.
    Punct(char),
    /// A two-character punctuator that ends in `=`, named by its first
    /// character: `!= %= &= *= += -= /= <= == >= |=`.
    PunctEq(char),
    /// `int`
    Int,
    /// `char`
    Char,
    /// `void`
    Void,
    /// `if`
    If,
    /// `else`
    Else,
    /// `for`
    For,
    /// `while`
    While,
    /// `return`
    Return,
    /// `sizeof`
    Sizeof,
}

/// The mathematical content of a [`TokenKind`]: the same variants, with text
/// as a sequence of characters.
pub enum TokenKindView {
    Number(u64),
    StringLiteral(Seq<char>),
    CharLiteral(char),
    Id(Seq<char>),
    Punct(char),
    PunctEq(char),
    Int,
    Char,
    Void,
    If,
    Else,
    For,
    While,
    Return,
    Sizeof,
}

impl<'a> View for TokenKind<'a> {
    type V = TokenKindView;

    open spec fn view(&self) -> TokenKindView {
        match *self {
            TokenKind::Number(n) => TokenKindView::Number(n),
            TokenKind::StringLiteral(s) => TokenKindView::StringLiteral(s@),
            TokenKind::CharLiteral(c) => TokenKindView::CharLiteral(c),
            TokenKind::Id(s) => TokenKindView::Id(s@),
            TokenKind::Punct(c) => TokenKindView::Punct(c),
            TokenKind::PunctEq(c) => TokenKindView::PunctEq(c),
            TokenKind::Int => TokenKindView::Int,
            TokenKind::Char => TokenKindView::Char,
            TokenKind::Void => TokenKindView::Void,
            TokenKind::If => TokenKindView::If,
            TokenKind::Else => TokenKindView::Else,
            TokenKind::For => TokenKindView::For,
            TokenKind::While => TokenKindView::While,
            TokenKind::Return => TokenKindView::Return,
            TokenKind::Sizeof => TokenKindView::Sizeof,
        }
    }
}

/// Membership in the punctuation set `! % & ( ) * + , - / ; < = > @ [ ] { | }`.
pub open spec fn punct(c: char) -> bool {
    c == '!' || c == '%' || c == '&' || c == '(' || c == ')' || c == '*' || c == '+' || c == ','
        || c == '-' || c == '/' || c == ';' || c == '<' || c == '=' || c == '>' || c == '@'
        || c == '[' || c == ']' || c == '{' || c == '|' || c == '}'
}

/// Membership in the set `! % & * + - / < = > |` of punctuators that fuse
/// with a following `=`.
pub open spec fn punct_eq_candidate(c: char) -> bool {
    c == '!' || c == '%' || c == '&' || c == '*' || c == '+' || c == '-' || c == '/' || c == '<'
        || c == '=' || c == '>' || c == '|'
}

impl<'a> TokenKind<'a> {
    /// Whether `c` is a punctuation character.
    pub fn is_punct(c: char) -> (b: bool)
        ensures
            b == punct(c),
    {
        match c {
            '!' | '%' | '&' | '(' | ')' | '*' | '+' | ',' | '-' | '/' | ';' | '<' | '=' | '>'
            | '@' | '[' | ']' | '{' | '|' | '}' => true,
            _ => false,
        }
    }

    /// Whether `c`, followed by `=`, makes a two-character punctuator.
    pub fn is_punct_eq_candidate(c: char) -> (b: bool)
        ensures
            b == punct_eq_candidate(c),
    {
        match c {
            '!' | '%' | '&' | '*' | '+' | '-' | '/' | '<' | '=' | '>' | '|' => true,
            _ => false,
        }
    }
}

/// A position in the source text. Lines and columns count from 1, and a
/// column is one character wide whatever the character's encoded width.
#[derive(Copy, Clone, PartialEq, Eq, PartialOrd, Ord, Hash, Debug)]
pub struct Loc {
    pub line: u32,
    pub column: u32,
}

/// A value together with the position where it begins.
#[derive(Copy, Clone, PartialEq, Eq, PartialOrd, Ord, Hash, Debug)]
pub struct Annot<T> {
    pub value: T,
    pub loc: Loc,
}

impl<T: View> View for Annot<T> {
    type V = Annot<T::V>;

    open spec fn view(&self) -> Annot<T::V> {
        Annot { value: self.value@, loc: self.loc }
    }
}

impl<T> Annot<T> {
    pub fn new(value: T, loc: Loc) -> (a: Self)
        ensures
            a == (Annot { value, loc }),
    {
        Self { value, loc }
    }
}

/// A token with the position of its first character.
pub type Token<'a> = Annot<TokenKind<'a>>;

/// The mathematical content of a [`Token`].
pub type TokenView = Annot<TokenKindView>;

impl<'a> Token<'a> {
    pub fn number(num: u64, loc: Loc) -> (t: Token<'a>)
        ensures
            t == (Annot { value: TokenKind::<'a>::Number(num), loc }),
    {
        Self { value: TokenKind::Number(num), loc }
    }

    pub fn string_literal(s: &'a str, loc: Loc) -> (t: Token<'a>)
        ensures
            t == (Annot { value: TokenKind::StringLiteral(s), loc }),
    {
        Self { value: TokenKind::StringLiteral(s), loc }
    }

    pub fn char_literal(c: char, loc: Loc) -> (t: Token<'a>)
        ensures
            t == (Annot { value: TokenKind::<'a>::CharLiteral(c), loc }),
    {
        Self { value: TokenKind::CharLiteral(c), loc }
    }

    pub fn punct_eq(c: char, loc: Loc) -> (t: Token<'a>)
        ensures
            t == (Annot { value: TokenKind::<'a>::PunctEq(c), loc }),
    {
        Token { value: TokenKind::PunctEq(c), loc }
    }

    pub fn punct(c: char, loc: Loc) -> (t: Token<'a>)
        ensures
            t == (Annot { value: TokenKind::<'a>::Punct(c), loc }),
    {
        Token { value: TokenKind::Punct(c), loc }
    }
}

/// One character of the source with its position.
pub type CodePoint = Annot<char>;

/// A stretch of the source buffer with the position of its first character.
pub type CodeFragment<'a> = Annot<&'a str>;

/// Why the text could not be tokenized.
#[derive(Copy, Clone, PartialEq, Eq, PartialOrd, Ord, Hash, Debug)]
pub enum LexErrorKind {
    /// A character stands where the grammar does not allow it.
    UnexpectedChar(char),
    /// The text ended inside a construct that was still open.
    Eof,
}

/// A lexical error with the position at which it was detected.
pub type LexError = Annot<LexErrorKind>;

impl LexError {
    pub fn eof(loc: Loc) -> (e: Self)
        ensures
            e == (Annot { value: LexErrorKind::Eof, loc }),
    {
        Self::new(LexErrorKind::Eof, loc)
    }

    pub fn unexpected_char(c: char, loc: Loc) -> (e: Self)
        ensures
            e == (Annot { value: LexErrorKind::UnexpectedChar(c), loc }),
    {
        Self::new(LexErrorKind::UnexpectedChar(c), loc)
    }
}

} // verus!
