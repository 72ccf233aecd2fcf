//! The lexical grammar, as functions on sequences of characters.
//!
//! [`scan`] says what tokenizing a text yields; the functions that it is made
//! of say what each routine of the tokenizer makes of the head of a text.
use super::{punct, punct_eq_candidate, LexErrorKind, TokenKindView};
use vstd::prelude::*;

verus! {

/// The classes of characters that the tokenizer takes runs of.
pub enum CharClass {
    /// `0` to `9`.
    Decimal,
    /// `0` to `7`.
    Octal,
    /// `0` to `9`, `a` to `f` and `A` to `F`.
    Hex,
    /// Anything but a double quote.
    StringBody,
    /// Anything but ASCII whitespace and punctuation.
    Identifier,
}

/// Space, tab, line feed, form feed or carriage return.
pub open spec fn ascii_whitespace(c: char) -> bool {
    c == ' ' || c == '\t' || c == '\n' || c == '\x0C' || c == '\r'
}

/// `0` to `9`.
pub open spec fn decimal_digit(c: char) -> bool {
    '0' <= c <= '9'
}

impl CharClass {
    /// Whether `c` belongs to the class.
    pub open spec fn has(self, c: char) -> bool {
        match self {
            CharClass::Decimal => decimal_digit(c),
            CharClass::Octal => '0' <= c <= '7',
            CharClass::Hex => '0' <= c <= '9' || 'a' <= c <= 'f' || 'A' <= c <= 'F',
            CharClass::StringBody => c != '"',
            CharClass::Identifier => !ascii_whitespace(c) && !punct(c),
        }
    }
}

/// The length of the longest prefix of `s` whose characters all belong to
/// `class`.
pub open spec fn run_len(s: Seq<char>, class: CharClass) -> nat
    decreases s.len(),
{
    if s.len() > 0 && class.has(s[0]) {
        1 + run_len(s.drop_first(), class)
    } else {
        0
    }
}

/// The longest prefix of `s` whose characters all belong to `class`.
pub open spec fn run(s: Seq<char>, class: CharClass) -> Seq<char> {
    s.take(run_len(s, class) as int)
}

/// A run lies within the text, holds only characters of its class, and ends
/// at the end of the text or before a character that is not of the class.
pub proof fn lemma_run_len(s: Seq<char>, class: CharClass)
    ensures
        run_len(s, class) <= s.len(),
        forall|i: int| 0 <= i < run_len(s, class) ==> class.has(#[trigger] s[i]),
        run_len(s, class) < s.len() ==> !class.has(s[run_len(s, class) as int]),
    decreases s.len(),
{
    if s.len() > 0 && class.has(s[0]) {
        let t = s.drop_first();
        lemma_run_len(t, class);
        assert forall|i: int| 0 <= i < run_len(s, class) implies class.has(#[trigger] s[i]) by {
            if i > 0 {
                assert(s[i] == t[i - 1]);
            }
        }
    }
}

/// The run is the only prefix with these properties.
pub proof fn lemma_run_len_unique(s: Seq<char>, class: CharClass, n: int)
    requires
        0 <= n <= s.len(),
        forall|i: int| 0 <= i < n ==> class.has(#[trigger] s[i]),
        n < s.len() ==> !class.has(s[n]),
    ensures
        run_len(s, class) == n,
    decreases s.len(),
{
    if n > 0 {
        let t = s.drop_first();
        assert forall|i: int| 0 <= i < n - 1 implies class.has(#[trigger] t[i]) by {
            assert(t[i] == s[i + 1]);
        }
        lemma_run_len_unique(t, class, n - 1);
    }
}

/// The value of a digit: `0` to `9` for the decimal digits, 10 to 15 for
/// `a` to `f` in either case.
pub open spec fn digit_value(c: char) -> nat {
    if '0' <= c <= '9' {
        (c as int - '0' as int) as nat
    } else if 'a' <= c <= 'f' {
        (c as int - 'a' as int + 10) as nat
    } else if 'A' <= c <= 'F' {
        (c as int - 'A' as int + 10) as nat
    } else {
        0
    }
}

/// The number that `digits` writes in base `radix`, most significant digit
/// first.
pub open spec fn numeral_value(digits: Seq<char>, radix: nat) -> nat
    decreases digits.len(),
{
    if digits.len() == 0 {
        0
    } else {
        numeral_value(digits.drop_last(), radix) * radix + digit_value(digits.last())
    }
}

/// What the tokenizer makes of the head of a text. Counts and places are in
/// characters, from the start of that text.
pub enum Step {
    /// The first `len` characters make a token of this kind.
    Token { kind: TokenKindView, len: nat },
    /// The text is refused: the error is detected at the character `at`
    /// places in, when `len` characters have been consumed.
    Error { cause: LexErrorKind, at: nat, len: nat },
    /// The first `len` characters are the start of a number that has no
    /// digits or does not fit in 64 bits.
    BadNumber { len: nat },
}

/// A number of `digits` in base `radix`, read with `len` characters.
pub open spec fn number_of(digits: Seq<char>, radix: nat, len: nat) -> Step {
    if digits.len() > 0 && numeral_value(digits, radix) <= u64::MAX {
        Step::Token { kind: TokenKindView::Number(numeral_value(digits, radix) as u64), len }
    } else {
        Step::BadNumber { len }
    }
}

/// Whether `s` starts with `0x` or `0X`.
pub open spec fn hex_prefix(s: Seq<char>) -> bool {
    s.len() >= 2 && s[0] == '0' && (s[1] == 'x' || s[1] == 'X')
}

/// A number at the head of `s`. After `0x` or `0X` it is the longest run of
/// hexadecimal digits, in base 16; after any other `0` it is the longest run
/// of octal digits, the `0` included, in base 8; else it is the longest run of
/// decimal digits, in base 10.
pub open spec fn number(s: Seq<char>) -> Step
    recommends
        s.len() > 0,
{
    if hex_prefix(s) {
        let digits = run(s.skip(2), CharClass::Hex);
        number_of(digits, 16, 2 + digits.len())
    } else if s[0] == '0' {
        let digits = run(s, CharClass::Octal);
        number_of(digits, 8, digits.len())
    } else {
        let digits = run(s, CharClass::Decimal);
        number_of(digits, 10, digits.len())
    }
}

/// The error, if any, of expecting `c` as the character `i` places into `s`:
/// the end of the text, or another character, which is then consumed.
pub open spec fn expect(s: Seq<char>, i: nat, c: char) -> Option<Step> {
    if i >= s.len() {
        Some(Step::Error { cause: LexErrorKind::Eof, at: s.len(), len: s.len() })
    } else if s[i as int] != c {
        Some(Step::Error { cause: LexErrorKind::UnexpectedChar(s[i as int]), at: i, len: i + 1 })
    } else {
        None
    }
}

/// A character literal at the head of `s`: a single quote, one character
/// that is not a single quote, and a single quote.
pub open spec fn char_literal(s: Seq<char>) -> Step {
    if let Some(e) = expect(s, 0, '\'') {
        e
    } else if s.len() == 1 {
        Step::Error { cause: LexErrorKind::Eof, at: 1, len: 1 }
    } else if s[1] == '\'' {
        Step::Error { cause: LexErrorKind::UnexpectedChar('\''), at: 1, len: 2 }
    } else if let Some(e) = expect(s, 2, '\'') {
        e
    } else {
        Step::Token { kind: TokenKindView::CharLiteral(s[1]), len: 3 }
    }
}

/// A string literal at the head of `s`: a double quote, the longest run of
/// characters that are not a double quote, and a double quote. Where the text
/// ends first, that is an error at the end of the text.
pub open spec fn string_literal(s: Seq<char>) -> Step {
    if let Some(e) = expect(s, 0, '"') {
        e
    } else {
        let body = run(s.skip(1), CharClass::StringBody);
        if 1 + body.len() == s.len() {
            Step::Error { cause: LexErrorKind::Eof, at: s.len(), len: s.len() }
        } else {
            Step::Token { kind: TokenKindView::StringLiteral(body), len: body.len() + 2 }
        }
    }
}

/// A punctuator at the head of `s`: its first character, together with a
/// following `=` where the first character can take one.
pub open spec fn punctuator(s: Seq<char>) -> Step
    recommends
        s.len() > 0,
{
    if punct_eq_candidate(s[0]) && s.len() >= 2 && s[1] == '=' {
        Step::Token { kind: TokenKindView::PunctEq(s[0]), len: 2 }
    } else {
        Step::Token { kind: TokenKindView::Punct(s[0]), len: 1 }
    }
}

/// The keyword that `s` starts with, and its length. The spellings are tried
/// in the order `return if else while for void int char sizeof`, and nothing
/// is asked of the character that follows.
pub open spec fn keyword(s: Seq<char>) -> Option<(TokenKindView, nat)> {
    if "return"@.is_prefix_of(s) {
        Some((TokenKindView::Return, "return"@.len()))
    } else if "if"@.is_prefix_of(s) {
        Some((TokenKindView::If, "if"@.len()))
    } else if "else"@.is_prefix_of(s) {
        Some((TokenKindView::Else, "else"@.len()))
    } else if "while"@.is_prefix_of(s) {
        Some((TokenKindView::While, "while"@.len()))
    } else if "for"@.is_prefix_of(s) {
        Some((TokenKindView::For, "for"@.len()))
    } else if "void"@.is_prefix_of(s) {
        Some((TokenKindView::Void, "void"@.len()))
    } else if "int"@.is_prefix_of(s) {
        Some((TokenKindView::Int, "int"@.len()))
    } else if "char"@.is_prefix_of(s) {
        Some((TokenKindView::Char, "char"@.len()))
    } else if "sizeof"@.is_prefix_of(s) {
        Some((TokenKindView::Sizeof, "sizeof"@.len()))
    } else {
        None
    }
}

/// A keyword or an identifier at the head of `s`: the keyword that `s` starts
/// with, if any; else the longest run of characters that are neither ASCII
/// whitespace nor punctuation. At the end of the text that is an error.
pub open spec fn keyword_or_identifier(s: Seq<char>) -> Step {
    if let Some((kind, len)) = keyword(s) {
        Step::Token { kind, len }
    } else if s.len() > 0 {
        let name = run(s, CharClass::Identifier);
        Step::Token { kind: TokenKindView::Id(name), len: name.len() }
    } else {
        Step::Error { cause: LexErrorKind::Eof, at: 0, len: 0 }
    }
}

/// What stands at the head of `s`, by its first character: a character
/// literal after a single quote, a string literal after a double quote, a
/// number after a digit, a punctuator after a punctuation character, and a
/// keyword or an identifier after anything else.
pub open spec fn token_at(s: Seq<char>) -> Step
    recommends
        s.len() > 0,
        !ascii_whitespace(s[0]),
{
    if s[0] == '\'' {
        char_literal(s)
    } else if s[0] == '"' {
        string_literal(s)
    } else if decimal_digit(s[0]) {
        number(s)
    } else if punct(s[0]) {
        punctuator(s)
    } else {
        keyword_or_identifier(s)
    }
}

/// A token by its kind and the place of its first character, counted in
/// characters from the start of the text.
pub struct Lexeme {
    pub kind: TokenKindView,
    pub start: nat,
}

/// What tokenizing a text yields. Counts and places are in characters, from
/// the start of the text.
pub enum Scan {
    /// The whole text was consumed and made these tokens, in this order.
    Tokens(Seq<Lexeme>),
    /// The text is refused: the first error is detected at the character
    /// `at` places in, when `len` characters have been consumed.
    Error { cause: LexErrorKind, at: nat, len: nat },
    /// When `len` characters have been consumed, and before any error, a
    /// number has no digits or does not fit in 64 bits.
    BadNumber { len: nat },
}

impl Scan {
    /// This result, with `first` put before its tokens if it has any.
    pub open spec fn preceded_by(self, first: Seq<Lexeme>) -> Scan {
        match self {
            Scan::Tokens(rest) => Scan::Tokens(first + rest),
            _ => self,
        }
    }
}

/// A token at the head of a text that starts with no whitespace takes at
/// least one character.
pub proof fn lemma_token_not_empty(s: Seq<char>)
    requires
        s.len() > 0,
        !ascii_whitespace(s[0]),
    ensures
        token_at(s) matches Step::Token { len, .. } ==> 0 < len <= s.len(),
        token_at(s) matches Step::Error { at, len, .. } ==> at <= s.len() && len <= s.len(),
        token_at(s) matches Step::BadNumber { len } ==> len <= s.len(),
{
    lemma_run_len(s, CharClass::Octal);
    lemma_run_len(s, CharClass::Decimal);
    lemma_run_len(s, CharClass::Identifier);
    lemma_run_len(s.skip(2), CharClass::Hex);
    lemma_run_len(s.skip(1), CharClass::StringBody);
    reveal_strlit("return");
    reveal_strlit("if");
    reveal_strlit("else");
    reveal_strlit("while");
    reveal_strlit("for");
    reveal_strlit("void");
    reveal_strlit("int");
    reveal_strlit("char");
    reveal_strlit("sizeof");
}

/// What tokenizing `text` from the character `pos` places in yields: ASCII
/// whitespace between tokens is passed over, each token is what [`token_at`]
/// finds where the last one ended, and the first error or bad number ends the
/// scan.
pub open spec fn scan(text: Seq<char>, pos: nat) -> Scan
    decreases text.len() - pos,
{
    if pos >= text.len() {
        Scan::Tokens(Seq::empty())
    } else if ascii_whitespace(text[pos as int]) {
        scan(text, pos + 1)
    } else {
        match token_at(text.skip(pos as int)) {
            Step::Token { kind, len } => {
                proof {
                    lemma_token_not_empty(text.skip(pos as int));
                }
                scan(text, pos + len).preceded_by(seq![Lexeme { kind, start: pos }])
            },
            Step::Error { cause, at, len } => Scan::Error { cause, at: pos + at, len: pos + len },
            Step::BadNumber { len } => Scan::BadNumber { len: pos + len },
        }
    }
}

} // verus!
