//! The tokenizer.
use super::char_stream::{CharStream, Cursor};
use super::grammar::{
    ascii_whitespace, char_literal, decimal_digit, expect, keyword_or_identifier,
    lemma_run_len_unique, lemma_token_not_empty, number, punctuator, scan, string_literal,
    token_at, CharClass, Lexeme, Scan, Step,
};
use super::numeral::parse_digits;
use super::position::advance;
use super::{Annot, LexError, Loc, Token, TokenKind, TokenView};
use vstd::prelude::*;

verus! {

/// The tokens of `tokens`, each by its mathematical content.
pub open spec fn token_views<'a>(tokens: Seq<Token<'a>>) -> Seq<TokenView> {
    Seq::new(tokens.len(), |i: int| tokens[i]@)
}

/// The tokens that `lexemes` stand for in `text`, whose first character is at
/// `loc`: each with the position that consuming the text before it leads to.
pub open spec fn locate(lexemes: Seq<Lexeme>, text: Seq<char>, loc: Loc) -> Seq<TokenView> {
    Seq::new(
        lexemes.len(),
        |i: int|
            Annot { value: lexemes[i].kind, loc: advance(loc, text.take(lexemes[i].start as int)) },
    )
}

/// What one routine of the tokenizer returns, by its mathematical content:
/// a token, a lexical error, or nothing for a number that cannot be read.
pub type StepResult = Option<Result<TokenView, LexError>>;

/// What tokenizing a whole text returns, by its mathematical content: the
/// tokens, the first lexical error, or nothing for a number that cannot be
/// read.
pub type LexResult = Option<Result<Seq<TokenView>, LexError>>;

impl Step {
    /// Whether a routine that meets `self` at the cursor `before` returns `r`
    /// and leaves the cursor at `after`. A token begins where the cursor
    /// stood; an error is placed where it was detected.
    pub open spec fn describes(self, before: Cursor, r: StepResult, after: Cursor) -> bool {
        match self {
            Step::Token { kind, len } => {
                &&& r == Some(Ok::<TokenView, LexError>(Annot { value: kind, loc: before.loc }))
                &&& after == before.after(len as int)
            },
            Step::Error { cause, at, len } => {
                &&& r == Some(
                    Err::<TokenView, LexError>(
                        Annot { value: cause, loc: before.after(at as int).loc },
                    ),
                )
                &&& after == before.after(len as int)
            },
            Step::BadNumber { len } => r is None && after == before.after(len as int),
        }
    }
}

/// What tokenizing the text of `cursor` returns: the tokens of
/// [`scan`], each with its position; or the first error, with the position
/// at which it was detected; or nothing, where a number cannot be read.
pub open spec fn tokenized(cursor: Cursor) -> LexResult {
    match scan(cursor.remaining, 0) {
        Scan::Tokens(lexemes) => Some(Ok(locate(lexemes, cursor.remaining, cursor.loc))),
        Scan::Error { cause, at, .. } => Some(
            Err(Annot { value: cause, loc: cursor.after(at as int).loc }),
        ),
        Scan::BadNumber { .. } => None,
    }
}

/// The number of characters that tokenizing `text` consumes: all of them, or
/// those up to where it stops.
pub open spec fn consumed(text: Seq<char>) -> nat {
    match scan(text, 0) {
        Scan::Tokens(_) => text.len(),
        Scan::Error { len, .. } => len,
        Scan::BadNumber { len } => len,
    }
}

/// The mathematical content of what a routine returned.
pub open spec fn step_view<'a>(r: Result<Token<'a>, LexError>) -> StepResult {
    match r {
        Ok(t) => Some(Ok(t@)),
        Err(e) => Some(Err(e)),
    }
}

/// The mathematical content of what tokenizing returned.
pub open spec fn lex_view<'a>(r: Result<Vec<Token<'a>>, LexError>) -> LexResult {
    match r {
        Ok(tokens) => Some(Ok(token_views(tokens@))),
        Err(e) => Some(Err(e)),
    }
}

/// The mathematical content of what tokenizing returned, where it may
/// return nothing.
pub open spec fn try_lex_view<'a>(r: Option<Result<Vec<Token<'a>>, LexError>>) -> LexResult {
    match r {
        Some(r) => lex_view(r),
        None => None,
    }
}

/// The mathematical content of what reading a number returned.
pub open spec fn number_view<'a>(r: Option<Token<'a>>) -> StepResult {
    match r {
        Some(t) => Some(Ok(t@)),
        None => None,
    }
}

/// Whether `c` is a space, a tab, a line feed, a form feed or a carriage
/// return.
pub fn is_ascii_space(c: &char) -> (b: bool)
    ensures
        b == ascii_whitespace(*c),
{
    *c == ' ' || *c == '\t' || *c == '\n' || *c == '\x0C' || *c == '\r'
}

/// Whether `c` is one of `0` to `9`.
pub fn is_decimal_digit(c: &char) -> (b: bool)
    ensures
        b == decimal_digit(*c),
{
    '0' <= *c && *c <= '9'
}

/// Whether `c` is one of `0` to `7`.
pub fn is_octal_digit(c: &char) -> (b: bool)
    ensures
        b == CharClass::Octal.has(*c),
{
    '0' <= *c && *c <= '7'
}

/// Whether `c` is a decimal digit or one of `a` to `f` in either case.
pub fn is_hex_digit(c: &char) -> (b: bool)
    ensures
        b == CharClass::Hex.has(*c),
{
    ('0' <= *c && *c <= '9') || ('a' <= *c && *c <= 'f') || ('A' <= *c && *c <= 'F')
}

/// Whether `c` can stand in an identifier: it is neither ASCII whitespace
/// nor punctuation.
pub fn is_identifier_char(c: &char) -> (b: bool)
    ensures
        b == CharClass::Identifier.has(*c),
{
    !is_ascii_space(c) && !TokenKind::is_punct(*c)
}

/// Whether `c` can stand inside a string literal: it is no double quote.
pub fn is_string_char(c: &char) -> (b: bool)
    ensures
        b == CharClass::StringBody.has(*c),
{
    *c != '"'
}

/// A tokenizer over one source text.
pub struct TokenStream<'a> {
    cs: CharStream<'a>,
}

impl<'a> View for TokenStream<'a> {
    type V = Cursor;

    closed spec fn view(&self) -> Cursor {
        self.cs@
    }
}

impl<'a> TokenStream<'a> {
    /// See [`Cursor::wf`].
    pub open spec fn wf(&self) -> bool {
        self@.wf()
    }

    /// A tokenizer at the first character of `input`: line 1, column 1.
    pub fn new(input: &'a str) -> (ts: Self)
        requires
            input@.len() < u32::MAX,
        ensures
            ts@ == (Cursor { remaining: input@, loc: Loc::start() }),
            ts.wf(),
    {
        Self { cs: CharStream::new(input) }
    }

    /// Tokenizes the rest of the text: returns its tokens in order, or the
    /// first lexical error and no token. The text must hold no number that
    /// cannot be read before its first error; [`TokenStream::try_lex`] takes
    /// any text.
    pub fn lex(&mut self) -> (r: Result<Vec<Token<'a>>, LexError>)
        requires
            old(self).wf(),
            tokenized(old(self)@) is Some,
        ensures
            final(self).wf(),
            lex_view(r) == tokenized(old(self)@),
            final(self)@ == old(self)@.after(consumed(old(self)@.remaining) as int),
    {
        match self.try_lex() {
            Some(r) => r,
            None => vstd::pervasive::unreached(),
        }
    }

    /// Tokenizes the rest of the text: returns its tokens in order, or the
    /// first lexical error and no token, or `None` where, before any error, a
    /// number has no digits or does not fit in 64 bits.
    pub fn try_lex(&mut self) -> (r: Option<Result<Vec<Token<'a>>, LexError>>)
        requires
            old(self).wf(),
        ensures
            final(self).wf(),
            try_lex_view(r) == tokenized(old(self)@),
            final(self)@ == old(self)@.after(consumed(old(self)@.remaining) as int),
    {
        let ghost start = self@;
        let ghost text = start.remaining;
        let ghost mut pos: nat = 0;
        let ghost mut done: Seq<Lexeme> = Seq::empty();
        let mut tokens: Vec<Token<'a>> = Vec::new();
        proof {
            lemma_at_start(start);
            lemma_preceded_by_nothing(scan(text, 0));
        }
        loop
            invariant
                start == old(self)@,
                start.wf(),
                text == start.remaining,
                self.wf(),
                pos <= text.len(),
                self@ == start.after(pos as int),
                scan(text, 0) == scan(text, pos).preceded_by(done),
                token_views(tokens@) == locate(done, text, start.loc),
            ensures
                pos == text.len(),
            decreases text.len() - pos,
        {
            let c: char = match self.cs.peek() {
                Some(p) => p.value,
                None => {
                    break ;
                },
            };
            let ghost before = self@;
            let ghost rest = text.skip(pos as int);
            if is_ascii_space(&c) {
                self.cs.next();
                proof {
                    start.lemma_after_after(pos as int, 1);
                    pos = pos + 1;
                }
            } else {
                let found: Result<Token<'a>, LexError> = if c == '\'' {
                    self.lex_char_literal()
                } else if c == '"' {
                    self.lex_string_literal()
                } else if is_decimal_digit(&c) {
                    match self.lex_number() {
                        Some(token) => Ok(token),
                        None => {
                            proof {
                                lemma_token_not_empty(rest);
                                let len = token_at(rest)->BadNumber_len;
                                start.lemma_after_after(pos as int, len as int);
                            }
                            return None;
                        },
                    }
                } else if TokenKind::is_punct(c) {
                    self.lex_punct_or_punct_eq()
                } else {
                    self.lex_keyword_or_id()
                };
                proof {
                    lemma_token_not_empty(rest);
                    assert(token_at(rest).describes(before, step_view(found), self@));
                }
                match found {
                    Ok(token) => {
                        proof {
                            let len = token_at(rest)->Token_len;
                            let lexeme = Lexeme { kind: token_at(rest)->Token_kind, start: pos };
                            start.lemma_after_after(pos as int, len as int);
                            lemma_preceded_by_push(scan(text, pos + len), done, lexeme);
                            assert(token_views(tokens@.push(token)) =~= token_views(tokens@).push(
                                token@,
                            ));
                            assert(locate(done.push(lexeme), text, start.loc) =~= locate(
                                done,
                                text,
                                start.loc,
                            ).push(token@));
                            done = done.push(lexeme);
                            pos = pos + len;
                        }
                        tokens.push(token);
                    },
                    Err(e) => {
                        proof {
                            let at = token_at(rest)->Error_at;
                            let len = token_at(rest)->Error_len;
                            start.lemma_after_after(pos as int, at as int);
                            start.lemma_after_after(pos as int, len as int);
                        }
                        return Some(Err(e));
                    },
                }
            }
        }
        Some(Ok(tokens))
    }

    /// Consumes one character, which is expected to be `c`. Fails with
    /// the character that stands there instead, or with the end of the text.
    pub fn skip_char(&mut self, c: char) -> (r: Result<(), LexError>)
        requires
            old(self).wf(),
        ensures
            final(self).wf(),
            match r {
                Ok(_) => expect(old(self)@.remaining, 0, c) is None && final(self)@ == old(
                    self,
                )@.after(1),
                Err(e) => expect(old(self)@.remaining, 0, c) matches Some(step) && step.describes(
                    old(self)@,
                    Some(Err(e)),
                    final(self)@,
                ),
            },
    {
        proof {
            lemma_at_start(self@);
        }
        match self.cs.next() {
            Some(g) => {
                if g.value == c {
                    Ok(())
                } else {
                    Err(LexError::unexpected_char(g.value, g.loc))
                }
            },
            None => Err(LexError::eof(self.cs.current_loc())),
        }
    }

    /// Reads the number at the head of the text, which must not be at its
    /// end. Returns `None` where the number has no digits or does not fit in
    /// 64 bits.
    pub fn lex_number(&mut self) -> (r: Option<Token<'a>>)
        requires
            old(self).wf(),
            old(self)@.remaining.len() > 0,
        ensures
            final(self).wf(),
            number(old(self)@.remaining).describes(old(self)@, number_view(r), final(self)@),
    {
        let ghost before = self@;
        let ghost s = before.remaining;
        let loc = self.cs.current_loc();
        let first: char = match self.cs.peek() {
            Some(p) => p.value,
            None => vstd::pervasive::unreached(),
        };
        proof {
            reveal_strlit("0x");
            reveal_strlit("0X");
        }
        let num: Option<u64> = if first == '0' {
            let mut prefixed: bool = self.cs.next_if_eq("0x").is_some();
            if !prefixed {
                prefixed = self.cs.next_if_eq("0X").is_some();
            }
            if prefixed {
                let literal = self.cs.take_while(is_hex_digit).value;
                proof {
                    lemma_run_len_unique(s.skip(2), CharClass::Hex, literal@.len() as int);
                    before.lemma_after_after(2, literal@.len() as int);
                }
                parse_digits(literal, 16)
            } else {
                let literal = self.cs.take_while(is_octal_digit).value;
                proof {
                    lemma_run_len_unique(s, CharClass::Octal, literal@.len() as int);
                }
                parse_digits(literal, 8)
            }
        } else {
            let literal = self.cs.take_while(is_decimal_digit).value;
            proof {
                lemma_run_len_unique(s, CharClass::Decimal, literal@.len() as int);
            }
            parse_digits(literal, 10)
        };
        match num {
            Some(n) => Some(Token::number(n, loc)),
            None => None,
        }
    }

    /// Reads the character literal at the head of the text.
    pub fn lex_char_literal(&mut self) -> (r: Result<Token<'a>, LexError>)
        requires
            old(self).wf(),
        ensures
            final(self).wf(),
            char_literal(old(self)@.remaining).describes(old(self)@, step_view(r), final(self)@),
    {
        let ghost before = self@;
        let loc = self.cs.current_loc();
        self.skip_char('\'')?;
        let c = match self.cs.next() {
            Some(c) => c,
            None => {
                return Err(LexError::eof(self.cs.current_loc()));
            },
        };
        proof {
            before.lemma_after_after(1, 1);
            lemma_at_start(before.after(2));
        }
        if c.value == '\'' {
            return Err(LexError::unexpected_char(c.value, c.loc));
        }
        proof {
            if before.remaining.len() > 2 {
                before.lemma_after_after(2, 1);
            }
        }
        self.skip_char('\'')?;
        Ok(Token::char_literal(c.value, loc))
    }

    /// Reads the string literal at the head of the text.
    pub fn lex_string_literal(&mut self) -> (r: Result<Token<'a>, LexError>)
        requires
            old(self).wf(),
        ensures
            final(self).wf(),
            string_literal(old(self)@.remaining).describes(old(self)@, step_view(r), final(self)@),
    {
        let ghost before = self@;
        let ghost s = before.remaining;
        let loc = self.cs.current_loc();
        self.skip_char('"')?;
        let body = self.cs.take_while(is_string_char);
        proof {
            let n = body.value@.len() as int;
            lemma_run_len_unique(s.skip(1), CharClass::StringBody, n);
            before.lemma_after_after(1, n);
            lemma_at_start(before.after(1 + n));
            if 1 + n < s.len() {
                before.lemma_after_after(1 + n, 1);
            }
        }
        self.skip_char('"')?;
        Ok(Token::string_literal(body.value, loc))
    }

    /// Reads the punctuator at the head of the text, which must not be at
    /// its end.
    pub fn lex_punct_or_punct_eq(&mut self) -> (r: Result<Token<'a>, LexError>)
        requires
            old(self).wf(),
            old(self)@.remaining.len() > 0,
        ensures
            final(self).wf(),
            punctuator(old(self)@.remaining).describes(old(self)@, step_view(r), final(self)@),
    {
        let ghost before = self@;
        let punct = match self.cs.next() {
            Some(p) => p,
            None => vstd::pervasive::unreached(),
        };
        proof {
            reveal_strlit("=");
            if before.remaining.len() > 1 {
                before.lemma_after_after(1, 1);
            }
        }
        if TokenKind::is_punct_eq_candidate(punct.value) && self.cs.next_if_eq("=").is_some() {
            return Ok(Token::punct_eq(punct.value, punct.loc));
        }
        Ok(Token::punct(punct.value, punct.loc))
    }

    /// Reads the keyword or the identifier at the head of the text.
    pub fn lex_keyword_or_id(&mut self) -> (r: Result<Token<'a>, LexError>)
        requires
            old(self).wf(),
        ensures
            final(self).wf(),
            keyword_or_identifier(old(self)@.remaining).describes(
                old(self)@,
                step_view(r),
                final(self)@,
            ),
    {
        let ghost before = self@;
        let loc = self.cs.current_loc();
        proof {
            lemma_at_start(before);
        }
        let token_kind = if self.cs.next_if_eq("return").is_some() {
            TokenKind::Return
        } else if self.cs.next_if_eq("if").is_some() {
            TokenKind::If
        } else if self.cs.next_if_eq("else").is_some() {
            TokenKind::Else
        } else if self.cs.next_if_eq("while").is_some() {
            TokenKind::While
        } else if self.cs.next_if_eq("for").is_some() {
            TokenKind::For
        } else if self.cs.next_if_eq("void").is_some() {
            TokenKind::Void
        } else if self.cs.next_if_eq("int").is_some() {
            TokenKind::Int
        } else if self.cs.next_if_eq("char").is_some() {
            TokenKind::Char
        } else if self.cs.next_if_eq("sizeof").is_some() {
            TokenKind::Sizeof
        } else if self.cs.peek().is_some() {
            let id = self.cs.take_while(is_identifier_char);
            proof {
                lemma_run_len_unique(
                    before.remaining,
                    CharClass::Identifier,
                    id.value@.len() as int,
                );
            }
            TokenKind::Id(id.value)
        } else {
            return Err(LexError::eof(loc));
        };
        Ok(Token { value: token_kind, loc })
    }
}

/// A cursor that has consumed nothing is where it was.
pub proof fn lemma_at_start(cursor: Cursor)
    ensures
        cursor.after(0) == cursor,
{
    assert(cursor.remaining.skip(0) =~= cursor.remaining);
}

/// Putting nothing before a result leaves it as it is.
pub proof fn lemma_preceded_by_nothing(outcome: Scan)
    ensures
        outcome.preceded_by(Seq::empty()) == outcome,
{
    if let Scan::Tokens(rest) = outcome {
        assert(Seq::<Lexeme>::empty() + rest =~= rest);
    }
}

/// Putting `first` and then `next` before a result is putting `first` with
/// `next` at its end before it.
pub proof fn lemma_preceded_by_push(outcome: Scan, first: Seq<Lexeme>, next: Lexeme)
    ensures
        outcome.preceded_by(seq![next]).preceded_by(first) == outcome.preceded_by(first.push(next)),
{
    if let Scan::Tokens(rest) = outcome {
        assert(first + (seq![next] + rest) =~= first.push(next) + rest);
    }
}

} // verus!
