//! What holds of every text.
use super::char_stream::Cursor;
use super::grammar::{
    ascii_whitespace, decimal_digit, lemma_run_len_unique, lemma_token_not_empty, number,
    numeral_value, scan, token_at, CharClass, Lexeme, Scan, Step,
};
use super::position::{
    advance, count_newlines, has_room, lemma_advance_push, lemma_counts_bounded, line_tail,
};
use super::token_stream::{locate, token_views, tokenized, try_lex_view};
use super::{punct, punct_eq_candidate, Annot, LexError, Loc, Token, TokenKindView};
use vstd::prelude::*;

verus! {

/// Consuming nothing leaves a position where it is.
pub proof fn lemma_advance_nothing(loc: Loc)
    ensures
        advance(loc, Seq::<char>::empty()) == loc,
{
}

/// Consuming a line feed leads to the first column of the next line, and
/// consuming any other character to the next column of the same line.
pub proof fn lemma_advance_one(loc: Loc, c: char)
    requires
        has_room(loc, 1),
    ensures
        advance(loc, seq![c]) == if c == '\n' {
            Loc { line: (loc.line + 1) as u32, column: 1 }
        } else {
            Loc { line: loc.line, column: (loc.column + 1) as u32 }
        },
{
    assert(seq![c] =~= Seq::<char>::empty().push(c));
    lemma_advance_push(loc, Seq::<char>::empty(), c);
}

/// Whether every character of `s` is a decimal digit.
pub open spec fn decimal_digits(s: Seq<char>) -> bool {
    forall|i: int| 0 <= i < s.len() ==> decimal_digit(#[trigger] s[i])
}

/// A decimal numeral whose first digit is not `0` and which fits in 64 bits,
/// followed by the end of the text or by anything but a digit, is a number
/// token of the numeral's length whose value is what the numeral writes in
/// base 10.
pub proof fn lemma_decimal_numeral(digits: Seq<char>, rest: Seq<char>)
    requires
        digits.len() > 0,
        decimal_digits(digits),
        digits[0] != '0',
        numeral_value(digits, 10) <= u64::MAX,
        rest.len() > 0 ==> !decimal_digit(rest[0]),
    ensures
        token_at(digits + rest) == (Step::Token {
            kind: TokenKindView::Number(numeral_value(digits, 10) as u64),
            len: digits.len(),
        }),
{
    let s = digits + rest;
    assert forall|i: int| 0 <= i < digits.len() implies CharClass::Decimal.has(#[trigger] s[i]) by {
        assert(s[i] == digits[i]);
    }
    lemma_run_len_unique(s, CharClass::Decimal, digits.len() as int);
    assert(s.take(digits.len() as int) =~= digits);
}

/// A text that is such a decimal numeral and nothing more tokenizes to the
/// one number token, at the position where the text begins.
pub proof fn lemma_decimal_numeral_alone(digits: Seq<char>, loc: Loc)
    requires
        digits.len() > 0,
        decimal_digits(digits),
        digits[0] != '0',
        numeral_value(digits, 10) <= u64::MAX,
    ensures
        tokenized(Cursor { remaining: digits, loc }) == Some(
            Ok::<Seq<Annot<TokenKindView>>, LexError>(
                seq![
                    Annot {
                        value: TokenKindView::Number(numeral_value(digits, 10) as u64),
                        loc,
                    },
                ],
            ),
        ),
{
    let value = TokenKindView::Number(numeral_value(digits, 10) as u64);
    lemma_decimal_numeral(digits, Seq::empty());
    assert(digits.skip(0) =~= digits);
    let lexemes = seq![Lexeme { kind: value, start: 0 }];
    assert(scan(digits, digits.len()) == Scan::Tokens(Seq::empty()));
    assert(locate(lexemes, digits, loc) =~= seq![Annot { value, loc }]);
}

/// A punctuation character that is followed by `=` and can take one makes a
/// two-character punctuator with it.
pub proof fn lemma_punct_fuses(s: Seq<char>)
    requires
        s.len() >= 2,
        punct_eq_candidate(s[0]),
        s[1] == '=',
    ensures
        token_at(s) == (Step::Token { kind: TokenKindView::PunctEq(s[0]), len: 2 }),
{
}

/// A punctuation character that is not followed by `=`, or cannot take one,
/// is a token by itself.
pub proof fn lemma_punct_alone(s: Seq<char>)
    requires
        s.len() >= 1,
        punct(s[0]),
        s.len() == 1 || s[1] != '=' || !punct_eq_candidate(s[0]),
    ensures
        token_at(s) == (Step::Token { kind: TokenKindView::Punct(s[0]), len: 1 }),
{
}

/// Each token of a text that tokenizes is what the grammar finds at the
/// place where the token begins, and no token begins at whitespace.
pub proof fn lemma_token_is_token_at(text: Seq<char>, pos: nat, i: int)
    requires
        scan(text, pos) matches Scan::Tokens(lexemes) && 0 <= i < lexemes.len(),
    ensures
        ({
            let lexeme = scan(text, pos)->Tokens_0[i];
            &&& pos <= lexeme.start < text.len()
            &&& !ascii_whitespace(text[lexeme.start as int])
            &&& token_at(text.skip(lexeme.start as int)) matches Step::Token { kind, .. }
            &&& kind == lexeme.kind
        }),
    decreases text.len() - pos,
{
    if pos < text.len() {
        if ascii_whitespace(text[pos as int]) {
            lemma_token_is_token_at(text, pos + 1, i);
        } else {
            lemma_token_not_empty(text.skip(pos as int));
            let len = token_at(text.skip(pos as int))->Token_len;
            if i > 0 {
                lemma_token_is_token_at(text, pos + len, i - 1);
            }
        }
    }
}

/// The number of characters of the token that begins `start` places into
/// `text`.
pub open spec fn token_len(text: Seq<char>, start: nat) -> nat {
    token_at(text.skip(start as int))->Token_len
}

/// Tokens come in the order of the text and do not overlap: a later token
/// begins where an earlier one has ended, or further on.
pub proof fn lemma_tokens_in_order(text: Seq<char>, pos: nat, i: int, j: int)
    requires
        scan(text, pos) matches Scan::Tokens(lexemes) && 0 <= i < j < lexemes.len(),
    ensures
        ({
            let lexemes = scan(text, pos)->Tokens_0;
            lexemes[i].start + token_len(text, lexemes[i].start) <= lexemes[j].start
        }),
    decreases text.len() - pos,
{
    if pos < text.len() {
        if ascii_whitespace(text[pos as int]) {
            lemma_tokens_in_order(text, pos + 1, i, j);
        } else {
            lemma_token_not_empty(text.skip(pos as int));
            let len = token_at(text.skip(pos as int))->Token_len;
            if i > 0 {
                lemma_tokens_in_order(text, pos + len, i - 1, j - 1);
            } else {
                lemma_token_is_token_at(text, pos + len, j - 1);
            }
        }
    }
}

/// Nothing but whitespace is passed over: every character of a text that
/// tokenizes is ASCII whitespace or lies within one of its tokens.
pub proof fn lemma_tokens_cover_text(text: Seq<char>, pos: nat, k: int) -> (i: int)
    requires
        scan(text, pos) is Tokens,
        pos <= k < text.len(),
        !ascii_whitespace(text[k]),
    ensures
        ({
            let lexemes = scan(text, pos)->Tokens_0;
            &&& 0 <= i < lexemes.len()
            &&& lexemes[i].start <= k < lexemes[i].start + token_len(text, lexemes[i].start)
        }),
    decreases text.len() - pos,
{
    if ascii_whitespace(text[pos as int]) {
        lemma_tokens_cover_text(text, pos + 1, k)
    } else {
        let len = token_at(text.skip(pos as int))->Token_len;
        if k < pos + len {
            0
        } else {
            lemma_tokens_cover_text(text, pos + len, k) + 1
        }
    }
}

/// A token stands on the line that the line feeds before it lead to: in a
/// text that starts on line 1, a token with `k` line feeds before its first
/// character stands on line `k + 1`. Its column is one more than the number
/// of characters between the last of those line feeds and the token; on the
/// line where the text starts, it is that many columns to the right of the
/// start.
pub proof fn lemma_token_line(text: Seq<char>, loc: Loc, i: int)
    requires
        has_room(loc, text.len()),
        scan(text, 0) matches Scan::Tokens(lexemes) && 0 <= i < lexemes.len(),
    ensures
        ({
            let lexeme = scan(text, 0)->Tokens_0[i];
            let before = text.take(lexeme.start as int);
            let token = tokenized(Cursor { remaining: text, loc })->0->Ok_0[i];
            &&& token.value == lexeme.kind
            &&& token.loc.line == loc.line + count_newlines(before)
            &&& count_newlines(before) == 0 ==> token.loc.column == loc.column + lexeme.start
            &&& count_newlines(before) > 0 ==> token.loc.column == 1 + line_tail(before)
        }),
{
    let lexeme = scan(text, 0)->Tokens_0[i];
    lemma_token_is_token_at(text, 0, i);
    lemma_counts_bounded(text.take(lexeme.start as int));
}

/// Tokenizing is a function of the text and of the position at which it
/// begins: whatever two runs over the same text from the same position
/// return has the same content. Both give nothing, or both give the same
/// error, or both give as many tokens, with the same kinds, texts and
/// positions in the same order.
pub proof fn lemma_lex_repeatable<'a, 'b>(
    first: Cursor,
    r1: Option<Result<Vec<Token<'a>>, LexError>>,
    second: Cursor,
    r2: Option<Result<Vec<Token<'b>>, LexError>>,
)
    requires
        first == second,
        try_lex_view(r1) == tokenized(first),
        try_lex_view(r2) == tokenized(second),
    ensures
        try_lex_view(r1) == try_lex_view(r2),
        r1 is None <==> r2 is None,
        r1 matches Some(Err(e)) ==> r2 == Some(Err::<Vec<Token<'b>>, LexError>(e)),
        r1 matches Some(Ok(v1)) ==> r2 matches Some(Ok(v2)) && v1@.len() == v2@.len()
            && forall|i: int| 0 <= i < v1@.len() ==> v1@[i]@ == v2@[i]@,
{
    if let Some(Ok(v1)) = r1 {
        let v2 = r2->0->Ok_0;
        assert(token_views(v1@) == token_views(v2@));
        assert forall|i: int| 0 <= i < v1@.len() implies v1@[i]@ == v2@[i]@ by {
            assert(token_views(v2@)[i] == v2@[i]@);
        }
    }
}

} // verus!
