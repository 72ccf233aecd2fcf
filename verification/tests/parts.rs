use c_lexer::lexer::numeral::{digit_of, parse_digits};
use c_lexer::lexer::token_stream::{
    is_ascii_space, is_decimal_digit, is_hex_digit, is_identifier_char, is_octal_digit,
    is_string_char, TokenStream,
};
use c_lexer::lexer::utf8::{byte_len, char_width, same_text, split_bytes, split_first};
use c_lexer::lexer::{Annot, LexError, LexErrorKind, Loc, Token, TokenKind};

fn at(line: u32, column: u32) -> Loc {
    Loc { line, column }
}

#[test]
fn punctuation_set() {
    let set = "!%&()*+,-/;<=>@[]{|}";
    for c in set.chars() {
        assert!(TokenKind::is_punct(c));
    }
    for code in 0u32..0x250 {
        let c = char::from_u32(code).unwrap();
        assert_eq!(TokenKind::is_punct(c), set.contains(c));
    }
    assert!(!TokenKind::is_punct('\u{ff01}'));
}

#[test]
fn candidates_for_a_following_equals() {
    let set = "!%&*+-/<=>|";
    for code in 0u32..0x250 {
        let c = char::from_u32(code).unwrap();
        assert_eq!(TokenKind::is_punct_eq_candidate(c), set.contains(c));
        if TokenKind::is_punct_eq_candidate(c) {
            assert!(TokenKind::is_punct(c));
        }
    }
}

#[test]
fn character_classes() {
    for code in 0u32..0x250 {
        let c = char::from_u32(code).unwrap();
        assert_eq!(is_ascii_space(&c), c.is_ascii_whitespace());
        assert_eq!(is_decimal_digit(&c), c.is_ascii_digit());
        assert_eq!(is_octal_digit(&c), "01234567".contains(c));
        assert_eq!(is_hex_digit(&c), c.is_ascii_hexdigit());
        assert_eq!(is_string_char(&c), c != '"');
        assert_eq!(
            is_identifier_char(&c),
            !c.is_ascii_whitespace() && !TokenKind::is_punct(c)
        );
    }
}

#[test]
fn annot_new_pairs_value_and_position() {
    let a = Annot::new('x', at(3, 4));
    assert_eq!(a.value, 'x');
    assert_eq!(a.loc, at(3, 4));
    assert_eq!(a, Annot { value: 'x', loc: at(3, 4) });
}

#[test]
fn token_constructors() {
    let loc = at(2, 7);
    assert_eq!(Token::number(42, loc), Annot { value: TokenKind::Number(42), loc });
    assert_eq!(Token::string_literal("s", loc), Annot { value: TokenKind::StringLiteral("s"), loc });
    assert_eq!(Token::char_literal('c', loc), Annot { value: TokenKind::CharLiteral('c'), loc });
    assert_eq!(Token::punct_eq('<', loc), Annot { value: TokenKind::PunctEq('<'), loc });
    assert_eq!(Token::punct('<', loc), Annot { value: TokenKind::Punct('<'), loc });
}

#[test]
fn error_constructors() {
    let loc = at(9, 1);
    assert_eq!(LexError::eof(loc), Annot { value: LexErrorKind::Eof, loc });
    assert_eq!(
        LexError::unexpected_char('?', loc),
        Annot { value: LexErrorKind::UnexpectedChar('?'), loc }
    );
}

#[test]
fn annotated_values_order_by_value_then_position() {
    let a = Annot { value: 1u8, loc: at(5, 5) };
    let b = Annot { value: 2u8, loc: at(1, 1) };
    let c = Annot { value: 2u8, loc: at(1, 2) };
    let d = Annot { value: 2u8, loc: at(2, 1) };
    assert!(a < b);
    assert!(b < c);
    assert!(c < d);
    assert_ne!(b, c);
}

#[test]
fn position_moves_by_character() {
    assert_eq!(at(1, 1).after_char('a'), at(1, 2));
    assert_eq!(at(3, 9).after_char('\n'), at(4, 1));
    assert_eq!(at(3, 9).after_char('\r'), at(3, 10));
    assert_eq!(at(3, 9).after_char('\u{1f600}'), at(3, 10));
}

#[test]
fn position_moves_by_text() {
    assert_eq!(at(1, 1).after_text(""), at(1, 1));
    assert_eq!(at(2, 5).after_text("abc"), at(2, 8));
    assert_eq!(at(2, 5).after_text("abc\n"), at(3, 1));
    assert_eq!(at(2, 5).after_text("a\nbc\nd\u{e9}f"), at(4, 4));
    assert_eq!(at(1, 1).after_text("\n\n\n"), at(4, 1));
}

#[test]
fn digit_values() {
    assert_eq!(digit_of('0'), Some(0));
    assert_eq!(digit_of('9'), Some(9));
    assert_eq!(digit_of('a'), Some(10));
    assert_eq!(digit_of('f'), Some(15));
    assert_eq!(digit_of('A'), Some(10));
    assert_eq!(digit_of('F'), Some(15));
    assert_eq!(digit_of('g'), None);
    assert_eq!(digit_of('G'), None);
    assert_eq!(digit_of('/'), None);
    assert_eq!(digit_of(':'), None);
    assert_eq!(digit_of('@'), None);
    assert_eq!(digit_of('`'), None);
    assert_eq!(digit_of('\u{661}'), None);
    for code in 0u32..0x250 {
        let c = char::from_u32(code).unwrap();
        assert_eq!(digit_of(c), c.to_digit(16).map(u64::from));
    }
}

#[test]
fn digits_in_each_base() {
    assert_eq!(parse_digits("0", 10), Some(0));
    assert_eq!(parse_digits("42", 10), Some(42));
    assert_eq!(parse_digits("0755", 8), Some(493));
    assert_eq!(parse_digits("1A", 16), Some(26));
    assert_eq!(parse_digits("1a", 16), Some(26));
    assert_eq!(parse_digits("ff", 16), Some(255));
    assert_eq!(parse_digits("101", 2), Some(5));
    assert_eq!(parse_digits("007", 10), Some(7));
}

#[test]
fn digits_agree_with_the_standard_library() {
    for text in ["1", "17", "255", "4096", "65535", "123456789", "777", "10"] {
        assert_eq!(parse_digits(text, 10), u64::from_str_radix(text, 10).ok());
        assert_eq!(parse_digits(text, 8), u64::from_str_radix(text, 8).ok());
        assert_eq!(parse_digits(text, 16), u64::from_str_radix(text, 16).ok());
    }
}

#[test]
fn digits_at_the_limit() {
    assert_eq!(parse_digits("18446744073709551615", 10), Some(u64::MAX));
    assert_eq!(parse_digits("18446744073709551616", 10), None);
    assert_eq!(parse_digits("18446744073709551620", 10), None);
    assert_eq!(parse_digits("99999999999999999999", 10), None);
    assert_eq!(parse_digits("ffffffffffffffff", 16), Some(u64::MAX));
    assert_eq!(parse_digits("10000000000000000", 16), None);
    assert_eq!(parse_digits("1777777777777777777777", 8), Some(u64::MAX));
    assert_eq!(parse_digits("2000000000000000000000", 8), None);
}

#[test]
fn no_digits_is_no_number() {
    assert_eq!(parse_digits("", 10), None);
    assert_eq!(parse_digits("", 16), None);
}

#[test]
fn digit_of_another_base_is_no_number() {
    assert_eq!(parse_digits("8", 8), None);
    assert_eq!(parse_digits("12a", 10), None);
    assert_eq!(parse_digits("fg", 16), None);
    assert_eq!(parse_digits("+1", 10), None);
    assert_eq!(parse_digits("-1", 10), None);
    assert_eq!(parse_digits("1 ", 10), None);
}

#[test]
fn widths_of_characters() {
    assert_eq!(char_width('a'), 1);
    assert_eq!(char_width('\u{7f}'), 1);
    assert_eq!(char_width('\u{80}'), 2);
    assert_eq!(char_width('\u{7ff}'), 2);
    assert_eq!(char_width('\u{800}'), 3);
    assert_eq!(char_width('\u{ffff}'), 3);
    assert_eq!(char_width('\u{10000}'), 4);
    assert_eq!(char_width('\u{10ffff}'), 4);
    for c in ['\0', '\n', 'z', '\u{e9}', '\u{3042}', '\u{d7ff}', '\u{e000}', '\u{1f600}'] {
        assert_eq!(char_width(c), c.len_utf8());
    }
}

#[test]
fn length_in_bytes() {
    assert_eq!(byte_len(""), 0);
    assert_eq!(byte_len("abc"), 3);
    assert_eq!(byte_len("\u{e9}\u{3042}\u{1f600}"), 9);
}

#[test]
fn cutting_at_a_byte_count() {
    assert_eq!(split_bytes("hello", 2), Some(("he", "llo")));
    assert_eq!(split_bytes("hello", 0), Some(("", "hello")));
    assert_eq!(split_bytes("hello", 5), Some(("hello", "")));
    assert_eq!(split_bytes("hello", 6), None);
    assert_eq!(split_bytes("", 0), Some(("", "")));
    assert_eq!(split_bytes("a\u{3042}b", 1), Some(("a", "\u{3042}b")));
    assert_eq!(split_bytes("a\u{3042}b", 2), None);
    assert_eq!(split_bytes("a\u{3042}b", 3), None);
    assert_eq!(split_bytes("a\u{3042}b", 4), Some(("a\u{3042}", "b")));
}

#[test]
fn parting_the_first_character() {
    assert_eq!(split_first(""), None);
    assert_eq!(split_first("a"), Some(('a', "")));
    assert_eq!(split_first("ab"), Some(('a', "b")));
    assert_eq!(split_first("\u{1f600}b"), Some(('\u{1f600}', "b")));
    assert_eq!(split_first("\u{e9}"), Some(('\u{e9}', "")));
}

#[test]
fn comparing_text() {
    assert!(same_text("", ""));
    assert!(same_text("abc", "abc"));
    assert!(!same_text("abc", "abd"));
    assert!(!same_text("abc", "ab"));
    assert!(!same_text("ab", "abc"));
    assert!(same_text("\u{3042}", "\u{3042}"));
    assert!(!same_text("\u{3042}", "\u{3044}"));
}

#[test]
fn skip_char_accepts_the_expected_character() {
    let mut ts = TokenStream::new("(x");
    assert_eq!(ts.skip_char('('), Ok(()));
    assert_eq!(ts.lex(), Ok(vec![Annot { value: TokenKind::Id("x"), loc: at(1, 2) }]));
}

#[test]
fn skip_char_reports_and_consumes_another_character() {
    let mut ts = TokenStream::new("\n)x");
    assert_eq!(ts.skip_char('\n'), Ok(()));
    assert_eq!(
        ts.skip_char('('),
        Err(Annot { value: LexErrorKind::UnexpectedChar(')'), loc: at(2, 1) })
    );
    assert_eq!(ts.lex(), Ok(vec![Annot { value: TokenKind::Id("x"), loc: at(2, 2) }]));
}

#[test]
fn skip_char_at_the_end_reports_the_end() {
    let mut ts = TokenStream::new("ab");
    assert_eq!(ts.skip_char('a'), Ok(()));
    assert_eq!(ts.skip_char('b'), Ok(()));
    assert_eq!(ts.skip_char('c'), Err(Annot { value: LexErrorKind::Eof, loc: at(1, 3) }));
}

#[test]
fn keyword_or_identifier_at_the_end_reports_the_end() {
    let mut ts = TokenStream::new("");
    assert_eq!(ts.lex_keyword_or_id(), Err(Annot { value: LexErrorKind::Eof, loc: at(1, 1) }));
    let mut later = TokenStream::new("a\n");
    assert_eq!(later.lex(), Ok(vec![Annot { value: TokenKind::Id("a"), loc: at(1, 1) }]));
    assert_eq!(later.lex_keyword_or_id(), Err(Annot { value: LexErrorKind::Eof, loc: at(2, 1) }));
}

#[test]
fn keyword_or_identifier_one_at_a_time() {
    let mut ts = TokenStream::new("sizeofx+");
    assert_eq!(ts.lex_keyword_or_id(), Ok(Annot { value: TokenKind::Sizeof, loc: at(1, 1) }));
    assert_eq!(ts.lex_keyword_or_id(), Ok(Annot { value: TokenKind::Id("x"), loc: at(1, 7) }));
    assert_eq!(ts.lex_keyword_or_id(), Ok(Annot { value: TokenKind::Id(""), loc: at(1, 8) }));
    assert_eq!(ts.lex(), Ok(vec![Annot { value: TokenKind::Punct('+'), loc: at(1, 8) }]));
}

#[test]
fn number_routine_reads_one_number() {
    let mut ts = TokenStream::new("0x10 017 19");
    assert_eq!(ts.lex_number(), Some(Annot { value: TokenKind::Number(16), loc: at(1, 1) }));
    assert_eq!(ts.skip_char(' '), Ok(()));
    assert_eq!(ts.lex_number(), Some(Annot { value: TokenKind::Number(15), loc: at(1, 6) }));
    assert_eq!(ts.skip_char(' '), Ok(()));
    assert_eq!(ts.lex_number(), Some(Annot { value: TokenKind::Number(19), loc: at(1, 10) }));
}

#[test]
fn number_routine_without_a_digit_reads_nothing() {
    let mut ts = TokenStream::new("x1");
    assert_eq!(ts.lex_number(), None);
    assert_eq!(ts.lex(), Ok(vec![Annot { value: TokenKind::Id("x1"), loc: at(1, 1) }]));
}

#[test]
fn number_routine_consumes_the_digits_of_a_number_too_large() {
    let mut ts = TokenStream::new("99999999999999999999 a");
    assert_eq!(ts.lex_number(), None);
    assert_eq!(ts.lex(), Ok(vec![Annot { value: TokenKind::Id("a"), loc: at(1, 22) }]));
}

#[test]
fn char_literal_routine() {
    let mut ts = TokenStream::new("'x''y");
    assert_eq!(
        ts.lex_char_literal(),
        Ok(Annot { value: TokenKind::CharLiteral('x'), loc: at(1, 1) })
    );
    assert_eq!(ts.lex_char_literal(), Err(Annot { value: LexErrorKind::Eof, loc: at(1, 6) }));
    let mut other = TokenStream::new("x'");
    assert_eq!(
        other.lex_char_literal(),
        Err(Annot { value: LexErrorKind::UnexpectedChar('x'), loc: at(1, 1) })
    );
    let mut empty = TokenStream::new("");
    assert_eq!(empty.lex_char_literal(), Err(Annot { value: LexErrorKind::Eof, loc: at(1, 1) }));
}

#[test]
fn string_literal_routine() {
    let mut ts = TokenStream::new("\"ab\"\"\"x");
    assert_eq!(
        ts.lex_string_literal(),
        Ok(Annot { value: TokenKind::StringLiteral("ab"), loc: at(1, 1) })
    );
    assert_eq!(
        ts.lex_string_literal(),
        Ok(Annot { value: TokenKind::StringLiteral(""), loc: at(1, 5) })
    );
    assert_eq!(
        ts.lex_string_literal(),
        Err(Annot { value: LexErrorKind::UnexpectedChar('x'), loc: at(1, 7) })
    );
    assert_eq!(ts.lex_string_literal(), Err(Annot { value: LexErrorKind::Eof, loc: at(1, 8) }));
}

#[test]
fn punctuator_routine() {
    let mut ts = TokenStream::new("+=+;=");
    assert_eq!(
        ts.lex_punct_or_punct_eq(),
        Ok(Annot { value: TokenKind::PunctEq('+'), loc: at(1, 1) })
    );
    assert_eq!(
        ts.lex_punct_or_punct_eq(),
        Ok(Annot { value: TokenKind::Punct('+'), loc: at(1, 3) })
    );
    assert_eq!(
        ts.lex_punct_or_punct_eq(),
        Ok(Annot { value: TokenKind::Punct(';'), loc: at(1, 4) })
    );
    assert_eq!(
        ts.lex_punct_or_punct_eq(),
        Ok(Annot { value: TokenKind::Punct('='), loc: at(1, 5) })
    );
}
