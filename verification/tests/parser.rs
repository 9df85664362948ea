use dotcfg::cursor::{Base, Keyword, Token, TokenKind};
use dotcfg::literal::{decode_escape, digit_of, parse_digits, unescape_range};
use dotcfg::parse::{IntWidth, MapPath, ParseError, ParseErrorKind, Parser, SpanToken};
use dotcfg::text::{char_width, chars_of, measure};

fn kind_of<T: std::fmt::Debug>(r: Result<T, ParseError>) -> ParseErrorKind {
    r.unwrap_err().kind
}

#[test]
fn signed_minimum_parses_exactly() {
    let mut p = Parser::new("-9223372036854775808");
    assert_eq!(p.parse_signed(IntWidth::W64), Ok(i64::MIN));
    assert!(p.peek_eof());
}

#[test]
fn signed_magnitude_one_past_maximum_is_invalid() {
    let mut p = Parser::new("9223372036854775808");
    assert_eq!(kind_of(p.parse_signed(IntWidth::W64)), ParseErrorKind::InvalidInteger);
    let mut p = Parser::new("-9223372036854775809");
    assert_eq!(kind_of(p.parse_signed(IntWidth::W64)), ParseErrorKind::InvalidInteger);
    let mut p = Parser::new("9223372036854775807");
    assert_eq!(p.parse_signed(IntWidth::W64), Ok(i64::MAX));
}

#[test]
fn integers_in_every_base_give_the_same_value() {
    for src in ["255", "0xff", "0xFF", "0o377", "0b11111111"] {
        let mut p = Parser::new(src);
        assert_eq!(p.parse_unsigned(IntWidth::W64), Ok(255), "{}", src);
        let mut p = Parser::new(src);
        assert_eq!(p.parse_unsigned(IntWidth::W8), Ok(255), "{}", src);
        let mut p = Parser::new(src);
        assert_eq!(p.parse_signed(IntWidth::W16), Ok(255), "{}", src);
    }
    for src in ["-255", "-0xff", "-0o377", "-0b11111111"] {
        let mut p = Parser::new(src);
        assert_eq!(p.parse_signed(IntWidth::W64), Ok(-255), "{}", src);
    }
    let decimal = format!("{}", u64::MAX);
    let mut p = Parser::new(&decimal);
    assert_eq!(p.parse_unsigned(IntWidth::W64), Ok(u64::MAX));
    let hex = format!("{:#x}", u64::MAX);
    let mut p = Parser::new(&hex);
    assert_eq!(p.parse_unsigned(IntWidth::W64), Ok(u64::MAX));
    let mut p = Parser::new("18446744073709551616");
    assert_eq!(kind_of(p.parse_unsigned(IntWidth::W64)), ParseErrorKind::InvalidInteger);
}

#[test]
fn integers_narrow_to_the_width() {
    let mut p = Parser::new("256");
    assert_eq!(kind_of(p.parse_unsigned(IntWidth::W8)), ParseErrorKind::InvalidInteger);
    let mut p = Parser::new("65535");
    assert_eq!(p.parse_unsigned(IntWidth::W16), Ok(65535));
    let mut p = Parser::new("65536");
    assert_eq!(kind_of(p.parse_unsigned(IntWidth::W16)), ParseErrorKind::InvalidInteger);
    let mut p = Parser::new("4294967296");
    assert_eq!(kind_of(p.parse_unsigned(IntWidth::W32)), ParseErrorKind::InvalidInteger);
    let mut p = Parser::new("-128");
    assert_eq!(p.parse_signed(IntWidth::W8), Ok(-128));
    let mut p = Parser::new("-129");
    assert_eq!(kind_of(p.parse_signed(IntWidth::W8)), ParseErrorKind::InvalidInteger);
    let mut p = Parser::new("128");
    assert_eq!(kind_of(p.parse_signed(IntWidth::W8)), ParseErrorKind::InvalidInteger);
    let mut p = Parser::new("-2147483648");
    assert_eq!(p.parse_signed(IntWidth::W32), Ok(-2147483648));
    let mut p = Parser::new("-0");
    assert_eq!(p.parse_signed(IntWidth::W64), Ok(0));
}

#[test]
fn integer_expectations() {
    let mut p = Parser::new("-1");
    assert_eq!(
        kind_of(p.parse_unsigned(IntWidth::W64)),
        ParseErrorKind::ExpectedInteger { signed: false }
    );
    let mut p = Parser::new("x");
    assert_eq!(
        kind_of(p.parse_signed(IntWidth::W64)),
        ParseErrorKind::ExpectedInteger { signed: true }
    );
    // digits that the base does not have, separators, and empty digit spans
    for src in ["0o9", "0b2", "1_000", "0x", "-"] {
        let mut p = Parser::new(src);
        assert_eq!(kind_of(p.parse_signed(IntWidth::W64)), ParseErrorKind::InvalidInteger, "{}", src);
    }
    let mut p = Parser::new("1 -2 x");
    assert_eq!(p.try_parse_uint(), Some(Ok(1)));
    assert_eq!(p.try_parse_uint(), None);
    assert_eq!(p.try_parse_int(), Some(Ok(-2)));
    assert_eq!(p.try_parse_int(), None);
    assert_eq!(p.next_token().token.kind, TokenKind::Ident);
}

#[test]
fn hex_escape_above_7f_fails() {
    let mut p = Parser::new("\"\\x80\"");
    assert_eq!(kind_of(p.parse_string()), ParseErrorKind::InvalidEscape { pos: 1 });
    let mut p = Parser::new("\"\\x7f\"");
    assert_eq!(p.parse_string(), Ok("\u{7f}".to_string()));
    let mut p = Parser::new("\"\\x41\"");
    assert_eq!(p.parse_string(), Ok("A".to_string()));
}

#[test]
fn unicode_escape_gives_the_scalar() {
    let mut p = Parser::new("\"\\u{1F600}\"");
    assert_eq!(p.parse_string(), Ok("\u{1F600}".to_string()));
    let mut p = Parser::new("\"\\u{41}\\u{e9}\\u{10FFFF}\"");
    assert_eq!(p.parse_string(), Ok("A\u{e9}\u{10FFFF}".to_string()));
    for src in [
        "\"\\u{}\"",
        "\"\\u{1234567}\"",
        "\"\\u{D800}\"",
        "\"\\u{110000}\"",
        "\"\\u{12\"",
        "\"\\u12\"",
        "\"\\u{1g}\"",
    ] {
        let mut p = Parser::new(src);
        assert_eq!(kind_of(p.parse_string()), ParseErrorKind::InvalidEscape { pos: 1 }, "{}", src);
    }
}

#[test]
fn simple_escapes_expand() {
    let mut p = Parser::new("\"a\\n\\r\\t\\0\\\\\\\"b\"");
    assert_eq!(p.parse_string(), Ok("a\n\r\t\0\\\"b".to_string()));
    let mut p = Parser::new("\"\"");
    assert_eq!(p.parse_string(), Ok(String::new()));
    let mut p = Parser::new("\"h\u{e9}llo\"");
    assert_eq!(p.parse_string(), Ok("h\u{e9}llo".to_string()));
    let mut p = Parser::new("\"ab\\q\"");
    assert_eq!(kind_of(p.parse_string()), ParseErrorKind::InvalidEscape { pos: 3 });
    let mut p = Parser::new("\"\\x4\"");
    assert_eq!(kind_of(p.parse_string()), ParseErrorKind::InvalidEscape { pos: 1 });
}

#[test]
fn string_expectations() {
    let mut p = Parser::new("\"abc");
    assert_eq!(kind_of(p.parse_string()), ParseErrorKind::StringUnterminated);
    let mut p = Parser::new("abc");
    assert_eq!(kind_of(p.parse_string()), ParseErrorKind::ExpectedString);
    let mut p = Parser::new("abc");
    assert!(p.try_parse_string().is_none());
    assert_eq!(p.next_token().token.kind, TokenKind::Ident);
    let mut p = Parser::new(" \"x\" ");
    assert_eq!(p.try_parse_string(), Some(Ok("x".to_string())));
    assert!(p.peek_eof());
}

#[test]
fn unescape_on_characters() {
    let chars = chars_of("x\"a\\tb\"y");
    assert_eq!(unescape_range(&chars, 1, 7), Ok("a\tb".to_string()));
    assert_eq!(unescape_range(&chars, 1, 3), Ok("a".to_string()));
    assert_eq!(unescape_range(&chars, 1, 4), Err(2));
    let chars = chars_of("\"\\");
    assert_eq!(unescape_range(&chars, 0, 2), Err(1));
    assert_eq!(unescape_range(&chars, 0, 0), Ok(String::new()));
    let chars = chars_of("\"\\u{1F600}\"");
    assert_eq!(decode_escape(&chars, 0, chars.len(), 1), Some(('\u{1F600}', 7)));
    let chars = chars_of("\"\\x41\"");
    assert_eq!(decode_escape(&chars, 0, chars.len(), 1), Some(('A', 2)));
    let chars = chars_of("\"\\n\"");
    assert_eq!(decode_escape(&chars, 0, chars.len(), 1), Some(('\n', 0)));
}

#[test]
fn digits_in_a_radix() {
    let chars = chars_of("ff 123 z 18446744073709551615 18446744073709551616");
    assert_eq!(parse_digits(&chars, 0, 2, 16), Some(255));
    assert_eq!(parse_digits(&chars, 0, 2, 10), None);
    assert_eq!(parse_digits(&chars, 3, 6, 10), Some(123));
    assert_eq!(parse_digits(&chars, 3, 6, 8), Some(83));
    assert_eq!(parse_digits(&chars, 3, 3, 10), None);
    assert_eq!(parse_digits(&chars, 7, 8, 36), Some(35));
    assert_eq!(parse_digits(&chars, 9, 29, 10), Some(u64::MAX));
    assert_eq!(parse_digits(&chars, 30, 50, 10), None);
    assert_eq!(digit_of('7', 8), Some(7));
    assert_eq!(digit_of('8', 8), None);
    assert_eq!(digit_of('F', 16), Some(15));
    assert_eq!(digit_of('g', 16), None);
    assert_eq!(digit_of('_', 16), None);
}

#[test]
fn widths_and_measures() {
    assert_eq!(char_width('a'), 1);
    assert_eq!(char_width('\u{e9}'), 2);
    assert_eq!(char_width('\u{20ac}'), 3);
    assert_eq!(char_width('\u{1F600}'), 4);
    let chars = chars_of("a\n\u{e9}b\n\u{1F600}c");
    assert_eq!(chars.len(), 7);
    assert_eq!(measure(&chars, 0, 7), (2, 5, 11));
    assert_eq!(measure(&chars, 0, 1), (0, 1, 1));
    assert_eq!(measure(&chars, 0, 2), (1, 0, 2));
    assert_eq!(measure(&chars, 3, 3), (0, 0, 0));
}

#[test]
fn null_and_bool() {
    let mut p = Parser::new("null true false");
    assert_eq!(p.parse_null(), Ok(()));
    assert_eq!(p.parse_bool(), Ok(true));
    assert_eq!(p.parse_bool(), Ok(false));
    let mut p = Parser::new("\"true\"");
    assert_eq!(kind_of(p.parse_bool()), ParseErrorKind::ExpectedBool);
    let mut p = Parser::new("true");
    assert_eq!(kind_of(p.parse_null()), ParseErrorKind::ExpectedNull);
    let mut p = Parser::new("true null");
    assert_eq!(p.try_parse_null(), None);
    assert_eq!(p.try_parse_bool(), Some(Ok(true)));
    assert_eq!(p.try_parse_bool(), None);
    assert_eq!(p.try_parse_null(), Some(Ok(())));
    assert!(p.peek_eof());
}

#[test]
fn delimiters() {
    let mut p = Parser::new("{ = } [ ]");
    assert_eq!(p.start_map(), Ok(()));
    assert_eq!(p.map_delimiter(), Ok(()));
    assert!(p.peek_end_map());
    assert_eq!(p.end_map(), Ok(()));
    assert_eq!(p.start_list(), Ok(()));
    assert!(p.peek_end_list());
    assert_eq!(p.end_list(), Ok(()));
    let mut p = Parser::new("x");
    assert_eq!(kind_of(p.start_map()), ParseErrorKind::ExpectedMapStart);
    let mut p = Parser::new("x");
    assert_eq!(kind_of(p.end_map()), ParseErrorKind::ExpectedMapEnd);
    let mut p = Parser::new("x");
    assert_eq!(kind_of(p.start_list()), ParseErrorKind::ExpectedListStart);
    let mut p = Parser::new("x");
    assert_eq!(kind_of(p.end_list()), ParseErrorKind::ExpectedListEnd);
    let mut p = Parser::new(":");
    assert_eq!(kind_of(p.map_delimiter()), ParseErrorKind::ExpectedEqual);
}

#[test]
fn try_never_consumes_on_a_mismatch() {
    let mut p = Parser::new("  x");
    assert_eq!(p.try_start_map(), None);
    assert_eq!(p.try_start_list(), None);
    assert_eq!(p.try_map_delimiter(), None);
    assert_eq!(p.try_end_map(), None);
    assert_eq!(p.try_end_list(), None);
    assert!(p.try_parse_float().is_none());
    assert!(!p.peek_end_map());
    assert!(!p.peek_end_list());
    let t = p.next_token();
    assert_eq!(
        t,
        SpanToken { token: Token { kind: TokenKind::Ident, start: 2, end: 3 }, line: 0, col: 2 }
    );
    let mut p = Parser::new("{[=]}");
    assert_eq!(p.try_start_map(), Some(()));
    assert_eq!(p.try_start_list(), Some(()));
    assert_eq!(p.try_map_delimiter(), Some(()));
    assert_eq!(p.try_end_list(), Some(()));
    assert_eq!(p.try_end_map(), Some(()));
    assert!(p.peek_eof());
}

#[test]
fn list_of_three_integers_without_separators() {
    let mut p = Parser::new("[1 2 3]");
    assert_eq!(p.start_list(), Ok(()));
    let mut items = Vec::new();
    while !p.peek_end_list() {
        items.push(p.parse_unsigned(IntWidth::W64).unwrap());
    }
    assert_eq!(p.end_list(), Ok(()));
    assert_eq!(items, vec![1, 2, 3]);
    assert!(p.peek_eof());
}

#[test]
fn float_tokens_hand_out_their_text() {
    let mut p = Parser::new(" 1.5e3 x");
    let (tok, text) = p.parse_float().unwrap();
    assert_eq!(text, "1.5e3");
    assert_eq!(text.parse::<f64>(), Ok(1500.0));
    assert_eq!(tok.token, Token { kind: TokenKind::Float, start: 1, end: 6 });
    assert_eq!(kind_of(p.parse_float().map(|f| f.1)), ParseErrorKind::ExpectedFloat);
    let mut p = Parser::new("2e5");
    let found = p.try_parse_float().unwrap().unwrap();
    assert_eq!(found.1, "2e5");
    // a float token that is no number is left to the caller to refuse
    let mut p = Parser::new("1e");
    let (tok, text) = p.parse_float().unwrap();
    assert!(text.parse::<f64>().is_err());
    let err = ParseError::new(tok, ParseErrorKind::InvalidFloat);
    assert_eq!(err.kind, ParseErrorKind::InvalidFloat);
}

#[test]
fn dotted_paths() {
    let mut p = Parser::new("a.b.c = 1");
    assert_eq!(
        p.parse_path(),
        Ok(MapPath { key: "a".to_string(), path: vec!["b".to_string(), "c".to_string()] })
    );
    assert_eq!(p.map_delimiter(), Ok(()));
    let mut p = Parser::new("solo");
    assert_eq!(p.parse_path(), Ok(MapPath { key: "solo".to_string(), path: vec![] }));
    // a blank before the dot ends the chain
    let mut p = Parser::new("a .b");
    assert_eq!(p.parse_path(), Ok(MapPath { key: "a".to_string(), path: vec![] }));
    assert_eq!(p.next_token().token.kind, TokenKind::Dot);
    // a blank after the dot is no identifier
    let mut p = Parser::new("a. b");
    let err = p.parse_path().unwrap_err();
    assert_eq!(err.kind, ParseErrorKind::ExpectedIdent);
    assert_eq!(err.token.token.kind, TokenKind::Whitespace);
    assert_eq!((err.token.line, err.token.col), (0, 2));
    let mut p = Parser::new("a.1");
    assert_eq!(kind_of(p.parse_path()), ParseErrorKind::ExpectedIdent);
    let mut p = Parser::new("1");
    assert_eq!(kind_of(p.parse_path()), ParseErrorKind::ExpectedIdent);
    let mut p = Parser::new("1 a.b");
    assert!(p.try_parse_path().is_none());
    assert_eq!(p.parse_unsigned(IntWidth::W8), Ok(1));
    assert_eq!(
        p.try_parse_path(),
        Some(Ok(MapPath { key: "a".to_string(), path: vec!["b".to_string()] }))
    );
}

#[test]
fn lines_and_columns() {
    let mut p = Parser::new("a\n  b\r\n\u{e9} c");
    let a = p.next_token();
    assert_eq!((a.line, a.col), (0, 0));
    let b = p.next_token();
    assert_eq!((b.line, b.col), (1, 2));
    let e = p.next_token();
    assert_eq!((e.line, e.col), (2, 0));
    let c = p.next_token();
    assert_eq!((c.line, c.col), (2, 3));
    let end = p.next_token();
    assert_eq!(end.token.kind, TokenKind::Eof);
    assert_eq!((end.line, end.col), (2, 4));
    assert_eq!(p.src(b.token), "b");
}

#[test]
fn comment_newline_counts_once() {
    let mut p = Parser::new("a // note\nb");
    let a = p.next_token();
    assert_eq!((a.line, a.col), (0, 0));
    let b = p.next_token();
    assert_eq!(b.token.kind, TokenKind::Ident);
    assert_eq!((b.line, b.col), (1, 0));
    let mut p = Parser::new("// one\n// two\n  x");
    let x = p.next_token();
    assert_eq!((x.line, x.col), (2, 2));
    let mut p = Parser::new("// one\n\nx");
    let x = p.next_token();
    assert_eq!((x.line, x.col), (2, 0));
}

#[test]
fn lookahead_respects_the_current_skip_mode() {
    let mut p = Parser::new("a .b");
    assert_eq!(p.next_token().token.kind, TokenKind::Ident);
    // a look without skipping sees the blank and holds it back
    assert_eq!(p.peek_no_skip().token.kind, TokenKind::Whitespace);
    assert_eq!(p.peek_no_skip().token.kind, TokenKind::Whitespace);
    // in skip mode the held blank is passed over
    assert_eq!(p.peek_token().token.kind, TokenKind::Dot);
    assert_eq!(p.peek_token().token.kind, TokenKind::Dot);
    assert_eq!(p.next_no_skip().token.kind, TokenKind::Dot);
    assert_eq!(p.next_token().token.kind, TokenKind::Ident);
    assert!(p.peek_eof());
    assert_eq!(p.next_token().token.kind, TokenKind::Eof);
    assert_eq!(p.next_token().token.kind, TokenKind::Eof);
    let mut p = Parser::new(" a");
    assert_eq!(p.next_no_skip().token.kind, TokenKind::Whitespace);
    assert!(p.skip);
}

#[test]
fn error_points_at_the_next_token() {
    let mut p = Parser::new("x = }");
    assert_eq!(p.next_token().token.kind, TokenKind::Ident);
    assert_eq!(p.map_delimiter(), Ok(()));
    let err = p.error(ParseErrorKind::UnknownToken);
    assert_eq!(
        err,
        ParseError {
            token: SpanToken {
                token: Token { kind: TokenKind::EndCurly, start: 4, end: 5 },
                line: 0,
                col: 4
            },
            kind: ParseErrorKind::UnknownToken
        }
    );
    assert_eq!(p.next_token().token.kind, TokenKind::EndCurly);
    let k = TokenKind::Integer { sign: false, base: Base::Dec };
    assert_ne!(k, TokenKind::Keyword(Keyword::Null));
}

#[test]
fn integers_narrow_to_the_type_asked_for() {
    let mut p = Parser::new("255 256 -128 -129 0x7fffffff 18446744073709551615 -9223372036854775808");
    assert_eq!(p.parse_uint::<u8>(), Ok(255u8));
    let err = p.parse_uint::<u8>().unwrap_err();
    assert_eq!(err.kind, ParseErrorKind::InvalidInteger);
    assert_eq!(err.token.token, Token { kind: TokenKind::Integer { sign: false, base: Base::Dec }, start: 4, end: 7 });
    assert_eq!(p.parse_int::<i8>(), Ok(-128i8));
    assert_eq!(kind_of(p.parse_int::<i8>()), ParseErrorKind::InvalidInteger);
    assert_eq!(p.parse_int::<i32>(), Ok(i32::MAX));
    assert_eq!(p.parse_uint::<u64>(), Ok(u64::MAX));
    assert_eq!(p.parse_int::<i64>(), Ok(i64::MIN));
    assert!(p.peek_eof());
    let mut p = Parser::new("-1");
    assert_eq!(kind_of(p.parse_uint::<u16>()), ParseErrorKind::ExpectedInteger { signed: false });
    let mut p = Parser::new("70000");
    assert_eq!(kind_of(p.parse_uint::<u16>()), ParseErrorKind::InvalidInteger);
    let mut p = Parser::new("70000");
    assert_eq!(p.parse_uint::<u32>(), Ok(70000u32));
    let mut p = Parser::new("true");
    assert_eq!(kind_of(p.parse_int::<i16>()), ParseErrorKind::ExpectedInteger { signed: true });
}
