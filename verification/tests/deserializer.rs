use dotcfg::cursor::{Token, TokenKind};
use dotcfg::de::{Deserializer, EnumForm, PathLevel, Shape, TopDeserializer, ValueForm};
use dotcfg::error::{Error, ErrorKind};
use dotcfg::parse::{IntWidth, ParseError, ParseErrorKind, SpanToken};

fn parse_kind<T: std::fmt::Debug>(r: Result<T, Error>) -> ParseError {
    match r.unwrap_err().kind() {
        ErrorKind::Parse(e) => e.clone(),
        other => panic!("not a parse error: {:?}", other),
    }
}

#[test]
fn dotted_key_nests_maps() {
    // {a.b.c = 1} is seen as {a: {b: {c: 1}}}
    let mut de = Deserializer::from_str("{a.b.c = 1}");
    assert_eq!(de.any_shape().unwrap(), Shape::Table);
    assert_eq!(de.parser.start_map(), Ok(()));
    assert_eq!(de.next_key().unwrap(), Some("a".to_string()));
    assert_eq!(de.next_value().unwrap(), ValueForm::Nested);
    assert_eq!(de.key().unwrap(), "b");
    assert_eq!(de.next_value().unwrap(), ValueForm::Nested);
    assert_eq!(de.key().unwrap(), "c");
    assert_eq!(de.next_value().unwrap(), ValueForm::Plain);
    assert_eq!(de.any_shape().unwrap(), Shape::Unsigned);
    assert_eq!(de.parser.parse_unsigned(IntWidth::W64), Ok(1));
    assert_eq!(de.next_key().unwrap(), None);
    assert!(de.parser.peek_eof());
}

#[test]
fn top_level_entry_without_braces() {
    let mut top = TopDeserializer::from_str("color = \"red\"");
    assert_eq!(top.next_key().unwrap(), Some("color".to_string()));
    assert_eq!(top.next_value().unwrap(), ValueForm::Plain);
    assert_eq!(top.de.any_shape().unwrap(), Shape::Text);
    assert_eq!(top.de.parser.parse_string(), Ok("red".to_string()));
    assert_eq!(top.next_key().unwrap(), None);
    assert_eq!(top.next_key().unwrap(), None);
}

#[test]
fn empty_document_has_no_entries() {
    let mut top = TopDeserializer::from_str("  // nothing\n");
    assert_eq!(top.next_key().unwrap(), None);
}

#[test]
fn tagged_union_with_one_payload() {
    let mut top = TopDeserializer::from_str("tag = {variant = 5}");
    assert_eq!(top.next_key().unwrap(), Some("tag".to_string()));
    assert_eq!(top.next_value().unwrap(), ValueForm::Plain);
    let de = &mut top.de;
    assert!(matches!(de.enum_form().unwrap(), EnumForm::Tagged));
    assert_eq!(de.variant_name().unwrap(), "variant");
    assert!(de.variant_payload().is_ok());
    assert_eq!(de.any_shape().unwrap(), Shape::Unsigned);
    assert_eq!(de.parser.parse_unsigned(IntWidth::W64), Ok(5));
    assert!(de.end_enum().is_ok());
    assert_eq!(top.next_key().unwrap(), None);
}

#[test]
fn tagged_union_forms() {
    let mut de = Deserializer::from_str("\"plain\"");
    match de.enum_form().unwrap() {
        EnumForm::Unit(name) => assert_eq!(name, "plain"),
        EnumForm::Tagged => panic!("a string names a unit variant"),
    }
    let mut de = Deserializer::from_str("{ none = null }");
    assert!(matches!(de.enum_form().unwrap(), EnumForm::Tagged));
    assert_eq!(de.variant_name().unwrap(), "none");
    assert!(de.unit_variant().is_ok());
    assert!(de.end_enum().is_ok());
    let mut de = Deserializer::from_str("{v = 1}");
    assert!(matches!(de.enum_form().unwrap(), EnumForm::Tagged));
    assert_eq!(de.variant_name().unwrap(), "v");
    assert_eq!(parse_kind(de.unit_variant()).kind, ParseErrorKind::ExpectedNull);
    let mut de = Deserializer::from_str("{v 1}");
    assert!(matches!(de.enum_form().unwrap(), EnumForm::Tagged));
    assert_eq!(de.variant_name().unwrap(), "v");
    assert_eq!(parse_kind(de.variant_payload()).kind, ParseErrorKind::ExpectedEqual);
    let mut de = Deserializer::from_str("{\"v\" = 1}");
    assert!(matches!(de.enum_form().unwrap(), EnumForm::Tagged));
    assert_eq!(parse_kind(de.variant_name()).kind, ParseErrorKind::ExpectedIdent);
    let mut de = Deserializer::from_str("{v = 1 w");
    assert!(matches!(de.enum_form().unwrap(), EnumForm::Tagged));
    assert_eq!(de.variant_name().unwrap(), "v");
    assert!(de.variant_payload().is_ok());
    assert_eq!(de.parser.parse_unsigned(IntWidth::W8), Ok(1));
    assert_eq!(parse_kind(de.end_enum()).kind, ParseErrorKind::ExpectedMapEnd);
    let mut de = Deserializer::from_str("\"\\q\"");
    assert_eq!(parse_kind(de.enum_form()).kind, ParseErrorKind::InvalidEscape { pos: 1 });
}

#[test]
fn other_tokens_are_no_tagged_union() {
    let mut de = Deserializer::from_str("5");
    let err = de.enum_form().unwrap_err();
    match err.kind() {
        ErrorKind::Message(m) => assert_eq!(m, "expected an enum"),
        other => panic!("not a message: {:?}", other),
    }
    assert_eq!(de.parser.parse_unsigned(IntWidth::W64), Ok(5));
}

#[test]
fn closing_brace_where_a_value_is_expected() {
    let mut top = TopDeserializer::from_str("x = }");
    assert_eq!(top.next_key().unwrap(), Some("x".to_string()));
    assert_eq!(top.next_value().unwrap(), ValueForm::Plain);
    let err = parse_kind(top.de.any_shape());
    assert_eq!(
        err,
        ParseError {
            token: SpanToken {
                token: Token { kind: TokenKind::EndCurly, start: 4, end: 5 },
                line: 0,
                col: 4
            },
            kind: ParseErrorKind::UnknownToken
        }
    );
    let mut top = TopDeserializer::from_str("first = 1\nx =\n   }");
    assert_eq!(top.next_key().unwrap(), Some("first".to_string()));
    assert_eq!(top.next_value().unwrap(), ValueForm::Plain);
    assert_eq!(top.de.parser.parse_unsigned(IntWidth::W64), Ok(1));
    assert_eq!(top.next_key().unwrap(), Some("x".to_string()));
    assert_eq!(top.next_value().unwrap(), ValueForm::Plain);
    let err = parse_kind(top.de.any_shape());
    assert_eq!(err.token.token.kind, TokenKind::EndCurly);
    assert_eq!((err.token.line, err.token.col), (2, 3));
}

#[test]
fn shapes_follow_the_next_token() {
    let cases = [
        ("null", Shape::Unit),
        ("true", Shape::Bool),
        ("false", Shape::Bool),
        ("7", Shape::Unsigned),
        ("0x7", Shape::Unsigned),
        ("-7", Shape::Signed),
        ("7.5", Shape::Float),
        ("\"s\"", Shape::Text),
        ("\"open", Shape::Text),
        ("[", Shape::List),
        ("{", Shape::Table),
    ];
    for (src, shape) in cases {
        let mut de = Deserializer::from_str(src);
        assert_eq!(de.any_shape().unwrap(), shape, "{}", src);
        assert_eq!(de.any_shape().unwrap(), shape, "{}", src);
    }
    for src in ["]", "}", "=", ".", "name", "@", ""] {
        let mut de = Deserializer::from_str(src);
        assert_eq!(parse_kind(de.any_shape()).kind, ParseErrorKind::UnknownToken, "{}", src);
    }
}

#[test]
fn sequences_end_at_the_bracket() {
    let mut de = Deserializer::from_str("[true [] null]");
    assert_eq!(de.parser.start_list(), Ok(()));
    assert!(de.next_element());
    assert_eq!(de.parser.parse_bool(), Ok(true));
    assert!(de.next_element());
    assert_eq!(de.parser.start_list(), Ok(()));
    assert!(!de.next_element());
    assert!(de.next_element());
    assert!(de.option_is_none());
    assert!(!de.next_element());
    assert!(de.parser.peek_eof());
}

#[test]
fn optional_values() {
    let mut de = Deserializer::from_str("null 3");
    assert!(de.option_is_none());
    assert!(!de.option_is_none());
    assert_eq!(de.parser.parse_unsigned(IntWidth::W64), Ok(3));
}

#[test]
fn keys_are_identifiers_only() {
    let mut de = Deserializer::from_str("{\"a\" = 1}");
    assert_eq!(de.parser.start_map(), Ok(()));
    let err = parse_kind(de.next_key());
    assert_eq!(err.kind, ParseErrorKind::ExpectedIdent);
    assert_eq!(err.token.token.kind, TokenKind::String { terminated: true });
    let mut de = Deserializer::from_str("{a : 1}");
    assert_eq!(de.parser.start_map(), Ok(()));
    assert_eq!(de.next_key().unwrap(), Some("a".to_string()));
    assert_eq!(parse_kind(de.next_value()).kind, ParseErrorKind::ExpectedEqual);
    let mut de = Deserializer::from_str("{a. b = 1}");
    assert_eq!(de.parser.start_map(), Ok(()));
    assert_eq!(de.next_key().unwrap(), Some("a".to_string()));
    assert_eq!(de.next_value().unwrap(), ValueForm::Nested);
    assert_eq!(parse_kind(de.key()).kind, ParseErrorKind::ExpectedIdent);
    let mut top = TopDeserializer::from_str("a .b = 1");
    assert_eq!(top.next_key().unwrap(), Some("a".to_string()));
    assert_eq!(parse_kind(top.next_value()).kind, ParseErrorKind::ExpectedEqual);
}

#[test]
fn map_with_several_entries() {
    let mut de = Deserializer::from_str("{ a = 1\n b-c = \"x\" }");
    assert_eq!(de.parser.start_map(), Ok(()));
    assert_eq!(de.next_key().unwrap(), Some("a".to_string()));
    assert_eq!(de.next_value().unwrap(), ValueForm::Plain);
    assert_eq!(de.parser.parse_signed(IntWidth::W32), Ok(1));
    assert_eq!(de.next_key().unwrap(), Some("b-c".to_string()));
    assert_eq!(de.next_value().unwrap(), ValueForm::Plain);
    assert_eq!(de.parser.parse_string(), Ok("x".to_string()));
    assert_eq!(de.next_key().unwrap(), None);
}

#[test]
fn error_wraps_its_three_sources() {
    let e = Error::custom("boom");
    assert!(matches!(e.kind(), ErrorKind::Message(m) if m == "boom"));
    let tok = SpanToken { token: Token { kind: TokenKind::Eof, start: 0, end: 0 }, line: 0, col: 0 };
    let pe = ParseError::new(tok, ParseErrorKind::ExpectedString);
    let e = Error::parse(pe.clone());
    assert!(matches!(e.kind(), ErrorKind::Parse(p) if *p == pe));
    let e = Error::io(std::io::Error::new(std::io::ErrorKind::Other, "disk"));
    assert!(matches!(e.kind(), ErrorKind::Io(i) if i.kind() == std::io::ErrorKind::Other));
}

#[test]
fn errors_convert_from_their_sources() {
    let tok = SpanToken { token: Token { kind: TokenKind::Dot, start: 1, end: 2 }, line: 0, col: 1 };
    let pe = ParseError::new(tok, ParseErrorKind::ExpectedEqual);
    let e: Error = pe.clone().into();
    assert!(matches!(e.kind(), ErrorKind::Parse(p) if *p == pe));
    let e = Error::from(std::io::Error::new(std::io::ErrorKind::NotFound, "gone"));
    assert!(matches!(e.kind(), ErrorKind::Io(i) if i.kind() == std::io::ErrorKind::NotFound));
}

#[test]
fn each_level_of_a_dotted_key_has_one_entry() {
    let mut top = TopDeserializer::from_str("a.b.c = 1 d = 2");
    assert_eq!(top.next_key().unwrap(), Some("a".to_string()));
    assert_eq!(top.next_value().unwrap(), ValueForm::Nested);
    let de = &mut top.de;
    let mut outer = PathLevel::new();
    assert_eq!(de.path_key(&outer).unwrap(), Some("b".to_string()));
    assert_eq!(de.path_value(&mut outer).unwrap(), ValueForm::Nested);
    assert!(outer.done);
    let mut inner = PathLevel::new();
    assert_eq!(de.path_key(&inner).unwrap(), Some("c".to_string()));
    assert_eq!(de.path_value(&mut inner).unwrap(), ValueForm::Plain);
    assert_eq!(de.parser.parse_unsigned(IntWidth::W64), Ok(1));
    assert_eq!(de.path_key(&inner).unwrap(), None);
    assert_eq!(de.path_key(&outer).unwrap(), None);
    assert_eq!(top.next_key().unwrap(), Some("d".to_string()));
    assert_eq!(top.next_value().unwrap(), ValueForm::Plain);
    assert_eq!(top.de.parser.parse_unsigned(IntWidth::W64), Ok(2));
    assert_eq!(top.next_key().unwrap(), None);
}
