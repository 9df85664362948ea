//! The decisions of the deserializer: which shape the next token implies,
//! where a sequence or a map ends, how a key reaches its value, and which
//! form a tagged union takes.

use vstd::prelude::*;
use crate::cursor::{Keyword, TokenKind, token_text};
use crate::error::{Error, ErrorKind};
use crate::parse::{ParseError, ParseErrorKind, Parser, ParserState};
use crate::parse::{expect_kind, expect_string, initial_state, lemma_peek_keeps_next, next_of, next_raw, peek_of, peek_raw};
use crate::text::byte_len;

verus! {

/// The shape of value that a token opens.
#[derive(Debug, PartialEq, Eq, Clone, Copy, Structural)]
pub enum Shape {
    Unit,
    Bool,
    Unsigned,
    Signed,
    Float,
    Text,
    List,
    Table,
}

/// How a key reaches its value: through `=`, or through a `.` that makes
/// the value a map with one entry, whose key follows.
#[derive(Debug, PartialEq, Eq, Clone, Copy, Structural)]
pub enum ValueForm {
    Plain,
    Nested,
}

/// The form of a tagged union: a string that names a variant without
/// payload, or a map with one entry whose key names the variant.
#[derive(Debug)]
pub enum EnumForm {
    Unit(String),
    Tagged,
}

/// The shape that a token of `kind` opens, where it opens one.
pub open spec fn shape_of(kind: TokenKind) -> Option<Shape> {
    match kind {
        TokenKind::Keyword(Keyword::Null) => Some(Shape::Unit),
        TokenKind::Keyword(_) => Some(Shape::Bool),
        TokenKind::Integer { sign: false, .. } => Some(Shape::Unsigned),
        TokenKind::Integer { sign: true, .. } => Some(Shape::Signed),
        TokenKind::Float => Some(Shape::Float),
        TokenKind::String { .. } => Some(Shape::Text),
        TokenKind::StartSquare => Some(Shape::List),
        TokenKind::StartCurly => Some(Shape::Table),
        _ => None,
    }
}

/// A key: the identifier that comes next with nothing before it, and the
/// state after it. Where another token comes, it stays.
pub open spec fn key_of(st: ParserState) -> (Result<Seq<char>, ParseError>, ParserState) {
    let p = peek_raw(st);
    if p.0.token.kind == TokenKind::Ident {
        (Ok(token_text(st.text, p.0.token)), next_raw(p.1).1)
    } else {
        (Err(ParseError { token: p.0, kind: ParseErrorKind::ExpectedIdent }), p.1)
    }
}

/// The way from a key to its value, and the state after it: a `.` that
/// comes with nothing before it is taken, else `=` is expected.
pub open spec fn value_form_of(st: ParserState) -> (Result<ValueForm, ParseError>, ParserState) {
    let p = peek_raw(st);
    if p.0.token.kind == TokenKind::Dot {
        (Ok(ValueForm::Nested), next_raw(p.1).1)
    } else {
        let n = next_of(p.1);
        (
            match expect_kind(n.0, TokenKind::Equal, ParseErrorKind::ExpectedEqual) {
                Ok(_) => Ok(ValueForm::Plain),
                Err(e) => Err(e),
            },
            n.1,
        )
    }
}

/// `r` fails with the parse failure `e`.
pub open spec fn fails_with<T>(r: Result<T, Error>, e: ParseError) -> bool {
    r is Err && r->Err_0.spec_kind() == ErrorKind::Parse(e)
}

pub struct Deserializer<'de> {
    pub parser: Parser<'de>,
}

impl<'de> View for Deserializer<'de> {
    type V = ParserState;

    open spec fn view(&self) -> ParserState {
        self.parser@
    }
}

impl<'de> Deserializer<'de> {
    pub open spec fn wf(&self) -> bool {
        self.parser.wf()
    }

    #[allow(clippy::should_implement_trait)]
    pub fn from_str(input: &'de str) -> (d: Self)
        requires
            byte_len(input@) <= u32::MAX,
        ensures
            d.wf(),
            d@ == initial_state(input@),
    {
        Self { parser: Parser::new(input) }
    }

    /// A deserializer over `input`, where `input` is short enough for one.
    pub fn try_from_str(input: &'de str) -> (d: Option<Self>)
        ensures
            d is Some == (byte_len(input@) <= u32::MAX),
            d is Some ==> d->0.wf() && d->0@ == initial_state(input@),
    {
        match Parser::try_new(input) {
            Some(parser) => Some(Self { parser }),
            None => None,
        }
    }

    /// The shape that the next token implies, for a caller that takes any.
    /// The token stays.
    pub fn any_shape(&mut self) -> (r: Result<Shape, Error>)
        requires
            old(self).wf(),
        ensures
            final(self).wf(),
            final(self)@ == peek_of(old(self)@).1,
            match shape_of(peek_of(old(self)@).0.token.kind) {
                Some(s) => r is Ok && r->Ok_0 == s,
                None => fails_with(
                    r,
                    ParseError {
                        token: peek_of(old(self)@).0,
                        kind: ParseErrorKind::UnknownToken,
                    },
                ),
            },
    {
        let next = self.parser.peek_token();
        match next.token.kind {
            TokenKind::Keyword(Keyword::Null) => Ok(Shape::Unit),
            TokenKind::Keyword(_) => Ok(Shape::Bool),
            TokenKind::Integer { sign: false, .. } => Ok(Shape::Unsigned),
            TokenKind::Integer { sign: true, .. } => Ok(Shape::Signed),
            TokenKind::Float => Ok(Shape::Float),
            TokenKind::String { .. } => Ok(Shape::Text),
            TokenKind::StartSquare => Ok(Shape::List),
            TokenKind::StartCurly => Ok(Shape::Table),
            _ => Err(Error::parse(ParseError::new(next, ParseErrorKind::UnknownToken))),
        }
    }

    /// Whether an optional value is absent: a `null`, which is taken.
    /// Anything else stays and is the value.
    pub fn option_is_none(&mut self) -> (r: bool)
        requires
            old(self).wf(),
        ensures
            final(self).wf(),
            r == (peek_of(old(self)@).0.token.kind == TokenKind::Keyword(Keyword::Null)),
            r ==> final(self)@ == next_of(old(self)@).1,
            !r ==> final(self)@ == peek_of(old(self)@).1,
    {
        self.parser.try_parse_null().is_some()
    }

    /// Whether a sequence goes on: `false` at its `]`, which is taken.
    pub fn next_element(&mut self) -> (r: bool)
        requires
            old(self).wf(),
        ensures
            final(self).wf(),
            r == (peek_of(old(self)@).0.token.kind != TokenKind::EndSquare),
            !r ==> final(self)@ == next_of(old(self)@).1,
            r ==> final(self)@ == peek_of(old(self)@).1,
    {
        self.parser.try_end_list().is_none()
    }

    /// Takes a key: an identifier, and nothing else.
    pub fn key(&mut self) -> (r: Result<String, Error>)
        requires
            old(self).wf(),
        ensures
            final(self).wf(),
            final(self)@ == key_of(old(self)@).1,
            match key_of(old(self)@).0 {
                Ok(k) => r is Ok && r->Ok_0@ == k,
                Err(e) => fails_with(r, e),
            },
    {
        let next = self.parser.peek_no_skip();
        if next.token.kind == TokenKind::Ident {
            self.parser.next_no_skip();
            Ok(self.parser.cursor.token_string(next.token))
        } else {
            Err(Error::parse(ParseError::new(next, ParseErrorKind::ExpectedIdent)))
        }
    }

    /// The key of the next entry of a map; nothing at the `}` that ends the
    /// map, which is taken.
    pub fn next_key(&mut self) -> (r: Result<Option<String>, Error>)
        requires
            old(self).wf(),
        ensures
            final(self).wf(),
            peek_of(old(self)@).0.token.kind == TokenKind::EndCurly ==> r is Ok && r->Ok_0 is None
                && final(self)@ == next_of(old(self)@).1,
            peek_of(old(self)@).0.token.kind != TokenKind::EndCurly ==> final(self)@ == key_of(
                peek_of(old(self)@).1,
            ).1 && match key_of(peek_of(old(self)@).1).0 {
                Ok(k) => r is Ok && r->Ok_0 is Some && r->Ok_0->0@ == k,
                Err(e) => fails_with(r, e),
            },
    {
        if self.parser.try_end_map().is_some() {
            return Ok(None);
        }
        match self.key() {
            Ok(k) => Ok(Some(k)),
            Err(e) => Err(e),
        }
    }

    /// The key of the next entry of a document, a map without braces;
    /// nothing at the end of the input.
    pub fn document_key(&mut self) -> (r: Result<Option<String>, Error>)
        requires
            old(self).wf(),
        ensures
            final(self).wf(),
            peek_of(old(self)@).0.token.kind == TokenKind::Eof ==> r is Ok && r->Ok_0 is None
                && final(self)@ == peek_of(old(self)@).1,
            peek_of(old(self)@).0.token.kind != TokenKind::Eof ==> final(self)@ == key_of(
                peek_of(old(self)@).1,
            ).1 && match key_of(peek_of(old(self)@).1).0 {
                Ok(k) => r is Ok && r->Ok_0 is Some && r->Ok_0->0@ == k,
                Err(e) => fails_with(r, e),
            },
    {
        if self.parser.peek_eof() {
            return Ok(None);
        }
        match self.key() {
            Ok(k) => Ok(Some(k)),
            Err(e) => Err(e),
        }
    }

    /// Goes from a key to its value.
    pub fn next_value(&mut self) -> (r: Result<ValueForm, Error>)
        requires
            old(self).wf(),
        ensures
            final(self).wf(),
            final(self)@ == value_form_of(old(self)@).1,
            match value_form_of(old(self)@).0 {
                Ok(f) => r is Ok && r->Ok_0 == f,
                Err(e) => fails_with(r, e),
            },
    {
        if self.parser.peek_no_skip().token.kind == TokenKind::Dot {
            self.parser.next_no_skip();
            Ok(ValueForm::Nested)
        } else {
            match self.parser.map_delimiter() {
                Ok(_) => Ok(ValueForm::Plain),
                Err(e) => Err(Error::parse(e)),
            }
        }
    }

    /// The form that a tagged union takes: a string, which is taken whole,
    /// or a `{`, which is taken. Anything else stays and is an error with
    /// the message `expected an enum`.
    pub fn enum_form(&mut self) -> (r: Result<EnumForm, Error>)
        requires
            old(self).wf(),
        ensures
            final(self).wf(),
            match peek_of(old(self)@).0.token.kind {
                TokenKind::String { .. } => final(self)@ == next_of(old(self)@).1 && match expect_string(
                    old(self)@.text,
                    next_of(old(self)@).0,
                ) {
                    Ok(s) => r is Ok && (r->Ok_0 matches EnumForm::Unit(name) && name@ == s),
                    Err(e) => fails_with(r, e),
                },
                TokenKind::StartCurly => final(self)@ == next_of(old(self)@).1 && r is Ok
                    && r->Ok_0 is Tagged,
                _ => final(self)@ == peek_of(old(self)@).1 && r is Err && (
                r->Err_0.spec_kind() matches ErrorKind::Message(m) && m@ == "expected an enum"@),
            },
    {
        proof {
            self.parser.cursor.lemma_wf();
            lemma_peek_keeps_next(self.parser@);
        }
        match self.parser.try_parse_string() {
            Some(Ok(name)) => Ok(EnumForm::Unit(name)),
            Some(Err(e)) => Err(Error::parse(e)),
            None => {
                if self.parser.try_start_map().is_some() {
                    Ok(EnumForm::Tagged)
                } else {
                    Err(Error::with_message("expected an enum"))
                }
            },
        }
    }

    /// The name of the variant of a tagged union in map form: the
    /// identifier after the `{`, blanks before it skipped.
    pub fn variant_name(&mut self) -> (r: Result<String, Error>)
        requires
            old(self).wf(),
        ensures
            final(self).wf(),
            final(self)@ == key_of(peek_of(old(self)@).1).1,
            match key_of(peek_of(old(self)@).1).0 {
                Ok(k) => r is Ok && r->Ok_0@ == k,
                Err(e) => fails_with(r, e),
            },
    {
        self.parser.peek_token();
        self.key()
    }

    /// Goes to the payload of a variant: takes the `=` after its name.
    pub fn variant_payload(&mut self) -> (r: Result<(), Error>)
        requires
            old(self).wf(),
        ensures
            final(self).wf(),
            final(self)@ == next_of(old(self)@).1,
            match expect_kind(
                next_of(old(self)@).0,
                TokenKind::Equal,
                ParseErrorKind::ExpectedEqual,
            ) {
                Ok(_) => r is Ok,
                Err(e) => fails_with(r, e),
            },
    {
        match self.parser.map_delimiter() {
            Ok(_) => Ok(()),
            Err(e) => Err(Error::parse(e)),
        }
    }

    /// The payload of a variant that has none: `=` and `null`.
    pub fn unit_variant(&mut self) -> (r: Result<(), Error>)
        requires
            old(self).wf(),
        ensures
            final(self).wf(),
            match expect_kind(
                next_of(old(self)@).0,
                TokenKind::Equal,
                ParseErrorKind::ExpectedEqual,
            ) {
                Ok(_) => final(self)@ == next_of(next_of(old(self)@).1).1 && match expect_kind(
                    next_of(next_of(old(self)@).1).0,
                    TokenKind::Keyword(Keyword::Null),
                    ParseErrorKind::ExpectedNull,
                ) {
                    Ok(_) => r is Ok,
                    Err(e) => fails_with(r, e),
                },
                Err(e) => final(self)@ == next_of(old(self)@).1 && fails_with(r, e),
            },
    {
        match self.parser.map_delimiter() {
            Ok(_) => {},
            Err(e) => {
                return Err(Error::parse(e));
            },
        }
        match self.parser.parse_null() {
            Ok(_) => Ok(()),
            Err(e) => Err(Error::parse(e)),
        }
    }

    /// Ends a tagged union in map form: takes its `}`.
    pub fn end_enum(&mut self) -> (r: Result<(), Error>)
        requires
            old(self).wf(),
        ensures
            final(self).wf(),
            final(self)@ == next_of(old(self)@).1,
            match expect_kind(
                next_of(old(self)@).0,
                TokenKind::EndCurly,
                ParseErrorKind::ExpectedMapEnd,
            ) {
                Ok(_) => r is Ok,
                Err(e) => fails_with(r, e),
            },
    {
        match self.parser.end_map() {
            Ok(_) => Ok(()),
            Err(e) => Err(Error::parse(e)),
        }
    }
}

/// One level of the maps that a dotted key stands for: a map with one
/// entry, and whether that entry has been handed out.
#[derive(Debug, PartialEq, Eq, Clone, Copy, Structural)]
pub struct PathLevel {
    pub done: bool,
}

impl PathLevel {
    pub fn new() -> (level: Self)
        ensures
            !level.done,
    {
        Self { done: false }
    }
}

impl<'de> Deserializer<'de> {
    /// The key of the one entry of a level: the segment that comes next, or
    /// nothing once the entry has been handed out.
    pub fn path_key(&mut self, level: &PathLevel) -> (r: Result<Option<String>, Error>)
        requires
            old(self).wf(),
        ensures
            final(self).wf(),
            level.done ==> r is Ok && r->Ok_0 is None && final(self)@ == old(self)@,
            !level.done ==> final(self)@ == key_of(old(self)@).1 && match key_of(old(self)@).0 {
                Ok(k) => r is Ok && r->Ok_0 is Some && r->Ok_0->0@ == k,
                Err(e) => fails_with(r, e),
            },
    {
        if level.done {
            return Ok(None);
        }
        match self.key() {
            Ok(k) => Ok(Some(k)),
            Err(e) => Err(e),
        }
    }

    /// Goes from the key of a level to its value, and marks the entry of the
    /// level as handed out.
    pub fn path_value(&mut self, level: &mut PathLevel) -> (r: Result<ValueForm, Error>)
        requires
            old(self).wf(),
        ensures
            final(self).wf(),
            final(level).done,
            final(self)@ == value_form_of(old(self)@).1,
            match value_form_of(old(self)@).0 {
                Ok(f) => r is Ok && r->Ok_0 == f,
                Err(e) => fails_with(r, e),
            },
    {
        level.done = true;
        self.next_value()
    }
}

/// The deserializer of a whole document: a map without braces, which the
/// end of the input ends.
pub struct TopDeserializer<'de> {
    pub de: Deserializer<'de>,
}

impl<'de> View for TopDeserializer<'de> {
    type V = ParserState;

    open spec fn view(&self) -> ParserState {
        self.de.parser@
    }
}

impl<'de> TopDeserializer<'de> {
    pub open spec fn wf(&self) -> bool {
        self.de.wf()
    }

    #[allow(clippy::should_implement_trait)]
    pub fn from_str(input: &'de str) -> (d: Self)
        requires
            byte_len(input@) <= u32::MAX,
        ensures
            d.wf(),
            d@ == initial_state(input@),
    {
        Self { de: Deserializer::from_str(input) }
    }

    /// A deserializer over the document `input`, where `input` is short
    /// enough for one.
    pub fn try_from_str(input: &'de str) -> (d: Option<Self>)
        ensures
            d is Some == (byte_len(input@) <= u32::MAX),
            d is Some ==> d->0.wf() && d->0@ == initial_state(input@),
    {
        match Deserializer::try_from_str(input) {
            Some(de) => Some(Self { de }),
            None => None,
        }
    }

    /// The key of the next entry of the document; nothing at the end of the
    /// input.
    pub fn next_key(&mut self) -> (r: Result<Option<String>, Error>)
        requires
            old(self).wf(),
        ensures
            final(self).wf(),
            peek_of(old(self)@).0.token.kind == TokenKind::Eof ==> r is Ok && r->Ok_0 is None
                && final(self)@ == peek_of(old(self)@).1,
            peek_of(old(self)@).0.token.kind != TokenKind::Eof ==> final(self)@ == key_of(
                peek_of(old(self)@).1,
            ).1 && match key_of(peek_of(old(self)@).1).0 {
                Ok(k) => r is Ok && r->Ok_0 is Some && r->Ok_0->0@ == k,
                Err(e) => fails_with(r, e),
            },
    {
        self.de.document_key()
    }

    /// Goes from a key to its value.
    pub fn next_value(&mut self) -> (r: Result<ValueForm, Error>)
        requires
            old(self).wf(),
        ensures
            final(self).wf(),
            final(self)@ == value_form_of(old(self)@).1,
            match value_form_of(old(self)@).0 {
                Ok(f) => r is Ok && r->Ok_0 == f,
                Err(e) => fails_with(r, e),
            },
    {
        self.de.next_value()
    }
}

} // verus!
