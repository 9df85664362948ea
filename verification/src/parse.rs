//! The parser: one token of lookahead over the cursor, line and column
//! tracking, and the primitives that expect or try one grammatical unit.

use vstd::prelude::*;
use vstd::std_specs::convert::TryFromSpec;
use crate::cursor::{Base, CharClass, Cursor, Keyword, Token, TokenKind};
use crate::cursor::{in_class, scan_while};
use crate::cursor::{lex, lemma_lex_advances, lemma_token_text, token_in, token_text};
use crate::literal::{magnitude, parse_digits, unescape, unescape_range};
use crate::text::{byte_len, byte_offset, count_newlines, fits, last_line_bytes, measure};
use crate::text::{lemma_byte_offset_between, lemma_byte_offset_end, lemma_byte_offset_grows, lemma_single_line};

verus! {

/// A token with the line and column at which it starts, both counted from 0.
#[derive(Copy, Clone, Debug, PartialEq, Eq, Structural)]
pub struct SpanToken {
    pub token: Token,
    pub line: u32,
    pub col: u32,
}

#[derive(Clone, Debug, PartialEq, Eq, Structural)]
pub enum ParseErrorKind {
    ExpectedNull,
    ExpectedBool,
    ExpectedInteger { signed: bool },
    ExpectedFloat,
    ExpectedMapStart,
    ExpectedMapEnd,
    ExpectedListStart,
    ExpectedListEnd,
    ExpectedEqual,
    InvalidInteger,
    InvalidFloat,
    ExpectedString,
    InvalidEscape { pos: u32 },
    StringUnterminated,
    ExpectedIdent,
    UnknownToken,
}

/// A failure to parse: the token that broke the expectation, and how.
#[derive(Clone, Debug, PartialEq, Eq, Structural)]
pub struct ParseError {
    pub token: SpanToken,
    pub kind: ParseErrorKind,
}

impl ParseError {
    pub fn new(token: SpanToken, kind: ParseErrorKind) -> (e: Self)
        ensures
            e == (ParseError { token, kind }),
    {
        Self { token, kind }
    }
}

#[derive(Clone, Debug)]
pub struct Parser<'a> {
    pub cursor: Cursor<'a>,
    pub line: u32,
    pub col: u32,
    pub skip: bool,
    pub lookahead: Option<SpanToken>,
}

/// What a parser is, to its contracts: the text, the index of the next
/// character, the line and column there, the skip mode and the token held
/// back, if any.
pub struct ParserState {
    pub text: Seq<char>,
    pub index: int,
    pub line: int,
    pub col: int,
    pub skip: bool,
    pub lookahead: Option<SpanToken>,
}

/// Whitespace and comments: the tokens that skip mode swallows.
pub open spec fn is_blank(kind: TokenKind) -> bool {
    kind == TokenKind::Whitespace || kind == TokenKind::Comment
}

/// Line and column after a token of `kind` with the text `w` that started at
/// `line` and `col`. Line feeds count in blank tokens only.
pub open spec fn moved(kind: TokenKind, w: Seq<char>, line: int, col: int) -> (int, int) {
    if is_blank(kind) && count_newlines(w) >= 1 {
        (line + count_newlines(w), last_line_bytes(w) as int)
    } else {
        (line, col + byte_len(w))
    }
}

/// The token that starts at `index`, with its position.
pub open spec fn raw_token(text: Seq<char>, index: int, line: int, col: int) -> SpanToken {
    SpanToken {
        token: Token {
            kind: lex(text, index).0,
            start: byte_offset(text, index) as usize,
            end: byte_offset(text, lex(text, index).1) as usize,
        },
        line: line as u32,
        col: col as u32,
    }
}

/// Reads tokens from `index` on until one is not skipped: that token, and
/// the index, line and column after it.
pub open spec fn scan_visible(text: Seq<char>, index: int, line: int, col: int, skip: bool) -> (
    SpanToken,
    int,
    int,
    int,
)
    decreases text.len() - index,
{
    let kind = lex(text, index).0;
    let end = lex(text, index).1;
    let after = moved(kind, text.subrange(index, end), line, col);
    if skip && is_blank(kind) && index < end <= text.len() {
        scan_visible(text, end, after.0, after.1, skip)
    } else {
        (raw_token(text, index, line, col), end, after.0, after.1)
    }
}

/// The next token and the state after it was taken: the token held back
/// where the current mode shows it, else the next one from the text that
/// the mode shows.
pub open spec fn next_of(st: ParserState) -> (SpanToken, ParserState) {
    if st.lookahead is Some && !(st.skip && is_blank(st.lookahead->0.token.kind)) {
        (st.lookahead->0, ParserState { lookahead: None, ..st })
    } else {
        let r = scan_visible(st.text, st.index, st.line, st.col, st.skip);
        (r.0, ParserState { index: r.1, line: r.2, col: r.3, lookahead: None, ..st })
    }
}

/// The next token and the state after a look at it: as `next_of`, with the
/// token held back.
pub open spec fn peek_of(st: ParserState) -> (SpanToken, ParserState) {
    let r = next_of(st);
    (r.0, ParserState { lookahead: Some(r.0), ..r.1 })
}

/// The state of a parser that has read nothing of `text` yet: at line 0 and
/// column 0, in skip mode, with no token held back.
pub open spec fn initial_state(text: Seq<char>) -> ParserState {
    ParserState { text, index: 0, line: 0, col: 0, skip: true, lookahead: None }
}

/// `st` with the skip mode set to `skip`.
pub open spec fn with_skip(st: ParserState, skip: bool) -> ParserState {
    ParserState { skip, ..st }
}

/// What skip mode does not swallow comes out of a scan, and a scan never
/// moves back nor beyond the text; it moves on unless the input has ended.
pub proof fn lemma_scan_visible(text: Seq<char>, index: int, line: int, col: int, skip: bool)
    requires
        0 <= index <= text.len(),
    ensures
        ({
            let r = scan_visible(text, index, line, col, skip);
            &&& !(skip && is_blank(r.0.token.kind))
            &&& index <= r.1 <= text.len()
            &&& r.0.token.kind != TokenKind::Eof ==> index < r.1
        }),
    decreases text.len() - index,
{
    lemma_lex_advances(text, index);
    let kind = lex(text, index).0;
    let end = lex(text, index).1;
    let after = moved(kind, text.subrange(index, end), line, col);
    if skip && is_blank(kind) {
        lemma_scan_visible(text, end, after.0, after.1, skip);
    }
}

/// A look at the next token does not change which token is next, nor the
/// state after it is taken.
pub proof fn lemma_peek_keeps_next(st: ParserState)
    requires
        0 <= st.index <= st.text.len(),
    ensures
        next_of(peek_of(st).1) == next_of(st),
        peek_of(peek_of(st).1) == peek_of(st),
{
    lemma_scan_visible(st.text, st.index, st.line, st.col, st.skip);
}

/// The width that an integer is to fit.
#[derive(Debug, PartialEq, Eq, Clone, Copy, Structural)]
pub enum IntWidth {
    W8,
    W16,
    W32,
    W64,
}

impl IntWidth {
    /// The largest unsigned value of the width.
    pub open spec fn highest_unsigned(self) -> int {
        match self {
            IntWidth::W8 => 0xff,
            IntWidth::W16 => 0xffff,
            IntWidth::W32 => 0xffff_ffff,
            IntWidth::W64 => 0xffff_ffff_ffff_ffff,
        }
    }

    /// The largest signed value of the width.
    pub open spec fn highest_signed(self) -> int {
        match self {
            IntWidth::W8 => 0x7f,
            IntWidth::W16 => 0x7fff,
            IntWidth::W32 => 0x7fff_ffff,
            IntWidth::W64 => 0x7fff_ffff_ffff_ffff,
        }
    }

    /// The smallest signed value of the width.
    pub open spec fn lowest_signed(self) -> int {
        -self.highest_signed() - 1
    }

    pub fn max_unsigned(self) -> (m: u64)
        ensures
            m == self.highest_unsigned(),
    {
        match self {
            IntWidth::W8 => 0xff,
            IntWidth::W16 => 0xffff,
            IntWidth::W32 => 0xffff_ffff,
            IntWidth::W64 => 0xffff_ffff_ffff_ffff,
        }
    }

    pub fn max_signed(self) -> (m: i64)
        ensures
            m == self.highest_signed(),
    {
        match self {
            IntWidth::W8 => 0x7f,
            IntWidth::W16 => 0x7fff,
            IntWidth::W32 => 0x7fff_ffff,
            IntWidth::W64 => 0x7fff_ffff_ffff_ffff,
        }
    }
}

/// `Ok` where the token has the kind `want`, else the error `kind` at it.
pub open spec fn expect_kind(tok: SpanToken, want: TokenKind, kind: ParseErrorKind) -> Result<
    (),
    ParseError,
> {
    if tok.token.kind == want {
        Ok(())
    } else {
        Err(ParseError { token: tok, kind })
    }
}

/// The truth value that a token writes.
pub open spec fn expect_bool(tok: SpanToken) -> Result<bool, ParseError> {
    if tok.token.kind == TokenKind::Keyword(Keyword::True) {
        Ok(true)
    } else if tok.token.kind == TokenKind::Keyword(Keyword::False) {
        Ok(false)
    } else {
        Err(ParseError { token: tok, kind: ParseErrorKind::ExpectedBool })
    }
}

/// The characters that a string token stands for.
pub open spec fn expect_string(text: Seq<char>, tok: SpanToken) -> Result<Seq<char>, ParseError> {
    match tok.token.kind {
        TokenKind::String { terminated } => if !terminated {
            Err(ParseError { token: tok, kind: ParseErrorKind::StringUnterminated })
        } else {
            match unescape(token_text(text, tok.token)) {
                Ok(s) => Ok(s),
                Err(i) => Err(
                    ParseError { token: tok, kind: ParseErrorKind::InvalidEscape { pos: i as u32 } },
                ),
            }
        },
        _ => Err(ParseError { token: tok, kind: ParseErrorKind::ExpectedString }),
    }
}

/// The digits of an integer token with the text `w`: what follows the sign
/// and the prefix of the base.
pub open spec fn digit_span(w: Seq<char>, sign: bool, base: Base) -> Seq<char> {
    let lead = base.spec_digit_offset() + if sign {
        1int
    } else {
        0int
    };
    if lead <= w.len() {
        w.subrange(lead, w.len() as int)
    } else {
        Seq::empty()
    }
}

/// The unsigned integer that a token writes, where it fits `width`.
pub open spec fn expect_uint(text: Seq<char>, tok: SpanToken, width: IntWidth) -> Result<
    u64,
    ParseError,
> {
    match tok.token.kind {
        TokenKind::Integer { sign: false, base } => {
            match magnitude(
                digit_span(token_text(text, tok.token), false, base),
                base.spec_radix() as int,
            ) {
                Some(v) => if v <= width.highest_unsigned() {
                    Ok(v)
                } else {
                    Err(ParseError { token: tok, kind: ParseErrorKind::InvalidInteger })
                },
                None => Err(ParseError { token: tok, kind: ParseErrorKind::InvalidInteger }),
            }
        },
        _ => Err(ParseError { token: tok, kind: ParseErrorKind::ExpectedInteger { signed: false } }),
    }
}

/// The signed integer that a token writes, where it fits `width`: the
/// magnitude of its digits, negated under a sign.
pub open spec fn expect_int(text: Seq<char>, tok: SpanToken, width: IntWidth) -> Result<
    i64,
    ParseError,
> {
    match tok.token.kind {
        TokenKind::Integer { sign, base } => {
            match magnitude(
                digit_span(token_text(text, tok.token), sign, base),
                base.spec_radix() as int,
            ) {
                Some(m) => {
                    let v = if sign {
                        -(m as int)
                    } else {
                        m as int
                    };
                    if width.lowest_signed() <= v <= width.highest_signed() {
                        Ok(v as i64)
                    } else {
                        Err(ParseError { token: tok, kind: ParseErrorKind::InvalidInteger })
                    }
                },
                None => Err(ParseError { token: tok, kind: ParseErrorKind::InvalidInteger }),
            }
        },
        _ => Err(ParseError { token: tok, kind: ParseErrorKind::ExpectedInteger { signed: true } }),
    }
}

/// Every character of a run belongs to the class of the run.
pub proof fn lemma_run_in_class(s: Seq<char>, pos: int, class: CharClass, k: int)
    requires
        0 <= pos <= k < scan_while(s, pos, class),
    ensures
        k < s.len(),
        in_class(class, s[k]),
    decreases k - pos,
{
    if pos < k {
        lemma_run_in_class(s, pos + 1, class, k);
    }
}

/// A run that ends within the text ends at a character of another class.
pub proof fn lemma_run_end(s: Seq<char>, pos: int, class: CharClass)
    requires
        0 <= pos <= s.len(),
    ensures
        scan_while(s, pos, class) < s.len() ==> !in_class(class, s[scan_while(s, pos, class)]),
    decreases s.len() - pos,
{
    if pos < s.len() && in_class(class, s[pos]) {
        lemma_run_end(s, pos + 1, class);
    }
}

/// Text without a line feed counts none.
pub proof fn lemma_no_newlines(w: Seq<char>)
    requires
        forall|k: int| 0 <= k < w.len() ==> w[k] != '\n',
    ensures
        count_newlines(w) == 0,
    decreases w.len(),
{
    if w.len() > 0 {
        lemma_no_newlines(w.drop_last());
    }
}

/// The line feed that ends a line comment belongs to the comment and is
/// counted with it, once: after the comment the line is one more and the
/// column is 0. A comment that the end of the input ends leaves the line as
/// it is.
pub proof fn lemma_comment_line(s: Seq<char>, pos: int, line: int, col: int)
    requires
        0 <= pos < s.len(),
        lex(s, pos).0 == TokenKind::Comment,
    ensures
        ({
            let end = lex(s, pos).1;
            let after = moved(TokenKind::Comment, s.subrange(pos, end), line, col);
            &&& pos < end <= s.len()
            &&& s[end - 1] == '\n' ==> after == (line + 1, 0int)
            &&& s[end - 1] != '\n' ==> end == s.len() && after.0 == line
        }),
{
    lemma_lex_advances(s, pos);
    let body = scan_while(s, pos + 1, CharClass::CommentBody);
    crate::cursor::lemma_scan_while_range(s, pos + 1, CharClass::CommentBody);
    let end = lex(s, pos).1;
    let inner = s.subrange(pos, body);
    assert forall|k: int| 0 <= k < inner.len() implies inner[k] != '\n' by {
        if k > 0 {
            lemma_run_in_class(s, pos + 1, CharClass::CommentBody, pos + k);
        }
    }
    lemma_no_newlines(inner);
    lemma_run_end(s, pos + 1, CharClass::CommentBody);
    let w = s.subrange(pos, end);
    if body < s.len() {
        assert(s[body] == '\n');
        assert(w.drop_last() =~= inner);
        assert(w.last() == '\n');
        assert(count_newlines(w) == 1);
        assert(last_line_bytes(w) == 0);
    } else {
        assert(w =~= inner);
        assert(s[pos] == '/');
        if end - 1 > pos {
            lemma_run_in_class(s, pos + 1, CharClass::CommentBody, end - 1);
        }
    }
}

/// A dotted chain of identifiers: the first segment, and the segments after
/// it in order.
#[derive(Clone, Debug, PartialEq, Eq)]
pub struct MapPath {
    pub key: String,
    pub path: Vec<String>,
}

/// A dotted path as sequences of characters.
pub struct PathModel {
    pub key: Seq<char>,
    pub path: Seq<Seq<char>>,
}

/// The segments as sequences of characters.
pub open spec fn segments(path: Seq<String>) -> Seq<Seq<char>> {
    path.map_values(|s: String| s@)
}

impl View for MapPath {
    type V = PathModel;

    open spec fn view(&self) -> PathModel {
        PathModel { key: self.key@, path: segments(self.path@) }
    }
}

/// The next token, blank or not, and the state after it was taken.
pub open spec fn next_raw(st: ParserState) -> (SpanToken, ParserState) {
    let r = next_of(with_skip(st, false));
    (r.0, with_skip(r.1, st.skip))
}

/// The next token, blank or not, and the state after a look at it.
pub open spec fn peek_raw(st: ParserState) -> (SpanToken, ParserState) {
    let r = peek_of(with_skip(st, false));
    (r.0, with_skip(r.1, st.skip))
}

/// `done` put before the segments that `rest` holds; a failure stays.
pub open spec fn join_segments(
    done: Seq<Seq<char>>,
    rest: (Result<Seq<Seq<char>>, ParseError>, ParserState),
) -> (Result<Seq<Seq<char>>, ParseError>, ParserState) {
    (
        match rest.0 {
            Ok(more) => Ok(done + more),
            Err(e) => Err(e),
        },
        rest.1,
    )
}

/// The segments that follow the first one: as long as a `.` comes next with
/// nothing before it, the `.` and the token after it are taken, and that
/// token has to be an identifier. `fuel` bounds the number of segments; the
/// length of the text plus one always suffices.
pub open spec fn path_tail(st: ParserState, fuel: nat) -> (
    Result<Seq<Seq<char>>, ParseError>,
    ParserState,
)
    decreases fuel,
{
    let p = peek_raw(st);
    if fuel == 0 || p.0.token.kind != TokenKind::Dot {
        (Ok(Seq::empty()), p.1)
    } else {
        let dot = next_raw(p.1);
        let seg = next_raw(dot.1);
        if seg.0.token.kind == TokenKind::Ident {
            join_segments(
                seq![token_text(st.text, seg.0.token)],
                path_tail(seg.1, (fuel - 1) as nat),
            )
        } else {
            (Err(ParseError { token: seg.0, kind: ParseErrorKind::ExpectedIdent }), seg.1)
        }
    }
}

/// With no token held back, any fuel above the number of characters left
/// gives the same segments: each segment takes at least its `.` from the
/// text.
pub proof fn lemma_path_tail_fuel(st: ParserState, f1: nat, f2: nat)
    requires
        0 <= st.index <= st.text.len(),
        st.lookahead is None,
        f1 > st.text.len() - st.index,
        f2 > st.text.len() - st.index,
    ensures
        path_tail(st, f1) == path_tail(st, f2),
    decreases st.text.len() - st.index,
{
    lemma_scan_visible(st.text, st.index, st.line, st.col, false);
    let p = peek_raw(st);
    if p.0.token.kind == TokenKind::Dot {
        let dot = next_raw(p.1);
        assert(dot.1.lookahead is None);
        assert(dot.1.index == p.1.index);
        assert(dot.1.index > st.index);
        lemma_scan_visible(dot.1.text, dot.1.index, dot.1.line, dot.1.col, false);
        let seg = next_raw(dot.1);
        assert(seg.1.lookahead is None);
        assert(seg.1.text == st.text);
        if seg.0.token.kind == TokenKind::Ident {
            lemma_path_tail_fuel(seg.1, (f1 - 1) as nat, (f2 - 1) as nat);
        }
    }
}

/// The dotted path that starts at the next token, and the state after it.
pub open spec fn path_of(st: ParserState) -> (Result<PathModel, ParseError>, ParserState) {
    let first = next_of(st);
    if first.0.token.kind == TokenKind::Ident {
        let tail = path_tail(first.1, (st.text.len() + 1) as nat);
        (
            match tail.0 {
                Ok(path) => Ok(PathModel { key: token_text(st.text, first.0.token), path }),
                Err(e) => Err(e),
            },
            tail.1,
        )
    } else {
        (Err(ParseError { token: first.0, kind: ParseErrorKind::ExpectedIdent }), first.1)
    }
}

impl<'a> View for Parser<'a> {
    type V = ParserState;

    open spec fn view(&self) -> ParserState {
        ParserState {
            text: self.cursor.text(),
            index: self.cursor.index(),
            line: self.line as int,
            col: self.col as int,
            skip: self.skip,
            lookahead: self.lookahead,
        }
    }
}

impl<'a> Parser<'a> {
    /// The cursor is well-formed, the text is short enough for lines and
    /// columns to fit 32 bits, and a token held back lies in the text.
    pub open spec fn wf(&self) -> bool {
        &&& self.cursor.wf()
        &&& byte_len(self.cursor.text()) <= u32::MAX
        &&& self.line <= byte_offset(self.cursor.text(), self.cursor.index())
        &&& self.col <= byte_offset(self.cursor.text(), self.cursor.index())
        &&& match self.lookahead {
            Some(t) => token_in(self.cursor.text(), t.token),
            None => true,
        }
    }

    pub fn new(src: &'a str) -> (p: Self)
        requires
            byte_len(src@) <= u32::MAX,
        ensures
            p.wf(),
            p@ == initial_state(src@),
    {
        Self { cursor: Cursor::new(src), line: 0, col: 0, skip: true, lookahead: None }
    }

    /// A parser over `src`, where `src` is short enough for one.
    pub fn try_new(src: &'a str) -> (p: Option<Self>)
        ensures
            p is Some == (byte_len(src@) <= u32::MAX),
            p is Some ==> p->0.wf() && p->0@ == initial_state(src@),
    {
        if fits(src) {
            Some(Self::new(src))
        } else {
            None
        }
    }

    fn skips(&self, kind: TokenKind) -> (r: bool)
        ensures
            r == (self.skip && is_blank(kind)),
    {
        self.skip && (kind == TokenKind::Whitespace || kind == TokenKind::Comment)
    }

    /// Takes the next token.
    pub fn next_token(&mut self) -> (tok: SpanToken)
        requires
            old(self).wf(),
        ensures
            final(self).wf(),
            (tok, final(self)@) == next_of(old(self)@),
            token_in(final(self)@.text, tok.token),
            !(old(self)@.skip && is_blank(tok.token.kind)),
    {
        let cached = self.lookahead;
        self.lookahead = None;
        if let Some(t) = cached {
            if !self.skips(t.token.kind) {
                return t;
            }
        }
        loop
            invariant
                self.wf(),
                self.lookahead is None,
                self.skip == old(self).skip,
                old(self).lookahead is Some ==> old(self).skip && is_blank(
                    old(self).lookahead->0.token.kind,
                ),
                self.cursor.text() == old(self).cursor.text(),
                scan_visible(
                    self.cursor.text(),
                    self.cursor.index(),
                    self.line as int,
                    self.col as int,
                    self.skip,
                ) == scan_visible(
                    old(self).cursor.text(),
                    old(self).cursor.index(),
                    old(self).line as int,
                    old(self).col as int,
                    old(self).skip,
                ),
            decreases self.cursor.text().len() - self.cursor.index(),
        {
            let line: u32 = self.line;
            let col: u32 = self.col;
            let from: usize = self.cursor.position();
            let ghost text = self.cursor.text();
            proof {
                self.cursor.lemma_wf();
                lemma_lex_advances(text, from as int);
            }
            let token = self.cursor.read_token();
            let to: usize = self.cursor.position();
            proof {
                self.cursor.lemma_wf();
                lemma_byte_offset_between(text, from as int, to as int);
                lemma_single_line(text.subrange(from as int, to as int));
                lemma_token_text(text, token, from as int, to as int);
            }
            let m = measure(self.cursor.chars(), from, to);
            if (token.kind == TokenKind::Whitespace || token.kind == TokenKind::Comment) && m.0
                >= 1 {
                self.line = self.line + m.0 as u32;
                self.col = m.1 as u32;
            } else {
                self.col = self.col + m.2 as u32;
            }
            if !self.skips(token.kind) {
                return SpanToken { token, line, col };
            }
        }
    }

    /// Looks at the next token without taking it.
    pub fn peek_token(&mut self) -> (tok: SpanToken)
        requires
            old(self).wf(),
        ensures
            final(self).wf(),
            (tok, final(self)@) == peek_of(old(self)@),
            token_in(final(self)@.text, tok.token),
            !(old(self)@.skip && is_blank(tok.token.kind)),
    {
        if let Some(token) = self.lookahead {
            if !self.skips(token.token.kind) {
                return token;
            }
        }
        let next = self.next_token();
        self.lookahead = Some(next);
        next
    }

    /// Takes the next token, blank or not.
    pub fn next_no_skip(&mut self) -> (tok: SpanToken)
        requires
            old(self).wf(),
        ensures
            final(self).wf(),
            tok == next_of(with_skip(old(self)@, false)).0,
            final(self)@ == with_skip(next_of(with_skip(old(self)@, false)).1, old(self)@.skip),
            token_in(final(self)@.text, tok.token),
    {
        let old_skip = self.skip;
        self.skip = false;
        let res = self.next_token();
        self.skip = old_skip;
        res
    }

    /// Looks at the next token, blank or not, without taking it.
    pub fn peek_no_skip(&mut self) -> (tok: SpanToken)
        requires
            old(self).wf(),
        ensures
            final(self).wf(),
            tok == peek_of(with_skip(old(self)@, false)).0,
            final(self)@ == with_skip(peek_of(with_skip(old(self)@, false)).1, old(self)@.skip),
            token_in(final(self)@.text, tok.token),
    {
        let old_skip = self.skip;
        self.skip = false;
        let res = self.peek_token();
        self.skip = old_skip;
        res
    }

    /// The text of a token of this parser.
    pub fn src(&self, token: Token) -> (s: &'a str)
        requires
            self.wf(),
            token_in(self@.text, token),
        ensures
            s@ == token_text(self@.text, token),
    {
        self.cursor.token_src(token)
    }

    /// Whether the next token is the end of the input.
    pub fn peek_eof(&mut self) -> (r: bool)
        requires
            old(self).wf(),
        ensures
            final(self).wf(),
            final(self)@ == peek_of(old(self)@).1,
            r == (peek_of(old(self)@).0.token.kind == TokenKind::Eof),
    {
        self.peek_token().token.kind == TokenKind::Eof
    }

    /// An error of the given kind at the next token, which stays.
    pub fn error(&mut self, kind: ParseErrorKind) -> (e: ParseError)
        requires
            old(self).wf(),
        ensures
            final(self).wf(),
            final(self)@ == peek_of(old(self)@).1,
            e == (ParseError { token: peek_of(old(self)@).0, kind }),
    {
        ParseError::new(self.peek_token(), kind)
    }

    /// Takes the next token and expects it to be of the kind `want`.
    fn expect(&mut self, want: TokenKind, kind: ParseErrorKind) -> (r: Result<(), ParseError>)
        requires
            old(self).wf(),
        ensures
            final(self).wf(),
            final(self)@ == next_of(old(self)@).1,
            r == expect_kind(next_of(old(self)@).0, want, kind),
    {
        let next = self.next_token();
        if next.token.kind == want {
            Ok(())
        } else {
            Err(ParseError::new(next, kind))
        }
    }

    /// Takes the next token if it is of the kind `want`, and leaves it where
    /// it is not.
    fn accept(&mut self, want: TokenKind) -> (r: Option<()>)
        requires
            old(self).wf(),
        ensures
            final(self).wf(),
            r is Some == (peek_of(old(self)@).0.token.kind == want),
            r is Some ==> final(self)@ == next_of(old(self)@).1,
            r is None ==> final(self)@ == peek_of(old(self)@).1,
    {
        proof {
            self.cursor.lemma_wf();
            lemma_peek_keeps_next(self@);
        }
        if self.peek_token().token.kind == want {
            self.next_token();
            Some(())
        } else {
            None
        }
    }

    pub fn parse_null(&mut self) -> (r: Result<(), ParseError>)
        requires
            old(self).wf(),
        ensures
            final(self).wf(),
            final(self)@ == next_of(old(self)@).1,
            r == expect_kind(
                next_of(old(self)@).0,
                TokenKind::Keyword(Keyword::Null),
                ParseErrorKind::ExpectedNull,
            ),
    {
        self.expect(TokenKind::Keyword(Keyword::Null), ParseErrorKind::ExpectedNull)
    }

    pub fn try_parse_null(&mut self) -> (r: Option<Result<(), ParseError>>)
        requires
            old(self).wf(),
        ensures
            final(self).wf(),
            r == if peek_of(old(self)@).0.token.kind == TokenKind::Keyword(Keyword::Null) {
                Some(Ok::<(), ParseError>(()))
            } else {
                None
            },
            r is Some ==> final(self)@ == next_of(old(self)@).1,
            r is None ==> final(self)@ == peek_of(old(self)@).1,
    {
        match self.accept(TokenKind::Keyword(Keyword::Null)) {
            Some(_) => Some(Ok(())),
            None => None,
        }
    }

    pub fn parse_bool(&mut self) -> (r: Result<bool, ParseError>)
        requires
            old(self).wf(),
        ensures
            final(self).wf(),
            final(self)@ == next_of(old(self)@).1,
            r == expect_bool(next_of(old(self)@).0),
    {
        let next = self.next_token();
        if next.token.kind == TokenKind::Keyword(Keyword::True) {
            Ok(true)
        } else if next.token.kind == TokenKind::Keyword(Keyword::False) {
            Ok(false)
        } else {
            Err(ParseError::new(next, ParseErrorKind::ExpectedBool))
        }
    }

    pub fn try_parse_bool(&mut self) -> (r: Option<Result<bool, ParseError>>)
        requires
            old(self).wf(),
        ensures
            final(self).wf(),
            r is Some == (expect_bool(peek_of(old(self)@).0) is Ok),
            r is Some ==> r->0 == expect_bool(peek_of(old(self)@).0) && final(self)@ == next_of(
                old(self)@,
            ).1,
            r is None ==> final(self)@ == peek_of(old(self)@).1,
    {
        proof {
            self.cursor.lemma_wf();
            lemma_peek_keeps_next(self@);
        }
        let next = self.peek_token();
        if next.token.kind == TokenKind::Keyword(Keyword::True) || next.token.kind
            == TokenKind::Keyword(Keyword::False) {
            Some(self.parse_bool())
        } else {
            None
        }
    }

    pub fn parse_string(&mut self) -> (r: Result<String, ParseError>)
        requires
            old(self).wf(),
        ensures
            final(self).wf(),
            final(self)@ == next_of(old(self)@).1,
            match expect_string(old(self)@.text, next_of(old(self)@).0) {
                Ok(s) => r is Ok && r->Ok_0@ == s,
                Err(e) => r is Err && r->Err_0 == e,
            },
    {
        let next = self.next_token();
        match next.token.kind {
            TokenKind::String { terminated } => {
                if !terminated {
                    return Err(ParseError::new(next, ParseErrorKind::StringUnterminated));
                }
                let (from, to) = self.cursor.token_range(next.token);
                proof {
                    self.cursor.lemma_wf();
                    lemma_token_text(self.cursor.text(), next.token, from as int, to as int);
                    lemma_byte_offset_grows(self.cursor.text(), 0, self.cursor.text().len() as int);
                    lemma_byte_offset_end(self.cursor.text());
                }
                match unescape_range(self.cursor.chars(), from, to) {
                    Ok(out) => Ok(out),
                    Err(i) => Err(
                        ParseError::new(next, ParseErrorKind::InvalidEscape { pos: i as u32 }),
                    ),
                }
            },
            _ => Err(ParseError::new(next, ParseErrorKind::ExpectedString)),
        }
    }

    pub fn try_parse_string(&mut self) -> (r: Option<Result<String, ParseError>>)
        requires
            old(self).wf(),
        ensures
            final(self).wf(),
            r is Some == (peek_of(old(self)@).0.token.kind is String),
            r is Some ==> final(self)@ == next_of(old(self)@).1 && match expect_string(
                old(self)@.text,
                next_of(old(self)@).0,
            ) {
                Ok(s) => r->0 is Ok && r->0->Ok_0@ == s,
                Err(e) => r->0 is Err && r->0->Err_0 == e,
            },
            r is None ==> final(self)@ == peek_of(old(self)@).1,
    {
        proof {
            self.cursor.lemma_wf();
            lemma_peek_keeps_next(self@);
        }
        match self.peek_token().token.kind {
            TokenKind::String { .. } => Some(self.parse_string()),
            _ => None,
        }
    }

    /// The magnitude that the digits of the integer token `tok` write.
    fn token_magnitude(&self, tok: Token, sign: bool, base: Base) -> (r: Option<u64>)
        requires
            self.wf(),
            token_in(self@.text, tok),
        ensures
            r == magnitude(
                digit_span(token_text(self@.text, tok), sign, base),
                base.spec_radix() as int,
            ),
    {
        let (from, to) = self.cursor.token_range(tok);
        proof {
            self.cursor.lemma_wf();
            lemma_token_text(self.cursor.text(), tok, from as int, to as int);
        }
        let lead: usize = base.digit_offset() + if sign {
            1
        } else {
            0
        };
        let ghost w = token_text(self@.text, tok);
        if to - from < lead {
            assert(digit_span(w, sign, base).len() == 0);
            None
        } else {
            assert(self.cursor.text().subrange((from + lead) as int, to as int) =~= digit_span(
                w,
                sign,
                base,
            ));
            parse_digits(self.cursor.chars(), from + lead, to, base.radix())
        }
    }

    /// Takes the next token as an unsigned integer that fits `width`.
    pub fn parse_unsigned(&mut self, width: IntWidth) -> (r: Result<u64, ParseError>)
        requires
            old(self).wf(),
        ensures
            final(self).wf(),
            final(self)@ == next_of(old(self)@).1,
            r == expect_uint(old(self)@.text, next_of(old(self)@).0, width),
    {
        let next = self.next_token();
        match next.token.kind {
            TokenKind::Integer { sign: false, base } => {
                match self.token_magnitude(next.token, false, base) {
                    Some(v) => {
                        if v <= width.max_unsigned() {
                            Ok(v)
                        } else {
                            Err(ParseError::new(next, ParseErrorKind::InvalidInteger))
                        }
                    },
                    None => Err(ParseError::new(next, ParseErrorKind::InvalidInteger)),
                }
            },
            _ => Err(ParseError::new(next, ParseErrorKind::ExpectedInteger { signed: false })),
        }
    }

    /// Takes the next token as a signed integer that fits `width`.
    pub fn parse_signed(&mut self, width: IntWidth) -> (r: Result<i64, ParseError>)
        requires
            old(self).wf(),
        ensures
            final(self).wf(),
            final(self)@ == next_of(old(self)@).1,
            r == expect_int(old(self)@.text, next_of(old(self)@).0, width),
    {
        let next = self.next_token();
        match next.token.kind {
            TokenKind::Integer { sign, base } => {
                match self.token_magnitude(next.token, sign, base) {
                    Some(m) => {
                        let limit: i64 = width.max_signed();
                        if sign {
                            if m > (limit as u64) + 1 {
                                Err(ParseError::new(next, ParseErrorKind::InvalidInteger))
                            } else if m == 0x8000_0000_0000_0000 {
                                Ok(i64::MIN)
                            } else {
                                Ok(-(m as i64))
                            }
                        } else {
                            if m > limit as u64 {
                                Err(ParseError::new(next, ParseErrorKind::InvalidInteger))
                            } else {
                                Ok(m as i64)
                            }
                        }
                    },
                    None => Err(ParseError::new(next, ParseErrorKind::InvalidInteger)),
                }
            },
            _ => Err(ParseError::new(next, ParseErrorKind::ExpectedInteger { signed: true })),
        }
    }

    /// Takes the next token as an unsigned integer of the type `T`: the 64-bit
    /// value of the token, narrowed by the conversion of `T`.
    pub fn parse_uint<T: TryFrom<u64>>(&mut self) -> (r: Result<T, ParseError>)
        requires
            old(self).wf(),
        ensures
            final(self).wf(),
            final(self)@ == next_of(old(self)@).1,
            match expect_uint(old(self)@.text, next_of(old(self)@).0, IntWidth::W64) {
                Ok(v) => T::obeys_try_from_spec() ==> match T::try_from_spec(v) {
                    Ok(t) => r == Ok::<T, ParseError>(t),
                    Err(_) => r == Err::<T, ParseError>(
                        ParseError {
                            token: next_of(old(self)@).0,
                            kind: ParseErrorKind::InvalidInteger,
                        },
                    ),
                },
                Err(e) => r == Err::<T, ParseError>(e),
            },
    {
        proof {
            self.cursor.lemma_wf();
            lemma_peek_keeps_next(self@);
        }
        let next = self.peek_token();
        match self.parse_unsigned(IntWidth::W64) {
            Ok(v) => match T::try_from(v) {
                Ok(t) => Ok(t),
                Err(_) => Err(ParseError::new(next, ParseErrorKind::InvalidInteger)),
            },
            Err(e) => Err(e),
        }
    }

    /// Takes the next token as a signed integer of the type `T`: the 64-bit
    /// value of the token, narrowed by the conversion of `T`.
    pub fn parse_int<T: TryFrom<i64>>(&mut self) -> (r: Result<T, ParseError>)
        requires
            old(self).wf(),
        ensures
            final(self).wf(),
            final(self)@ == next_of(old(self)@).1,
            match expect_int(old(self)@.text, next_of(old(self)@).0, IntWidth::W64) {
                Ok(v) => T::obeys_try_from_spec() ==> match T::try_from_spec(v) {
                    Ok(t) => r == Ok::<T, ParseError>(t),
                    Err(_) => r == Err::<T, ParseError>(
                        ParseError {
                            token: next_of(old(self)@).0,
                            kind: ParseErrorKind::InvalidInteger,
                        },
                    ),
                },
                Err(e) => r == Err::<T, ParseError>(e),
            },
    {
        proof {
            self.cursor.lemma_wf();
            lemma_peek_keeps_next(self@);
        }
        let next = self.peek_token();
        match self.parse_signed(IntWidth::W64) {
            Ok(v) => match T::try_from(v) {
                Ok(t) => Ok(t),
                Err(_) => Err(ParseError::new(next, ParseErrorKind::InvalidInteger)),
            },
            Err(e) => Err(e),
        }
    }

    /// Takes the next token as a floating point literal: the token and its
    /// text, which is left to the caller to read as a number.
    pub fn parse_float(&mut self) -> (r: Result<(SpanToken, String), ParseError>)
        requires
            old(self).wf(),
        ensures
            final(self).wf(),
            final(self)@ == next_of(old(self)@).1,
            match r {
                Ok(found) => next_of(old(self)@).0.token.kind == TokenKind::Float && found.0
                    == next_of(old(self)@).0 && found.1@ == token_text(
                    old(self)@.text,
                    found.0.token,
                ),
                Err(e) => next_of(old(self)@).0.token.kind != TokenKind::Float && e == (
                ParseError { token: next_of(old(self)@).0, kind: ParseErrorKind::ExpectedFloat }),
            },
    {
        let next = self.next_token();
        if next.token.kind == TokenKind::Float {
            Ok((next, self.cursor.token_string(next.token)))
        } else {
            Err(ParseError::new(next, ParseErrorKind::ExpectedFloat))
        }
    }

    pub fn try_parse_uint(&mut self) -> (r: Option<Result<u64, ParseError>>)
        requires
            old(self).wf(),
        ensures
            final(self).wf(),
            r is Some == (peek_of(old(self)@).0.token.kind matches TokenKind::Integer {
                sign: false,
                ..
            }),
            r is Some ==> final(self)@ == next_of(old(self)@).1 && r->0 == expect_uint(
                old(self)@.text,
                next_of(old(self)@).0,
                IntWidth::W64,
            ),
            r is None ==> final(self)@ == peek_of(old(self)@).1,
    {
        proof {
            self.cursor.lemma_wf();
            lemma_peek_keeps_next(self@);
        }
        match self.peek_token().token.kind {
            TokenKind::Integer { sign: false, .. } => Some(self.parse_unsigned(IntWidth::W64)),
            _ => None,
        }
    }

    pub fn try_parse_int(&mut self) -> (r: Option<Result<i64, ParseError>>)
        requires
            old(self).wf(),
        ensures
            final(self).wf(),
            r is Some == (peek_of(old(self)@).0.token.kind is Integer),
            r is Some ==> final(self)@ == next_of(old(self)@).1 && r->0 == expect_int(
                old(self)@.text,
                next_of(old(self)@).0,
                IntWidth::W64,
            ),
            r is None ==> final(self)@ == peek_of(old(self)@).1,
    {
        proof {
            self.cursor.lemma_wf();
            lemma_peek_keeps_next(self@);
        }
        match self.peek_token().token.kind {
            TokenKind::Integer { .. } => Some(self.parse_signed(IntWidth::W64)),
            _ => None,
        }
    }

    pub fn try_parse_float(&mut self) -> (r: Option<Result<(SpanToken, String), ParseError>>)
        requires
            old(self).wf(),
        ensures
            final(self).wf(),
            r is Some == (peek_of(old(self)@).0.token.kind == TokenKind::Float),
            r is Some ==> final(self)@ == next_of(old(self)@).1 && r->0 is Ok && ({
                let found = r->0->Ok_0;
                found.0 == next_of(old(self)@).0 && found.1@ == token_text(
                    old(self)@.text,
                    found.0.token,
                )
            }),
            r is None ==> final(self)@ == peek_of(old(self)@).1,
    {
        proof {
            self.cursor.lemma_wf();
            lemma_peek_keeps_next(self@);
        }
        if self.peek_token().token.kind == TokenKind::Float {
            Some(self.parse_float())
        } else {
            None
        }
    }

    pub fn start_map(&mut self) -> (r: Result<(), ParseError>)
        requires
            old(self).wf(),
        ensures
            final(self).wf(),
            final(self)@ == next_of(old(self)@).1,
            r == expect_kind(
                next_of(old(self)@).0,
                TokenKind::StartCurly,
                ParseErrorKind::ExpectedMapStart,
            ),
    {
        self.expect(TokenKind::StartCurly, ParseErrorKind::ExpectedMapStart)
    }

    pub fn map_delimiter(&mut self) -> (r: Result<(), ParseError>)
        requires
            old(self).wf(),
        ensures
            final(self).wf(),
            final(self)@ == next_of(old(self)@).1,
            r == expect_kind(next_of(old(self)@).0, TokenKind::Equal, ParseErrorKind::ExpectedEqual),
    {
        self.expect(TokenKind::Equal, ParseErrorKind::ExpectedEqual)
    }

    pub fn end_map(&mut self) -> (r: Result<(), ParseError>)
        requires
            old(self).wf(),
        ensures
            final(self).wf(),
            final(self)@ == next_of(old(self)@).1,
            r == expect_kind(
                next_of(old(self)@).0,
                TokenKind::EndCurly,
                ParseErrorKind::ExpectedMapEnd,
            ),
    {
        self.expect(TokenKind::EndCurly, ParseErrorKind::ExpectedMapEnd)
    }

    pub fn try_start_map(&mut self) -> (r: Option<()>)
        requires
            old(self).wf(),
        ensures
            final(self).wf(),
            r is Some == (peek_of(old(self)@).0.token.kind == TokenKind::StartCurly),
            r is Some ==> final(self)@ == next_of(old(self)@).1,
            r is None ==> final(self)@ == peek_of(old(self)@).1,
    {
        self.accept(TokenKind::StartCurly)
    }

    pub fn try_map_delimiter(&mut self) -> (r: Option<()>)
        requires
            old(self).wf(),
        ensures
            final(self).wf(),
            r is Some == (peek_of(old(self)@).0.token.kind == TokenKind::Equal),
            r is Some ==> final(self)@ == next_of(old(self)@).1,
            r is None ==> final(self)@ == peek_of(old(self)@).1,
    {
        self.accept(TokenKind::Equal)
    }

    pub fn try_end_map(&mut self) -> (r: Option<()>)
        requires
            old(self).wf(),
        ensures
            final(self).wf(),
            r is Some == (peek_of(old(self)@).0.token.kind == TokenKind::EndCurly),
            r is Some ==> final(self)@ == next_of(old(self)@).1,
            r is None ==> final(self)@ == peek_of(old(self)@).1,
    {
        self.accept(TokenKind::EndCurly)
    }

    pub fn peek_end_map(&mut self) -> (r: bool)
        requires
            old(self).wf(),
        ensures
            final(self).wf(),
            final(self)@ == peek_of(old(self)@).1,
            r == (peek_of(old(self)@).0.token.kind == TokenKind::EndCurly),
    {
        self.peek_token().token.kind == TokenKind::EndCurly
    }

    pub fn start_list(&mut self) -> (r: Result<(), ParseError>)
        requires
            old(self).wf(),
        ensures
            final(self).wf(),
            final(self)@ == next_of(old(self)@).1,
            r == expect_kind(
                next_of(old(self)@).0,
                TokenKind::StartSquare,
                ParseErrorKind::ExpectedListStart,
            ),
    {
        self.expect(TokenKind::StartSquare, ParseErrorKind::ExpectedListStart)
    }

    pub fn end_list(&mut self) -> (r: Result<(), ParseError>)
        requires
            old(self).wf(),
        ensures
            final(self).wf(),
            final(self)@ == next_of(old(self)@).1,
            r == expect_kind(
                next_of(old(self)@).0,
                TokenKind::EndSquare,
                ParseErrorKind::ExpectedListEnd,
            ),
    {
        self.expect(TokenKind::EndSquare, ParseErrorKind::ExpectedListEnd)
    }

    pub fn try_start_list(&mut self) -> (r: Option<()>)
        requires
            old(self).wf(),
        ensures
            final(self).wf(),
            r is Some == (peek_of(old(self)@).0.token.kind == TokenKind::StartSquare),
            r is Some ==> final(self)@ == next_of(old(self)@).1,
            r is None ==> final(self)@ == peek_of(old(self)@).1,
    {
        self.accept(TokenKind::StartSquare)
    }

    pub fn try_end_list(&mut self) -> (r: Option<()>)
        requires
            old(self).wf(),
        ensures
            final(self).wf(),
            r is Some == (peek_of(old(self)@).0.token.kind == TokenKind::EndSquare),
            r is Some ==> final(self)@ == next_of(old(self)@).1,
            r is None ==> final(self)@ == peek_of(old(self)@).1,
    {
        self.accept(TokenKind::EndSquare)
    }

    pub fn peek_end_list(&mut self) -> (r: bool)
        requires
            old(self).wf(),
        ensures
            final(self).wf(),
            final(self)@ == peek_of(old(self)@).1,
            r == (peek_of(old(self)@).0.token.kind == TokenKind::EndSquare),
    {
        self.peek_token().token.kind == TokenKind::EndSquare
    }

    /// Takes a dotted path: an identifier and the `.identifier` segments
    /// that follow it with nothing between.
    pub fn parse_path(&mut self) -> (r: Result<MapPath, ParseError>)
        requires
            old(self).wf(),
        ensures
            final(self).wf(),
            final(self)@ == path_of(old(self)@).1,
            match path_of(old(self)@).0 {
                Ok(m) => r is Ok && r->Ok_0@ == m,
                Err(e) => r is Err && r->Err_0 == e,
            },
    {
        let next = self.next_token();
        if next.token.kind != TokenKind::Ident {
            return Err(ParseError::new(next, ParseErrorKind::ExpectedIdent));
        }
        let first = self.cursor.token_string(next.token);
        let mut path: Vec<String> = Vec::new();
        let ghost text = self@.text;
        let ghost start = self@;
        let ghost full = (text.len() + 1) as nat;
        let ghost mut fuel = full;
        proof {
            self.cursor.lemma_wf();
            assert(segments(path@) + Seq::<Seq<char>>::empty() =~= segments(path@));
            assert(segments(path@) =~= Seq::<Seq<char>>::empty());
        }
        loop
            invariant
                self.wf(),
                self@.text == text,
                self@.skip == start.skip,
                self@.lookahead is None,
                fuel >= text.len() - self@.index + 1,
                full == text.len() + 1,
                text == old(self)@.text,
                start == next_of(old(self)@).1,
                next == next_of(old(self)@).0,
                next.token.kind == TokenKind::Ident,
                first@ == token_text(text, next.token),
                path_tail(start, full) == join_segments(segments(path@), path_tail(self@, fuel)),
            decreases text.len() - self@.index,
        {
            let ghost before = self@;
            proof {
                self.cursor.lemma_wf();
                lemma_scan_visible(text, before.index, before.line, before.col, false);
            }
            let p = self.peek_no_skip();
            if p.token.kind != TokenKind::Dot {
                proof {
                    assert(segments(path@) + Seq::<Seq<char>>::empty() =~= segments(path@));
                }
                return Ok(MapPath { key: first, path });
            }
            self.next_no_skip();
            proof {
                self.cursor.lemma_wf();
                lemma_scan_visible(text, self@.index, self@.line, self@.col, false);
            }
            let segment = self.next_no_skip();
            if segment.token.kind != TokenKind::Ident {
                return Err(ParseError::new(segment, ParseErrorKind::ExpectedIdent));
            }
            let name = self.cursor.token_string(segment.token);
            let ghost done = segments(path@);
            path.push(name);
            proof {
                let rest = path_tail(self@, (fuel - 1) as nat);
                assert(segments(path@) =~= done.push(name@));
                if let Ok(more) = rest.0 {
                    assert(done.push(name@) + more =~= done + (seq![name@] + more));
                }
                fuel = (fuel - 1) as nat;
            }
        }
    }

    pub fn try_parse_path(&mut self) -> (r: Option<Result<MapPath, ParseError>>)
        requires
            old(self).wf(),
        ensures
            final(self).wf(),
            r is Some == (peek_of(old(self)@).0.token.kind == TokenKind::Ident),
            r is Some ==> final(self)@ == path_of(old(self)@).1 && match path_of(old(self)@).0 {
                Ok(m) => r->0 is Ok && r->0->Ok_0@ == m,
                Err(e) => r->0 is Err && r->0->Err_0 == e,
            },
            r is None ==> final(self)@ == peek_of(old(self)@).1,
    {
        proof {
            self.cursor.lemma_wf();
            lemma_peek_keeps_next(self@);
        }
        if self.peek_token().token.kind == TokenKind::Ident {
            Some(self.parse_path())
        } else {
            None
        }
    }
}

} // verus!
