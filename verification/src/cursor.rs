//! The lexer: a cursor over source text that hands out position-tagged tokens.

use vstd::prelude::*;
use vstd::string::{StrSliceExecFns, StringSliceAdditionalSpecFns};
use crate::text::{byte_len, byte_offset, char_width, chars_of};
use crate::text::{lemma_byte_len_is_encoded_len, lemma_byte_offset_end, lemma_byte_offset_grows, lemma_byte_offset_step};

verus! {

/// Whether a character has the Unicode property XID_Start.
pub uninterp spec fn xid_start(c: char) -> bool;

/// Whether a character has the Unicode property XID_Continue.
pub uninterp spec fn xid_continue(c: char) -> bool;

/// A letter of the ASCII alphabet.
pub open spec fn is_ascii_letter(c: char) -> bool {
    ('a' <= c && c <= 'z') || ('A' <= c && c <= 'Z')
}

/// `unicode_ident::is_xid_start` looks the character up in the crate's tables
/// for XID_Start; its answer depends on the character alone and is what
/// `xid_start` names. For an ASCII character the crate answers from a bit
/// mask that holds the letters `A` to `Z` and `a` to `z`.
pub assume_specification[ unicode_ident::is_xid_start ](ch: char) -> (r: bool)
    ensures
        r == xid_start(ch),
        (ch as u32) < 0x80 ==> r == is_ascii_letter(ch),
;

/// `unicode_ident::is_xid_continue` looks the character up in the crate's
/// tables for XID_Continue; its answer depends on the character alone and is
/// what `xid_continue` names. For an ASCII character the crate answers from a
/// bit mask that holds the letters, the digits `0` to `9` and `_`.
pub assume_specification[ unicode_ident::is_xid_continue ](ch: char) -> (r: bool)
    ensures
        r == xid_continue(ch),
        (ch as u32) < 0x80 ==> r == (is_ascii_letter(ch) || is_digit(ch) || ch == '_'),
;

/// Whether `c` can start an identifier: `_`, an ASCII letter, or a character
/// beyond ASCII with the property XID_Start.
pub open spec fn starts_word(c: char) -> bool {
    if (c as u32) < 0x80 {
        is_ascii_letter(c) || c == '_'
    } else {
        xid_start(c)
    }
}

/// Whether `c` can continue an identifier: `_`, `-`, an ASCII letter or
/// digit, or a character beyond ASCII with the property XID_Continue.
pub open spec fn continues_word(c: char) -> bool {
    if (c as u32) < 0x80 {
        is_ascii_letter(c) || is_digit(c) || c == '_' || c == '-'
    } else {
        xid_continue(c)
    }
}

#[derive(Debug, PartialEq, Eq, Clone, Copy, Structural)]
pub enum Keyword {
    True,
    False,
    Null,
}

/// The text of a keyword.
pub open spec fn keyword_text(k: Keyword) -> Seq<char> {
    match k {
        Keyword::True => "true"@,
        Keyword::False => "false"@,
        Keyword::Null => "null"@,
    }
}

impl Keyword {
    #[inline]
    pub fn as_str(&self) -> (s: &'static str)
        ensures
            s@ == keyword_text(*self),
    {
        match self {
            Keyword::True => "true",
            Keyword::False => "false",
            Keyword::Null => "null",
        }
    }
}

#[derive(Debug, PartialEq, Eq, Clone, Copy, Structural)]
pub enum Base {
    Dec,
    Hex,
    Bin,
    Oct,
}

impl Base {
    /// Length of the prefix (`0x`, `0o`, `0b`) that stands before the digits.
    pub open spec fn spec_digit_offset(self) -> nat {
        match self {
            Base::Dec => 0,
            _ => 2,
        }
    }

    pub open spec fn spec_radix(self) -> nat {
        match self {
            Base::Hex => 16,
            Base::Dec => 10,
            Base::Oct => 8,
            Base::Bin => 2,
        }
    }

    #[inline]
    pub fn digit_offset(&self) -> (n: usize)
        ensures
            n == self.spec_digit_offset(),
    {
        match self {
            Base::Dec => 0,
            _ => 2,
        }
    }

    #[inline]
    pub fn radix(&self) -> (r: u32)
        ensures
            r == self.spec_radix(),
    {
        match self {
            Base::Hex => 16,
            Base::Dec => 10,
            Base::Oct => 8,
            Base::Bin => 2,
        }
    }
}

#[derive(Debug, PartialEq, Eq, Clone, Copy, Structural)]
pub enum TokenKind {
    Comment,
    Whitespace,
    Ident,
    Keyword(Keyword),
    StartSquare,
    EndSquare,
    StartCurly,
    EndCurly,
    Dot,
    Equal,
    Integer { sign: bool, base: Base },
    Float,
    String { terminated: bool },
    Unknown,
    Eof,
}

/// A token: its kind and the byte range of its text in the source.
#[derive(Debug, PartialEq, Eq, Clone, Copy, Structural)]
pub struct Token {
    pub kind: TokenKind,
    pub start: usize,
    pub end: usize,
}

/// The sets of characters that the lexer consumes in runs.
#[derive(Debug, PartialEq, Eq, Clone, Copy, Structural)]
pub enum CharClass {
    Whitespace,
    DecDigit,
    HexDigit,
    IdentContinue,
    CommentBody,
}

pub open spec fn is_whitespace(c: char) -> bool {
    c == '\u{0009}' || c == '\u{000A}' || c == '\u{000B}' || c == '\u{000C}' || c == '\u{000D}'
        || c == '\u{0020}' || c == '\u{0085}' || c == '\u{200E}' || c == '\u{200F}' || c
        == '\u{2028}' || c == '\u{2029}'
}

/// `0` to `9`.
pub open spec fn is_digit(c: char) -> bool {
    '0' <= c && c <= '9'
}

/// A decimal digit or the separator `_`.
pub open spec fn is_dec_digit(c: char) -> bool {
    is_digit(c) || c == '_'
}

pub open spec fn is_hex_digit(c: char) -> bool {
    is_dec_digit(c) || ('a' <= c && c <= 'f') || ('A' <= c && c <= 'F')
}

pub open spec fn in_class(class: CharClass, c: char) -> bool {
    match class {
        CharClass::Whitespace => is_whitespace(c),
        CharClass::DecDigit => is_dec_digit(c),
        CharClass::HexDigit => is_hex_digit(c),
        CharClass::IdentContinue => continues_word(c),
        CharClass::CommentBody => c != '\n',
    }
}

/// The first index at or after `pos` whose character is not in `class`, or
/// the length of `s` where there is none.
pub open spec fn scan_while(s: Seq<char>, pos: int, class: CharClass) -> int
    decreases s.len() - pos,
{
    if 0 <= pos < s.len() && in_class(class, s[pos]) {
        scan_while(s, pos + 1, class)
    } else {
        pos
    }
}

/// The kind of an identifier-shaped word: one of the three keywords, or an
/// identifier.
pub open spec fn word_kind(w: Seq<char>) -> TokenKind {
    if w == seq!['t', 'r', 'u', 'e'] {
        TokenKind::Keyword(Keyword::True)
    } else if w == seq!['f', 'a', 'l', 's', 'e'] {
        TokenKind::Keyword(Keyword::False)
    } else if w == seq!['n', 'u', 'l', 'l'] {
        TokenKind::Keyword(Keyword::Null)
    } else {
        TokenKind::Ident
    }
}

/// Where a string that opened before `p` ends, and whether a closing quote
/// ended it. A backslash hides a following quote or backslash; a bare
/// newline or the end of the text ends the token unclosed.
pub open spec fn lex_string(s: Seq<char>, p: int) -> (bool, int)
    decreases s.len() - p,
{
    if p < 0 || p >= s.len() {
        (false, p)
    } else if s[p] == '"' {
        (true, p + 1)
    } else if s[p] == '\n' {
        (false, p + 1)
    } else if s[p] == '\\' && p + 1 < s.len() && (s[p + 1] == '"' || s[p + 1] == '\\') {
        lex_string(s, p + 2)
    } else {
        lex_string(s, p + 1)
    }
}

/// End of an exponent that may start at `f`: `e` or `E`, an optional sign,
/// then digits. `f` itself where no exponent starts there.
pub open spec fn lex_exponent(s: Seq<char>, f: int) -> int {
    if 0 <= f < s.len() && (s[f] == 'e' || s[f] == 'E') {
        let g = f + 1;
        let h = if g < s.len() && (s[g] == '+' || s[g] == '-') {
            g + 1
        } else {
            g
        };
        scan_while(s, h, CharClass::DecDigit)
    } else {
        f
    }
}

/// What follows the integer part of a decimal number that ends at `e`: a
/// fraction with an optional exponent, a bare exponent, or nothing.
pub open spec fn lex_number_tail(s: Seq<char>, sign: bool, e: int) -> (TokenKind, int) {
    if 0 <= e && e + 1 < s.len() && s[e] == '.' && is_digit(s[e + 1]) {
        (TokenKind::Float, lex_exponent(s, scan_while(s, e + 1, CharClass::DecDigit)))
    } else if 0 <= e < s.len() && (s[e] == 'e' || s[e] == 'E') {
        (TokenKind::Float, lex_exponent(s, e))
    } else {
        (TokenKind::Integer { sign, base: Base::Dec }, e)
    }
}

/// The number token that starts at `pos`, where a digit or `-` stands.
pub open spec fn lex_number(s: Seq<char>, pos: int) -> (TokenKind, int) {
    let sign = s[pos] == '-';
    let d = if sign {
        pos + 1
    } else {
        pos
    };
    if !(d < s.len() && is_digit(s[d])) {
        (TokenKind::Integer { sign: true, base: Base::Dec }, d)
    } else if s[d] == '0' && d + 1 < s.len() && s[d + 1] == 'x' {
        (TokenKind::Integer { sign, base: Base::Hex }, scan_while(s, d + 2, CharClass::HexDigit))
    } else if s[d] == '0' && d + 1 < s.len() && s[d + 1] == 'o' {
        (TokenKind::Integer { sign, base: Base::Oct }, scan_while(s, d + 2, CharClass::DecDigit))
    } else if s[d] == '0' && d + 1 < s.len() && s[d + 1] == 'b' {
        (TokenKind::Integer { sign, base: Base::Bin }, scan_while(s, d + 2, CharClass::DecDigit))
    } else {
        lex_number_tail(s, sign, scan_while(s, d + 1, CharClass::DecDigit))
    }
}

/// The token that starts at character index `pos` of `s`: its kind and the
/// index at which it ends.
pub open spec fn lex(s: Seq<char>, pos: int) -> (TokenKind, int) {
    if pos < 0 || pos >= s.len() {
        (TokenKind::Eof, pos)
    } else {
        let c = s[pos];
        let p = pos + 1;
        if c == '/' {
            if p < s.len() && s[p] == '/' {
                let e = scan_while(s, p, CharClass::CommentBody);
                (
                    TokenKind::Comment,
                    if e < s.len() {
                        e + 1
                    } else {
                        e
                    },
                )
            } else {
                (TokenKind::Unknown, p)
            }
        } else if is_whitespace(c) {
            (TokenKind::Whitespace, scan_while(s, p, CharClass::Whitespace))
        } else if starts_word(c) {
            let e = scan_while(s, p, CharClass::IdentContinue);
            (word_kind(s.subrange(pos, e)), e)
        } else if c == '[' {
            (TokenKind::StartSquare, p)
        } else if c == ']' {
            (TokenKind::EndSquare, p)
        } else if c == '{' {
            (TokenKind::StartCurly, p)
        } else if c == '}' {
            (TokenKind::EndCurly, p)
        } else if c == '.' {
            (TokenKind::Dot, p)
        } else if c == '=' {
            (TokenKind::Equal, p)
        } else if is_digit(c) || c == '-' {
            lex_number(s, pos)
        } else if c == '"' {
            let r = lex_string(s, p);
            (TokenKind::String { terminated: r.0 }, r.1)
        } else {
            (TokenKind::Unknown, p)
        }
    }
}

/// `t` spans the characters of `s` with the indices `i` to `j`.
pub open spec fn token_placed(s: Seq<char>, t: Token, i: int, j: int) -> bool {
    0 <= i <= j <= s.len() && t.start == byte_offset(s, i) && t.end == byte_offset(s, j)
}

/// The byte range of `t` starts and ends where characters of `s` start.
pub open spec fn token_in(s: Seq<char>, t: Token) -> bool {
    exists|i: int, j: int| token_placed(s, t, i, j)
}

/// The characters of `s` that the byte range of `t` covers.
pub open spec fn token_text(s: Seq<char>, t: Token) -> Seq<char> {
    let (i, j) = choose|i: int, j: int| token_placed(s, t, i, j);
    s.subrange(i, j)
}

/// A byte range covers one run of characters only.
pub proof fn lemma_token_text(s: Seq<char>, t: Token, i: int, j: int)
    requires
        token_placed(s, t, i, j),
    ensures
        token_in(s, t),
        token_text(s, t) == s.subrange(i, j),
{
    let (a, b) = choose|a: int, b: int| token_placed(s, t, a, b);
    if a < i {
        lemma_byte_offset_grows(s, a, i);
    }
    if i < a {
        lemma_byte_offset_grows(s, i, a);
    }
    if b < j {
        lemma_byte_offset_grows(s, b, j);
    }
    if j < b {
        lemma_byte_offset_grows(s, j, b);
    }
}

/// A cursor over source text. It keeps the text, the index of the next
/// character and the byte offset at which that character starts, and
/// remembers where the last token started, so that its text is found again
/// without a walk from the start of the source.
#[derive(Clone, Debug)]
pub struct Cursor<'a> {
    src: &'a str,
    chars: Vec<char>,
    pos: usize,
    offset: usize,
    mark_pos: usize,
    mark_off: usize,
}

/// Whether `c` belongs to `class`.
pub fn class_has(class: CharClass, c: char) -> (r: bool)
    ensures
        r == in_class(class, c),
{
    match class {
        CharClass::Whitespace => c == '\u{0009}' || c == '\u{000A}' || c == '\u{000B}' || c
            == '\u{000C}' || c == '\u{000D}' || c == '\u{0020}' || c == '\u{0085}' || c
            == '\u{200E}' || c == '\u{200F}' || c == '\u{2028}' || c == '\u{2029}',
        CharClass::DecDigit => ('0' <= c && c <= '9') || c == '_',
        CharClass::HexDigit => ('0' <= c && c <= '9') || c == '_' || ('a' <= c && c <= 'f') || (
        'A' <= c && c <= 'F'),
        CharClass::IdentContinue => unicode_ident::is_xid_continue(c) || c == '_' || c == '-',
        CharClass::CommentBody => c != '\n',
    }
}

impl<'a> Cursor<'a> {
    /// The source text as characters.
    pub closed spec fn text(&self) -> Seq<char> {
        self.src@
    }

    /// Index of the next character to read.
    pub closed spec fn index(&self) -> int {
        self.pos as int
    }

    /// Byte offset of the next character to read.
    pub closed spec fn spec_offset(&self) -> int {
        self.offset as int
    }

    /// The cursor stands within its text and its byte offset is that of its
    /// character index.
    pub closed spec fn wf(&self) -> bool {
        &&& self.chars@ == self.src@
        &&& self.pos <= self.chars.len()
        &&& self.offset == byte_offset(self.src@, self.pos as int)
        &&& byte_len(self.src@) <= usize::MAX
        &&& self.mark_pos <= self.chars.len()
        &&& self.mark_off == byte_offset(self.src@, self.mark_pos as int)
    }

    /// What well-formedness says of the accessors.
    pub proof fn lemma_wf(&self)
        requires
            self.wf(),
        ensures
            0 <= self.index() <= self.text().len(),
            self.spec_offset() == byte_offset(self.text(), self.index()),
            self.spec_offset() <= byte_len(self.text()) <= usize::MAX,
    {
        lemma_byte_offset_grows(self.src@, self.pos as int, self.src@.len() as int);
        lemma_byte_offset_end(self.src@);
    }

    pub fn new(src: &'a str) -> (c: Self)
        ensures
            c.wf(),
            c.text() == src@,
            c.index() == 0,
    {
        let chars = chars_of(src);
        let bytes = src.as_bytes();
        let n: usize = bytes.len();
        proof {
            assert(src.spec_bytes() == vstd::utf8::encode_utf8(src@));
            lemma_byte_len_is_encoded_len(src@);
            lemma_byte_offset_end(src@);
        }
        Cursor { src, chars, pos: 0, offset: 0, mark_pos: 0, mark_off: 0 }
    }

    fn peek(&self) -> (c: Option<char>)
        requires
            self.wf(),
        ensures
            c == if self.index() < self.text().len() {
                Some(self.text()[self.index()])
            } else {
                None
            },
    {
        if self.pos < self.chars.len() {
            Some(self.chars[self.pos])
        } else {
            None
        }
    }

    /// The character after the next one.
    fn peek_second(&self) -> (c: Option<char>)
        requires
            self.wf(),
        ensures
            c == if self.index() + 1 < self.text().len() {
                Some(self.text()[self.index() + 1])
            } else {
                None
            },
    {
        if self.pos < self.chars.len() && self.pos + 1 < self.chars.len() {
            Some(self.chars[self.pos + 1])
        } else {
            None
        }
    }

    /// Steps over one character.
    fn bump(&mut self)
        requires
            old(self).wf(),
            old(self).index() < old(self).text().len(),
        ensures
            final(self).wf(),
            final(self).text() == old(self).text(),
            final(self).index() == old(self).index() + 1,
    {
        proof {
            lemma_byte_offset_step(self.src@, self.pos as int);
            lemma_byte_offset_grows(self.src@, self.pos as int + 1, self.src@.len() as int);
            lemma_byte_offset_end(self.src@);
        }
        let w: usize = char_width(self.chars[self.pos]);
        self.offset = self.offset + w;
        self.pos = self.pos + 1;
    }

    #[inline]
    pub fn is_eof(&self) -> (r: bool)
        requires
            self.wf(),
        ensures
            r == (self.index() == self.text().len()),
    {
        self.pos >= self.chars.len()
    }

    #[inline]
    pub fn src(&self) -> (s: &'a str)
        ensures
            s@ == self.text(),
    {
        self.src
    }

    #[inline]
    pub fn offset(&self) -> (n: usize)
        requires
            self.wf(),
        ensures
            n == byte_offset(self.text(), self.index()),
    {
        self.offset
    }

    /// Index of the next character to read.
    #[inline]
    pub fn position(&self) -> (n: usize)
        ensures
            n == self.index(),
    {
        self.pos
    }

    /// The characters of the source.
    #[inline]
    pub fn chars(&self) -> (v: &Vec<char>)
        requires
            self.wf(),
        ensures
            v@ == self.text(),
    {
        &self.chars
    }

    /// The indices of the first character of `token` and of the first
    /// character after it.
    pub fn token_range(&self, token: Token) -> (r: (usize, usize))
        requires
            self.wf(),
            token_in(self.text(), token),
        ensures
            token_placed(self.text(), token, r.0 as int, r.1 as int),
    {
        let ghost (i0, j0) = choose|i: int, j: int| token_placed(self.text(), token, i, j);
        let mut k: usize = 0;
        let mut off: usize = 0;
        proof {
            lemma_byte_offset_end(self.src@);
        }
        if self.mark_off <= token.start {
            k = self.mark_pos;
            off = self.mark_off;
            proof {
                if i0 < k {
                    lemma_byte_offset_grows(self.src@, i0, k as int);
                }
            }
        }
        while off < token.start
            invariant
                self.wf(),
                token_placed(self.text(), token, i0, j0),
                k <= i0,
                off == byte_offset(self.text(), k as int),
            decreases i0 - k,
        {
            proof {
                if k == i0 {
                    assert(false);
                }
                lemma_byte_offset_step(self.src@, k as int);
                lemma_byte_offset_grows(self.src@, k + 1, i0);
                lemma_byte_offset_grows(self.src@, i0, self.src@.len() as int);
                lemma_byte_offset_end(self.src@);
            }
            off = off + char_width(self.chars[k]);
            k = k + 1;
        }
        proof {
            lemma_byte_offset_grows(self.src@, k as int, i0);
        }
        let from: usize = k;
        while off < token.end
            invariant
                self.wf(),
                token_placed(self.text(), token, i0, j0),
                from == i0,
                from <= k <= j0,
                off == byte_offset(self.text(), k as int),
            decreases j0 - k,
        {
            proof {
                if k == j0 {
                    assert(false);
                }
                lemma_byte_offset_step(self.src@, k as int);
                lemma_byte_offset_grows(self.src@, k + 1, j0);
                lemma_byte_offset_grows(self.src@, j0, self.src@.len() as int);
                lemma_byte_offset_end(self.src@);
            }
            off = off + char_width(self.chars[k]);
            k = k + 1;
        }
        proof {
            lemma_byte_offset_grows(self.src@, k as int, j0);
        }
        (from, k)
    }

    /// The text of `token`, sliced out of the source by the token's byte
    /// range.
    pub fn token_src(&self, token: Token) -> (s: &'a str)
        requires
            self.wf(),
            token_in(self.text(), token),
        ensures
            s@ == token_text(self.text(), token),
    {
        let (from, to) = self.token_range(token);
        proof {
            lemma_token_text(self.text(), token, from as int, to as int);
        }
        self.src.substring_char(from, to)
    }

    /// The text of `token`, copied out of the source.
    pub fn token_string(&self, token: Token) -> (s: String)
        requires
            self.wf(),
            token_in(self.text(), token),
        ensures
            s@ == token_text(self.text(), token),
    {
        let (from, to) = self.token_range(token);
        proof {
            lemma_token_text(self.text(), token, from as int, to as int);
        }
        let mut out = String::new();
        let mut k: usize = from;
        assert(out@ =~= self.chars@.subrange(from as int, k as int));
        while k < to
            invariant
                self.wf(),
                from <= k <= to <= self.chars.len(),
                out@ == self.chars@.subrange(from as int, k as int),
            decreases to - k,
        {
            let ghost done = out@;
            out.push(self.chars[k]);
            assert(out@ =~= self.chars@.subrange(from as int, k + 1));
            k = k + 1;
        }
        out
    }

    /// Consumes characters as long as they belong to `class`.
    fn eat_while(&mut self, class: CharClass)
        requires
            old(self).wf(),
        ensures
            final(self).wf(),
            final(self).text() == old(self).text(),
            final(self).index() == scan_while(old(self).text(), old(self).index(), class),
    {
        while self.pos < self.chars.len() && class_has(class, self.chars[self.pos])
            invariant
                self.wf(),
                self.text() == old(self).text(),
                old(self).index() <= self.index(),
                scan_while(self.text(), self.index(), class) == scan_while(
                    old(self).text(),
                    old(self).index(),
                    class,
                ),
            decreases self.chars.len() - self.pos,
        {
            self.bump();
        }
    }

    /// Consumes the rest of a string whose opening quote has been read.
    fn consume_string(&mut self) -> (terminated: bool)
        requires
            old(self).wf(),
        ensures
            final(self).wf(),
            final(self).text() == old(self).text(),
            (terminated, final(self).index()) == lex_string(old(self).text(), old(self).index()),
    {
        let mut terminated = false;
        let mut open = true;
        while open && self.pos < self.chars.len()
            invariant
                self.wf(),
                self.text() == old(self).text(),
                open ==> !terminated && lex_string(self.text(), self.index()) == lex_string(
                    old(self).text(),
                    old(self).index(),
                ),
                !open ==> (terminated, self.index()) == lex_string(
                    old(self).text(),
                    old(self).index(),
                ),
            decreases self.chars.len() - self.pos + if open { 1nat } else { 0nat },
        {
            let v = self.chars[self.pos];
            self.bump();
            if v == '"' {
                terminated = true;
                open = false;
            } else if v == '\n' {
                open = false;
            } else if v == '\\' {
                let next = self.peek();
                if next == Some('"') || next == Some('\\') {
                    self.bump();
                }
            }
        }
        terminated
    }

    /// Consumes an exponent, if one starts at the cursor.
    fn consume_exponent(&mut self)
        requires
            old(self).wf(),
        ensures
            final(self).wf(),
            final(self).text() == old(self).text(),
            final(self).index() == lex_exponent(old(self).text(), old(self).index()),
    {
        let c = self.peek();
        if c == Some('e') || c == Some('E') {
            self.bump();
            let sign = self.peek();
            if sign == Some('+') || sign == Some('-') {
                self.bump();
            }
            self.eat_while(CharClass::DecDigit);
        }
    }

    /// Consumes a number whose first character, at `start`, has been read.
    fn consume_number(&mut self, start: usize) -> (kind: TokenKind)
        requires
            old(self).wf(),
            start + 1 == old(self).index(),
            is_digit(old(self).text()[start as int]) || old(self).text()[start as int] == '-',
        ensures
            final(self).wf(),
            final(self).text() == old(self).text(),
            (kind, final(self).index()) == lex_number(old(self).text(), start as int),
    {
        let sign = self.chars[start] == '-';
        if sign {
            let first = self.peek();
            match first {
                Some(c) => {
                    if '0' <= c && c <= '9' {
                        self.bump();
                    } else {
                        return TokenKind::Integer { sign: true, base: Base::Dec };
                    }
                },
                None => {
                    return TokenKind::Integer { sign: true, base: Base::Dec };
                },
            }
        }
        let d: usize = self.pos - 1;
        if self.chars[d] == '0' {
            let prefix = self.peek();
            if prefix == Some('x') {
                self.bump();
                self.eat_while(CharClass::HexDigit);
                return TokenKind::Integer { sign, base: Base::Hex };
            } else if prefix == Some('o') {
                self.bump();
                self.eat_while(CharClass::DecDigit);
                return TokenKind::Integer { sign, base: Base::Oct };
            } else if prefix == Some('b') {
                self.bump();
                self.eat_while(CharClass::DecDigit);
                return TokenKind::Integer { sign, base: Base::Bin };
            }
        }
        self.eat_while(CharClass::DecDigit);
        let next = self.peek();
        let after = self.peek_second();
        let fraction = match after {
            Some(c) => next == Some('.') && '0' <= c && c <= '9',
            None => false,
        };
        if fraction {
            self.bump();
            self.eat_while(CharClass::DecDigit);
            self.consume_exponent();
            TokenKind::Float
        } else if next == Some('e') || next == Some('E') {
            self.consume_exponent();
            TokenKind::Float
        } else {
            TokenKind::Integer { sign, base: Base::Dec }
        }
    }

    /// Consumes an identifier whose first character, at `start`, has been
    /// read, and tells a keyword from an identifier.
    fn consume_word(&mut self, start: usize) -> (kind: TokenKind)
        requires
            old(self).wf(),
            start + 1 == old(self).index(),
        ensures
            final(self).wf(),
            final(self).text() == old(self).text(),
            final(self).index() == scan_while(
                old(self).text(),
                start + 1,
                CharClass::IdentContinue,
            ),
            kind == word_kind(old(self).text().subrange(start as int, final(self).index())),
    {
        self.eat_while(CharClass::IdentContinue);
        proof {
            lemma_scan_while_range(old(self).text(), start + 1, CharClass::IdentContinue);
        }
        let end: usize = self.pos;
        let n: usize = end - start;
        let ghost w = self.chars@.subrange(start as int, end as int);
        if n == 4 && self.chars[start] == 't' && self.chars[start + 1] == 'r' && self.chars[start
            + 2] == 'u' && self.chars[start + 3] == 'e' {
            assert(w =~= seq!['t', 'r', 'u', 'e']);
            TokenKind::Keyword(Keyword::True)
        } else if n == 5 && self.chars[start] == 'f' && self.chars[start + 1] == 'a'
            && self.chars[start + 2] == 'l' && self.chars[start + 3] == 's' && self.chars[start
            + 4] == 'e' {
            assert(w =~= seq!['f', 'a', 'l', 's', 'e']);
            TokenKind::Keyword(Keyword::False)
        } else if n == 4 && self.chars[start] == 'n' && self.chars[start + 1] == 'u'
            && self.chars[start + 2] == 'l' && self.chars[start + 3] == 'l' {
            assert(w =~= seq!['n', 'u', 'l', 'l']);
            TokenKind::Keyword(Keyword::Null)
        } else {
            assert(w.len() == n);
            assert(w[0] == self.chars@[start as int]);
            assert(n >= 4 ==> w[1] == self.chars@[start + 1] && w[2] == self.chars@[start + 2]
                && w[3] == self.chars@[start + 3]);
            assert(n >= 5 ==> w[4] == self.chars@[start + 4]);
            TokenKind::Ident
        }
    }

    /// Reads the token that starts at the cursor and moves past it.
    pub fn read_token(&mut self) -> (tok: Token)
        requires
            old(self).wf(),
        ensures
            final(self).wf(),
            final(self).text() == old(self).text(),
            tok.kind == lex(old(self).text(), old(self).index()).0,
            final(self).index() == lex(old(self).text(), old(self).index()).1,
            tok.start == byte_offset(old(self).text(), old(self).index()),
            tok.end == byte_offset(old(self).text(), final(self).index()),
            old(self).index() <= final(self).index() <= old(self).text().len(),
            tok.kind == TokenKind::Eof <==> old(self).index() == old(self).text().len(),
            tok.kind != TokenKind::Eof ==> old(self).index() < final(self).index(),
            token_in(old(self).text(), tok),
            token_text(old(self).text(), tok) == old(self).text().subrange(
                old(self).index(),
                final(self).index(),
            ),
    {
        proof {
            lemma_lex_advances(self.text(), self.index());
        }
        let ghost text = self.text();
        let ghost from = self.index();
        let start: usize = self.offset;
        self.mark_pos = self.pos;
        self.mark_off = self.offset;
        let kind = self.consume_token();
        let end: usize = self.offset;
        proof {
            lemma_token_text(text, Token { kind, start, end }, from, self.index());
        }
        Token { kind, start, end }
    }

    fn consume_token(&mut self) -> (kind: TokenKind)
        requires
            old(self).wf(),
        ensures
            final(self).wf(),
            final(self).text() == old(self).text(),
            (kind, final(self).index()) == lex(old(self).text(), old(self).index()),
    {
        if self.pos >= self.chars.len() {
            return TokenKind::Eof;
        }
        let at: usize = self.pos;
        let c = self.chars[at];
        self.bump();
        if c == '/' {
            if self.peek() == Some('/') {
                self.eat_while(CharClass::CommentBody);
                if self.pos < self.chars.len() {
                    self.bump();
                }
                TokenKind::Comment
            } else {
                TokenKind::Unknown
            }
        } else if class_has(CharClass::Whitespace, c) {
            self.eat_while(CharClass::Whitespace);
            TokenKind::Whitespace
        } else if unicode_ident::is_xid_start(c) || c == '_' {
            self.consume_word(at)
        } else if c == '[' {
            TokenKind::StartSquare
        } else if c == ']' {
            TokenKind::EndSquare
        } else if c == '{' {
            TokenKind::StartCurly
        } else if c == '}' {
            TokenKind::EndCurly
        } else if c == '.' {
            TokenKind::Dot
        } else if c == '=' {
            TokenKind::Equal
        } else if ('0' <= c && c <= '9') || c == '-' {
            self.consume_number(at)
        } else if c == '"' {
            let terminated = self.consume_string();
            TokenKind::String { terminated }
        } else {
            TokenKind::Unknown
        }
    }
}

/// A run never ends before it starts nor beyond the text.
pub proof fn lemma_scan_while_range(s: Seq<char>, pos: int, class: CharClass)
    requires
        0 <= pos <= s.len(),
    ensures
        pos <= scan_while(s, pos, class) <= s.len(),
    decreases s.len() - pos,
{
    if pos < s.len() && in_class(class, s[pos]) {
        lemma_scan_while_range(s, pos + 1, class);
    }
}

/// A string token ends after where its body starts and within the text.
pub proof fn lemma_lex_string_range(s: Seq<char>, p: int)
    requires
        0 <= p <= s.len(),
    ensures
        p <= lex_string(s, p).1 <= s.len(),
    decreases s.len() - p,
{
    if p < s.len() && s[p] != '"' && s[p] != '\n' {
        if s[p] == '\\' && p + 1 < s.len() && (s[p + 1] == '"' || s[p + 1] == '\\') {
            lemma_lex_string_range(s, p + 2);
        } else {
            lemma_lex_string_range(s, p + 1);
        }
    }
}

/// Every token but the end of input is at least one character long, and no
/// token reaches beyond the text.
pub proof fn lemma_lex_advances(s: Seq<char>, pos: int)
    requires
        0 <= pos <= s.len(),
    ensures
        pos <= lex(s, pos).1 <= s.len(),
        pos < s.len() ==> pos < lex(s, pos).1,
        lex(s, pos).0 == TokenKind::Eof <==> pos == s.len(),
{
    if pos < s.len() {
        let p = pos + 1;
        lemma_scan_while_range(s, p, CharClass::CommentBody);
        lemma_scan_while_range(s, p, CharClass::Whitespace);
        lemma_scan_while_range(s, p, CharClass::IdentContinue);
        lemma_lex_string_range(s, p);
        if p + 1 <= s.len() {
            lemma_scan_while_range(s, p + 1, CharClass::DecDigit);
            lemma_scan_while_range(s, p + 1, CharClass::HexDigit);
        }
        if p + 2 <= s.len() {
            lemma_scan_while_range(s, p + 2, CharClass::DecDigit);
            lemma_scan_while_range(s, p + 2, CharClass::HexDigit);
        }
        lemma_scan_while_range(s, p, CharClass::DecDigit);
        let c = s[pos];
        if is_digit(c) || c == '-' {
            let sign = c == '-';
            let d = if sign { p } else { pos };
            if d < s.len() && is_digit(s[d]) {
                let e = scan_while(s, d + 1, CharClass::DecDigit);
                lemma_tail_range(s, sign, e);
            }
        }
    }
}

/// An exponent ends at or after where it may start, within the text.
pub proof fn lemma_exponent_range(s: Seq<char>, f: int)
    requires
        0 <= f <= s.len(),
    ensures
        f <= lex_exponent(s, f) <= s.len(),
{
    if f < s.len() {
        lemma_scan_while_range(s, f + 1, CharClass::DecDigit);
        if f + 2 <= s.len() {
            lemma_scan_while_range(s, f + 2, CharClass::DecDigit);
        }
    }
}

/// The tail of a number ends at or after where it starts, within the text.
pub proof fn lemma_tail_range(s: Seq<char>, sign: bool, e: int)
    requires
        0 <= e <= s.len(),
    ensures
        e <= lex_number_tail(s, sign, e).1 <= s.len(),
{
    lemma_exponent_range(s, e);
    if e + 1 < s.len() {
        lemma_scan_while_range(s, e + 1, CharClass::DecDigit);
        lemma_exponent_range(s, scan_while(s, e + 1, CharClass::DecDigit));
    }
}

} // verus!
