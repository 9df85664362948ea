//! The messages of parse failures, and numbers written in digits.

use vstd::prelude::*;
use vstd::string::StringExecFns;
use crate::cursor::{keyword_text, TokenKind};
use crate::error::{Error, ErrorKind};
use crate::literal::{digit_value, digits_value};
use crate::parse::{ParseError, ParseErrorKind, SpanToken};

verus! {

/// `std::io::Error` writes itself through `Display`; what it writes depends
/// on the error and on the platform, so nothing is said of the text.
#[verifier::external_body]
fn io_error_text(e: &std::io::Error) -> (s: String) {
    format!("{}", e)
}

/// The character that writes the digit `d`: `0` to `9`, then `a` to `z`.
pub open spec fn digit_char(d: int) -> char {
    if d < 10 {
        ('0' as int + d) as char
    } else {
        ('a' as int + d - 10) as char
    }
}

/// `n` written in `radix`, most significant digit first, without a prefix.
pub open spec fn render(n: nat, radix: nat) -> Seq<char>
    decreases n,
    via render_decreases
{
    if radix < 2 || n < radix {
        seq![digit_char(n as int)]
    } else {
        render(n / radix, radix).push(digit_char((n % radix) as int))
    }
}

#[via_fn]
proof fn render_decreases(n: nat, radix: nat) {
    if radix >= 2 && n >= radix {
        lemma_quotient_smaller(n, radix);
    }
}

/// Division by two or more makes a positive number smaller.
pub proof fn lemma_quotient_smaller(n: nat, radix: nat)
    requires
        radix >= 2,
        n >= 1,
    ensures
        n / radix < n,
{
    assert(n / radix < n) by (nonlinear_arith)
        requires
            radix >= 2,
            n >= 1,
    ;
}

/// The digit `d` as a character.
pub fn digit_to_char(d: u32) -> (c: char)
    requires
        d < 36,
    ensures
        c == digit_char(d as int),
{
    if d < 10 {
        (48 + d as u8) as char
    } else {
        (97 + (d as u8 - 10)) as char
    }
}

/// Appends `n`, written in `radix`, to `out`.
pub fn push_number(out: &mut String, n: u64, radix: u32)
    requires
        2 <= radix <= 36,
    ensures
        final(out)@ == old(out)@ + render(n as nat, radix as nat),
    decreases n,
{
    let r: u64 = radix as u64;
    let ghost before = out@;
    if n >= r {
        proof {
            lemma_quotient_smaller(n as nat, radix as nat);
        }
        push_number(out, n / r, radix);
    }
    out.push(digit_to_char((n % r) as u32));
    proof {
        let high = render((n / r) as nat, radix as nat);
        let last = digit_char((n % r) as int);
        assert((n / r) as nat == (n as nat) / (radix as nat));
        assert((n % r) as nat == (n as nat) % (radix as nat));
        if n >= r {
            assert(render(n as nat, radix as nat) == high.push(last));
            assert(before + high.push(last) =~= (before + high).push(last));
        } else {
            assert(n % r == n) by (nonlinear_arith)
                requires
                    n < r,
            ;
            assert(before + seq![last] =~= before.push(last));
        }
    }
}

/// A written number is not empty.
pub proof fn lemma_render_len(n: nat, radix: nat)
    ensures
        render(n, radix).len() >= 1,
    decreases n,
{
    if radix >= 2 && n >= radix {
        lemma_quotient_smaller(n, radix);
        lemma_render_len(n / radix, radix);
    }
}

/// Reading back what was written gives the number again.
pub proof fn lemma_render_reads_back(n: nat, radix: nat)
    requires
        2 <= radix <= 36,
    ensures
        digits_value(render(n, radix), radix as int) == Some(n as int),
    decreases n,
{
    if n >= radix {
        let high = render(n / radix, radix);
        let last = digit_char((n % radix) as int);
        lemma_quotient_smaller(n, radix);
        lemma_render_reads_back(n / radix, radix);
        lemma_render_len(n / radix, radix);
        assert(high.push(last).drop_last() =~= high);
        assert(digit_value(last, radix as int) == Some((n % radix) as int));
        assert((n / radix) * radix + n % radix == n) by (nonlinear_arith)
            requires
                radix >= 2,
        ;
    } else {
        assert(digit_value(digit_char(n as int), radix as int) == Some(n as int));
    }
}

/// The number that a literal writes in one base, written again in any base,
/// reads back as the same number.
pub proof fn lemma_integer_round_trip(w: Seq<char>, radix: nat, back: nat)
    requires
        2 <= radix <= 36,
        2 <= back <= 36,
        digits_value(w, radix as int) is Some,
    ensures
        digits_value(w, radix as int)->0 >= 0,
        digits_value(render(digits_value(w, radix as int)->0 as nat, back), back as int)
            == digits_value(w, radix as int),
{
    crate::literal::lemma_digits_value_nonnegative(w, radix as int);
    lemma_render_reads_back(digits_value(w, radix as int)->0 as nat, back);
}

/// How a message names a token of `kind`.
pub open spec fn token_kind_text(kind: TokenKind) -> Seq<char> {
    match kind {
        TokenKind::Comment => "a comment"@,
        TokenKind::Whitespace => "whitespace"@,
        TokenKind::Ident => "an identifier"@,
        TokenKind::Keyword(v) => "'"@ + keyword_text(v) + "'"@,
        TokenKind::StartSquare => "'['"@,
        TokenKind::EndSquare => "']'"@,
        TokenKind::StartCurly => "'{'"@,
        TokenKind::EndCurly => "'}'"@,
        TokenKind::Dot => "'.'"@,
        TokenKind::Integer { sign: true, .. } => "a signed Integer"@,
        TokenKind::Integer { sign: false, .. } => "an unsigned Integer"@,
        TokenKind::Float => "a floating point number"@,
        TokenKind::String { .. } => "a string"@,
        TokenKind::Unknown => "an unknown token"@,
        TokenKind::Eof => "the end of the file"@,
        TokenKind::Equal => "'='"@,
    }
}

/// What was expected, and what was found in its place.
pub open spec fn expected_text(what: Seq<char>, found: TokenKind) -> Seq<char> {
    "Expected "@ + what + ", found "@ + token_kind_text(found)
}

/// The message of a failure of `kind` at a token of the kind `found`.
pub open spec fn kind_text(kind: ParseErrorKind, found: TokenKind) -> Seq<char> {
    match kind {
        ParseErrorKind::ExpectedNull => expected_text("null"@, found),
        ParseErrorKind::ExpectedBool => expected_text("a bool"@, found),
        ParseErrorKind::ExpectedInteger { signed: false } => expected_text(
            "an unsigned integer"@,
            found,
        ),
        ParseErrorKind::ExpectedInteger { signed: true } => expected_text(
            "a signed integer"@,
            found,
        ),
        ParseErrorKind::ExpectedFloat => expected_text("a floating point number"@, found),
        ParseErrorKind::ExpectedMapStart => expected_text("a map"@, found),
        ParseErrorKind::ExpectedMapEnd => expected_text("'}'"@, found),
        ParseErrorKind::ExpectedListStart => expected_text("a list"@, found),
        ParseErrorKind::ExpectedListEnd => expected_text("']'"@, found),
        ParseErrorKind::ExpectedEqual => expected_text("'='"@, found),
        ParseErrorKind::ExpectedString => expected_text("a string"@, found),
        ParseErrorKind::ExpectedIdent => expected_text("an identifier"@, found),
        ParseErrorKind::InvalidInteger => "Invalid integer"@,
        ParseErrorKind::InvalidFloat => "Invalid float"@,
        ParseErrorKind::StringUnterminated => "Expected a closing '\"'"@,
        ParseErrorKind::InvalidEscape { pos } => "Invalid escape sequence at character "@ + render(
            if pos >= 1 {
                (pos - 1) as nat
            } else {
                0nat
            },
            10,
        ) + " of string"@,
        ParseErrorKind::UnknownToken => "Unknown token "@ + token_kind_text(found),
    }
}

/// The message of a parse failure: what went wrong, then the line and the
/// column of the token, both counted from 0.
pub open spec fn error_text(e: ParseError) -> Seq<char> {
    kind_text(e.kind, e.token.token.kind) + " at "@ + render(e.token.line as nat, 10) + ":"@
        + render(e.token.col as nat, 10)
}

/// How a message names a token of `kind`.
pub fn display_token_kind(kind: TokenKind) -> (s: String)
    ensures
        s@ == token_kind_text(kind),
{
    match kind {
        TokenKind::Comment => String::from_str("a comment"),
        TokenKind::Whitespace => String::from_str("whitespace"),
        TokenKind::Ident => String::from_str("an identifier"),
        TokenKind::Keyword(v) => {
            let mut s = String::from_str("'");
            s.append(v.as_str());
            s.append("'");
            s
        },
        TokenKind::StartSquare => String::from_str("'['"),
        TokenKind::EndSquare => String::from_str("']'"),
        TokenKind::StartCurly => String::from_str("'{'"),
        TokenKind::EndCurly => String::from_str("'}'"),
        TokenKind::Dot => String::from_str("'.'"),
        TokenKind::Integer { sign: true, .. } => String::from_str("a signed Integer"),
        TokenKind::Integer { sign: false, .. } => String::from_str("an unsigned Integer"),
        TokenKind::Float => String::from_str("a floating point number"),
        TokenKind::String { .. } => String::from_str("a string"),
        TokenKind::Unknown => String::from_str("an unknown token"),
        TokenKind::Eof => String::from_str("the end of the file"),
        TokenKind::Equal => String::from_str("'='"),
    }
}

/// "Expected `what`, found" and the name of the token found.
fn expected(what: &str, found: TokenKind) -> (s: String)
    ensures
        s@ == expected_text(what@, found),
{
    let mut s = String::from_str("Expected ");
    s.append(what);
    s.append(", found ");
    let name = display_token_kind(found);
    s.append(name.as_str());
    s
}

impl ParseErrorKind {
    /// The message of a failure of this kind at `token`.
    pub fn display(&self, token: SpanToken) -> (s: String)
        ensures
            s@ == kind_text(*self, token.token.kind),
    {
        let found = token.token.kind;
        match self {
            ParseErrorKind::ExpectedNull => expected("null", found),
            ParseErrorKind::ExpectedBool => expected("a bool", found),
            ParseErrorKind::ExpectedInteger { signed: false } => expected(
                "an unsigned integer",
                found,
            ),
            ParseErrorKind::ExpectedInteger { signed: true } => expected("a signed integer", found),
            ParseErrorKind::ExpectedFloat => expected("a floating point number", found),
            ParseErrorKind::ExpectedMapStart => expected("a map", found),
            ParseErrorKind::ExpectedMapEnd => expected("'}'", found),
            ParseErrorKind::ExpectedListStart => expected("a list", found),
            ParseErrorKind::ExpectedListEnd => expected("']'", found),
            ParseErrorKind::ExpectedEqual => expected("'='", found),
            ParseErrorKind::ExpectedString => expected("a string", found),
            ParseErrorKind::ExpectedIdent => expected("an identifier", found),
            ParseErrorKind::InvalidInteger => String::from_str("Invalid integer"),
            ParseErrorKind::InvalidFloat => String::from_str("Invalid float"),
            ParseErrorKind::StringUnterminated => String::from_str("Expected a closing '\"'"),
            ParseErrorKind::InvalidEscape { pos } => {
                let mut s = String::from_str("Invalid escape sequence at character ");
                let at: u32 = if *pos >= 1 {
                    *pos - 1
                } else {
                    0
                };
                push_number(&mut s, at as u64, 10);
                s.append(" of string");
                s
            },
            ParseErrorKind::UnknownToken => {
                let mut s = String::from_str("Unknown token ");
                let name = display_token_kind(found);
                s.append(name.as_str());
                s
            },
        }
    }
}

impl ParseError {
    /// The message of the failure, with the line and column of its token.
    pub fn message(&self) -> (s: String)
        ensures
            s@ == error_text(*self),
    {
        let mut s = self.kind.display(self.token);
        s.append(" at ");
        push_number(&mut s, self.token.line as u64, 10);
        s.append(":");
        push_number(&mut s, self.token.col as u64, 10);
        s
    }
}

impl Error {
    /// The message of the error: the caller's own, that of the parse
    /// failure, or what the failed source says of itself.
    pub fn message(&self) -> (s: String)
        ensures
            match self.spec_kind() {
                ErrorKind::Message(m) => s@ == m@,
                ErrorKind::Parse(e) => s@ == error_text(e),
                ErrorKind::Io(_) => true,
            },
    {
        match self.kind() {
            ErrorKind::Message(m) => m.clone(),
            ErrorKind::Parse(e) => e.message(),
            ErrorKind::Io(e) => io_error_text(e),
        }
    }
}

} // verus!
