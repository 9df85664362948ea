//! The error of the deserializer: a parse failure, a message of the caller,
//! or a failure of the source that the text came from.

use vstd::prelude::*;
use crate::parse::ParseError;

verus! {

/// `std::io::Error`, carried through as it is.
#[verifier::external_type_specification]
#[verifier::external_body]
pub struct ExIoError(std::io::Error);

#[derive(Debug)]
pub enum ErrorKind {
    Message(String),
    Parse(ParseError),
    Io(std::io::Error),
}

#[derive(Debug)]
pub struct Error {
    kind: Box<ErrorKind>,
}

pub type Result<T> = std::result::Result<T, Error>;

impl Error {
    /// What the error holds.
    pub closed spec fn spec_kind(&self) -> ErrorKind {
        *self.kind
    }

    /// The error that holds `kind`.
    pub closed spec fn holding(kind: ErrorKind) -> Error {
        Error { kind: Box::new(kind) }
    }

    /// An error holds what it was made to hold.
    pub proof fn lemma_holding(kind: ErrorKind)
        ensures
            Error::holding(kind).spec_kind() == kind,
    {
    }

    /// An error that carries a message of the caller: what `msg` writes of
    /// itself.
    pub fn custom<T: core::fmt::Display>(msg: T) -> (e: Self)
        ensures
            e.spec_kind() is Message,
            vstd::string::to_string_from_display_ensures::<T>(&msg, e.spec_kind()->Message_0),
    {
        Self { kind: Box::new(ErrorKind::Message(msg.to_string())) }
    }

    /// An error that carries the message `msg`.
    pub fn with_message(msg: &str) -> (e: Self)
        ensures
            e.spec_kind() matches ErrorKind::Message(m) && m@ == msg@,
    {
        Self { kind: Box::new(ErrorKind::Message(msg.to_owned())) }
    }

    /// An error that carries a parse failure.
    pub fn parse(err: ParseError) -> (e: Self)
        ensures
            e.spec_kind() == ErrorKind::Parse(err),
            e == Error::holding(ErrorKind::Parse(err)),
    {
        Self { kind: Box::new(ErrorKind::Parse(err)) }
    }

    /// An error that carries a failure of the source of the text.
    pub fn io(err: std::io::Error) -> (e: Self)
        ensures
            e.spec_kind() == ErrorKind::Io(err),
            e == Error::holding(ErrorKind::Io(err)),
    {
        Self { kind: Box::new(ErrorKind::Io(err)) }
    }

    /// What the error holds.
    pub fn kind(&self) -> (k: &ErrorKind)
        ensures
            *k == self.spec_kind(),
    {
        &*self.kind
    }
}

impl From<ParseError> for Error {
    fn from(value: ParseError) -> (e: Self) {
        Self::parse(value)
    }
}

impl vstd::std_specs::convert::FromSpecImpl<ParseError> for Error {
    open spec fn obeys_from_spec() -> bool {
        true
    }

    open spec fn from_spec(value: ParseError) -> Self {
        Error::holding(ErrorKind::Parse(value))
    }
}

impl From<std::io::Error> for Error {
    fn from(value: std::io::Error) -> (e: Self) {
        Self::io(value)
    }
}

impl vstd::std_specs::convert::FromSpecImpl<std::io::Error> for Error {
    open spec fn obeys_from_spec() -> bool {
        true
    }

    open spec fn from_spec(value: std::io::Error) -> Self {
        Error::holding(ErrorKind::Io(value))
    }
}

} // verus!
