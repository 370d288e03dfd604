//! The errors of the parser.

use vstd::prelude::*;
use crate::lexeme::Kind;
use crate::span::Span;
use crate::token::Token;

verus! {

/// What went wrong, without where.
#[derive(Clone, Copy, Debug, PartialEq, Eq, Structural)]
pub enum FaultKind {
    EmptyInput,
    UnexpectedEndOfInput,
    ExtraData,
    UnexpectedToken,
    UnrecognizedToken,
    ExpectedComma,
    ExpectedColon,
    UnmatchedParentheses,
    UnmatchedBraces,
    ExpectedMapKey,
    InvalidTagValue,
    UnknownTagName,
    InvalidHexString,
    InvalidBase64String,
    UnknownUrType,
    InvalidUr,
    InvalidKnownValue,
    UnknownKnownValueName,
    InvalidDateString,
    DuplicateMapKey,
}

/// An error as the grammar states it: its kind, the bytes `[start, end)` of
/// the source that it points at (both 0 where it points at nothing), the
/// text that it quotes (empty where it quotes none) and, for an unexpected
/// token, the kind of that token.
pub struct Fault {
    pub kind: FaultKind,
    pub start: int,
    pub end: int,
    pub text: Seq<char>,
    pub token: Kind,
}

/// The fault of the given kind at `[start, end)`.
pub open spec fn fault(kind: FaultKind, start: int, end: int) -> Fault {
    Fault { kind, start, end, text: Seq::empty(), token: Kind::Unrecognized }
}

/// The fault of the given kind at `[start, end)` that quotes `text`.
pub open spec fn fault_quoting(kind: FaultKind, start: int, end: int, text: Seq<char>) -> Fault {
    Fault { kind, start, end, text, token: Kind::Unrecognized }
}

/// The fault for a token of kind `token` at `[start, end)` where none such
/// may stand.
pub open spec fn fault_unexpected(token: Kind, start: int, end: int) -> Fault {
    Fault { kind: FaultKind::UnexpectedToken, start, end, text: Seq::empty(), token }
}

/// An error of the parser. Every variant but `EmptyInput` and
/// `UnexpectedEndOfInput` holds the span of the source that it points at.
#[derive(Debug, PartialEq)]
pub enum Error {
    EmptyInput,
    UnexpectedEndOfInput,
    ExtraData(Span),
    UnexpectedToken(Box<Token>, Span),
    UnrecognizedToken(Span),
    ExpectedComma(Span),
    ExpectedColon(Span),
    UnmatchedParentheses(Span),
    UnmatchedBraces(Span),
    ExpectedMapKey(Span),
    InvalidTagValue(String, Span),
    UnknownTagName(String, Span),
    InvalidHexString(Span),
    InvalidBase64String(Span),
    UnknownUrType(String, Span),
    InvalidUr(String, Span),
    InvalidKnownValue(String, Span),
    UnknownKnownValueName(String, Span),
    InvalidDateString(String, Span),
    DuplicateMapKey(Span),
}

impl View for Error {
    type V = Fault;

    open spec fn view(&self) -> Fault {
        match *self {
            Error::EmptyInput => fault(FaultKind::EmptyInput, 0, 0),
            Error::UnexpectedEndOfInput => fault(FaultKind::UnexpectedEndOfInput, 0, 0),
            Error::ExtraData(s) => fault(FaultKind::ExtraData, s.start as int, s.end as int),
            Error::UnexpectedToken(t, s) => fault_unexpected(t.kind(), s.start as int, s.end as int),
            Error::UnrecognizedToken(s) => fault(
                FaultKind::UnrecognizedToken,
                s.start as int,
                s.end as int,
            ),
            Error::ExpectedComma(s) => fault(FaultKind::ExpectedComma, s.start as int, s.end as int),
            Error::ExpectedColon(s) => fault(FaultKind::ExpectedColon, s.start as int, s.end as int),
            Error::UnmatchedParentheses(s) => fault(
                FaultKind::UnmatchedParentheses,
                s.start as int,
                s.end as int,
            ),
            Error::UnmatchedBraces(s) => fault(
                FaultKind::UnmatchedBraces,
                s.start as int,
                s.end as int,
            ),
            Error::ExpectedMapKey(s) => fault(
                FaultKind::ExpectedMapKey,
                s.start as int,
                s.end as int,
            ),
            Error::InvalidTagValue(t, s) => fault_quoting(
                FaultKind::InvalidTagValue,
                s.start as int,
                s.end as int,
                t@,
            ),
            Error::UnknownTagName(t, s) => fault_quoting(
                FaultKind::UnknownTagName,
                s.start as int,
                s.end as int,
                t@,
            ),
            Error::InvalidHexString(s) => fault(
                FaultKind::InvalidHexString,
                s.start as int,
                s.end as int,
            ),
            Error::InvalidBase64String(s) => fault(
                FaultKind::InvalidBase64String,
                s.start as int,
                s.end as int,
            ),
            Error::UnknownUrType(t, s) => fault_quoting(
                FaultKind::UnknownUrType,
                s.start as int,
                s.end as int,
                t@,
            ),
            Error::InvalidUr(t, s) => fault_quoting(
                FaultKind::InvalidUr,
                s.start as int,
                s.end as int,
                t@,
            ),
            Error::InvalidKnownValue(t, s) => fault_quoting(
                FaultKind::InvalidKnownValue,
                s.start as int,
                s.end as int,
                t@,
            ),
            Error::UnknownKnownValueName(t, s) => fault_quoting(
                FaultKind::UnknownKnownValueName,
                s.start as int,
                s.end as int,
                t@,
            ),
            Error::InvalidDateString(t, s) => fault_quoting(
                FaultKind::InvalidDateString,
                s.start as int,
                s.end as int,
                t@,
            ),
            Error::DuplicateMapKey(s) => fault(
                FaultKind::DuplicateMapKey,
                s.start as int,
                s.end as int,
            ),
        }
    }
}

impl Error {
    /// Whether this is the error that the lexer gives where no token starts.
    pub fn is_default(&self) -> (r: bool)
        ensures
            r == (self@.kind == FaultKind::UnrecognizedToken),
    {
        match self {
            Error::UnrecognizedToken(_) => true,
            _ => false,
        }
    }
}

} // verus!
