//! Diagnostics: what went wrong, and the byte range it is pinned to.

use crate::token::Location;
use vstd::prelude::*;

verus! {

/// The classes of failure that a parse can end in.
#[derive(Clone, Copy, Debug, PartialEq, Eq, Structural)]
pub enum ErrorKind {
    /// The current token does not fit the rule at this position.
    UnexpectedToken,
    /// The input ended where a token was required.
    UnexpectedEof,
    /// A position that requires an identifier holds another value token.
    MalformedIdentifier,
    /// The lookahead starts no production of this grammar.
    Unimplemented,
    /// A rule was entered in a state its callers must exclude. Parsing an
    /// expression never ends in it.
    Internal,
    /// The token source itself reported malformed input.
    Lexical,
}

/// A failure without the source text: its class and its labelled span.
#[derive(Clone, Copy, Debug, PartialEq, Eq, Structural)]
pub struct Fault {
    pub kind: ErrorKind,
    pub span: Location,
}

/// A failure together with the complete source text, ready to be rendered.
#[derive(Clone, Debug, PartialEq, Eq)]
pub struct ParseError {
    pub kind: ErrorKind,
    pub span: Location,
    pub source: String,
}

impl ParseError {
    /// The failure with the source text left out.
    pub open spec fn fault(&self) -> Fault {
        Fault { kind: self.kind, span: self.span }
    }

    /// Attaches the source text to a failure.
    pub fn new(fault: Fault, source: &String) -> (e: ParseError)
        ensures
            e.fault() == fault,
            e.source == *source,
    {
        ParseError { kind: fault.kind, span: fault.span, source: source.clone() }
    }

    /// The headline of the diagnostic.
    pub fn message(&self) -> (m: &'static str)
        ensures
            m == message_of(self.kind),
    {
        match self.kind {
            ErrorKind::UnexpectedToken => "unexpected token",
            ErrorKind::UnexpectedEof => "unexpected end of file",
            ErrorKind::MalformedIdentifier => "",
            ErrorKind::Unimplemented => "construct not supported",
            ErrorKind::Internal => "parser invariant violated",
            ErrorKind::Lexical => "malformed token",
        }
    }

    /// The note attached to the labelled span.
    pub fn label(&self) -> (l: &'static str)
        ensures
            l == label_of(self.kind),
    {
        match self.kind {
            ErrorKind::MalformedIdentifier => "this identifier",
            ErrorKind::UnexpectedEof => "at this location",
            ErrorKind::UnexpectedToken => "this token",
            ErrorKind::Unimplemented => "this token",
            ErrorKind::Internal => "at this location",
            ErrorKind::Lexical => "this token",
        }
    }
}

/// The headline that belongs to each class of failure.
pub open spec fn message_of(kind: ErrorKind) -> &'static str {
    match kind {
        ErrorKind::UnexpectedToken => "unexpected token",
        ErrorKind::UnexpectedEof => "unexpected end of file",
        ErrorKind::MalformedIdentifier => "",
        ErrorKind::Unimplemented => "construct not supported",
        ErrorKind::Internal => "parser invariant violated",
        ErrorKind::Lexical => "malformed token",
    }
}

/// The note that belongs to each class of failure.
pub open spec fn label_of(kind: ErrorKind) -> &'static str {
    match kind {
        ErrorKind::MalformedIdentifier => "this identifier",
        ErrorKind::UnexpectedEof => "at this location",
        ErrorKind::UnexpectedToken => "this token",
        ErrorKind::Unimplemented => "this token",
        ErrorKind::Internal => "at this location",
        ErrorKind::Lexical => "this token",
    }
}

} // verus!
