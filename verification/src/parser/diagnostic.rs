//! What the parser reports when the tokens are not a program.

use vstd::prelude::*;
use vstd::string::*;

verus! {

/// A syntax error.
#[derive(Debug, PartialEq, Eq, Clone, Copy, Structural)]
pub enum ParseError {
    InvalidMatrixDimensions,
    ExpectedNumber,
    UnclosedMatrix,
    UnclosedGroup,
    IdentityWithoutParen,
    IdentityWithoutSize,
    IdentitySize,
    UnclosedIdentity,
    CallWithoutParen,
    UnclosedCall,
    UnexpectedToken,
    UnterminatedValue,
    UnterminatedExpression,
    ExpectedIdentifier,
    ExpectedAssignment,
    NewlineCount,
    UnterminatedNewline,
}

/// A syntax error and the line it was found on.
#[derive(Debug, PartialEq, Eq, Clone, Copy, Structural)]
pub struct Diagnostic {
    pub line: usize,
    pub error: ParseError,
}

/// The mathematical content of a [`Diagnostic`].
pub struct DiagnosticView {
    pub line: nat,
    pub error: ParseError,
}

impl View for Diagnostic {
    type V = DiagnosticView;

    open spec fn view(&self) -> DiagnosticView {
        DiagnosticView { line: self.line as nat, error: self.error }
    }
}

/// The views of a sequence of diagnostics, in order.
pub open spec fn diagnostic_views(diagnostics: Seq<Diagnostic>) -> Seq<DiagnosticView> {
    diagnostics.map_values(|d: Diagnostic| d@)
}

/// The text of the message for each syntax error.
pub open spec fn message_text(error: ParseError) -> Seq<char> {
    match error {
        ParseError::InvalidMatrixDimensions => "Invalid matrix dimensions"@,
        ParseError::ExpectedNumber => "Expected a number"@,
        ParseError::UnclosedMatrix => "Expected ']' after matrix"@,
        ParseError::UnclosedGroup => "Expected ')' after expression"@,
        ParseError::IdentityWithoutParen => "Expect '(' following identity keyword"@,
        ParseError::IdentityWithoutSize =>
            "Expect size of identity as (n) where n is a positive integer."@,
        ParseError::IdentitySize =>
            "Identity should be of size (n) where n is a positive integer."@,
        ParseError::UnclosedIdentity => "Expect ')' to close identity matrix dimensions."@,
        ParseError::CallWithoutParen => "Expect '(' following ref keyword"@,
        ParseError::UnclosedCall => "Expect ')' to close ref"@,
        ParseError::UnexpectedToken => "Unexpected token"@,
        ParseError::UnterminatedValue => "Expected ';' after value"@,
        ParseError::UnterminatedExpression => "Expect ';' after expression statement"@,
        ParseError::ExpectedIdentifier => "Expected identifier"@,
        ParseError::ExpectedAssignment => "Expected '=' after identifier"@,
        ParseError::NewlineCount => "Expected number after newline"@,
        ParseError::UnterminatedNewline => "Expected ';' after newline"@,
    }
}

impl ParseError {
    /// The message for this error.
    pub fn message(&self) -> (text: &'static str)
        ensures
            text@ == message_text(*self),
    {
        match self {
            ParseError::InvalidMatrixDimensions => "Invalid matrix dimensions",
            ParseError::ExpectedNumber => "Expected a number",
            ParseError::UnclosedMatrix => "Expected ']' after matrix",
            ParseError::UnclosedGroup => "Expected ')' after expression",
            ParseError::IdentityWithoutParen => "Expect '(' following identity keyword",
            ParseError::IdentityWithoutSize =>
                "Expect size of identity as (n) where n is a positive integer.",
            ParseError::IdentitySize =>
                "Identity should be of size (n) where n is a positive integer.",
            ParseError::UnclosedIdentity => "Expect ')' to close identity matrix dimensions.",
            ParseError::CallWithoutParen => "Expect '(' following ref keyword",
            ParseError::UnclosedCall => "Expect ')' to close ref",
            ParseError::UnexpectedToken => "Unexpected token",
            ParseError::UnterminatedValue => "Expected ';' after value",
            ParseError::UnterminatedExpression => "Expect ';' after expression statement",
            ParseError::ExpectedIdentifier => "Expected identifier",
            ParseError::ExpectedAssignment => "Expected '=' after identifier",
            ParseError::NewlineCount => "Expected number after newline",
            ParseError::UnterminatedNewline => "Expected ';' after newline",
        }
    }
}

} // verus!
