//! Tokens: the unit of exchange between the lexer and the parser.

use vstd::prelude::*;
use vstd::string::*;

verus! {

/// The kind of a token.
#[derive(Debug, PartialEq, Eq, Clone, Copy, Structural)]
#[allow(non_camel_case_types)]
pub enum TokenType {
    TOKEN_EOF,
    TOKEN_ERROR,
    TOKEN_NUMBER,
    TOKEN_PLUS,
    TOKEN_MINUS,
    TOKEN_STAR,
    TOKEN_SLASH,
    TOKEN_CARET,
    TOKEN_TRANSPOSE,
    TOKEN_LEFT_PAREN,
    TOKEN_RIGHT_PAREN,
    TOKEN_LEFT_BRACE,
    TOKEN_RIGHT_BRACE,
    TOKEN_LEFT_BRACKET,
    TOKEN_RIGHT_BRACKET,
    TOKEN_COMMA,
    TOKEN_DOT,
    TOKEN_SEMICOLON,
    TOKEN_GREATER,
    TOKEN_GREATER_EQUAL,
    TOKEN_LESS,
    TOKEN_LESS_EQUAL,
    TOKEN_EQUAL,
    TOKEN_EQUAL_EQUAL,
    TOKEN_BANG,
    TOKEN_BANG_EQUAL,
    TOKEN_PIPE,
    TOKEN_IDENTIFIER,
    TOKEN_PRINT,
    TOKEN_NEWLINE,
    TOKEN_LET,
    TOKEN_IDENTITY,
    TOKEN_REF,
    TOKEN_RREF,
    TOKEN_INVERSE,
}

/// A token: its kind, the text it was read from (for an error token, the
/// message), and the line it stands on.
pub struct Token {
    pub token_type: TokenType,
    pub lexeme: String,
    pub line: usize,
}

/// The mathematical content of a [`Token`].
pub struct TokenView {
    pub token_type: TokenType,
    pub lexeme: Seq<char>,
    pub line: nat,
}

impl View for Token {
    type V = TokenView;

    open spec fn view(&self) -> TokenView {
        TokenView { token_type: self.token_type, lexeme: self.lexeme@, line: self.line as nat }
    }
}

impl Clone for Token {
    fn clone(&self) -> (copy: Self)
        ensures
            copy == *self,
    {
        Token { token_type: self.token_type, lexeme: self.lexeme.clone(), line: self.line }
    }
}

impl Token {
    /// The token of the given kind, text and line.
    pub fn new(token_type: TokenType, lexeme: String, line: usize) -> (token: Self)
        ensures
            token.token_type == token_type,
            token.lexeme == lexeme,
            token.line == line,
    {
        Token { token_type, lexeme, line }
    }
}

/// The views of a sequence of tokens, in order.
pub open spec fn token_views(tokens: Seq<Token>) -> Seq<TokenView> {
    tokens.map_values(|t: Token| t@)
}

/// The name of a kind of token.
pub open spec fn kind_name(kind: TokenType) -> Seq<char> {
    match kind {
        TokenType::TOKEN_EOF => "TOKEN_EOF"@,
        TokenType::TOKEN_ERROR => "TOKEN_ERROR"@,
        TokenType::TOKEN_NUMBER => "TOKEN_NUMBER"@,
        TokenType::TOKEN_PLUS => "TOKEN_PLUS"@,
        TokenType::TOKEN_MINUS => "TOKEN_MINUS"@,
        TokenType::TOKEN_STAR => "TOKEN_STAR"@,
        TokenType::TOKEN_SLASH => "TOKEN_SLASH"@,
        TokenType::TOKEN_CARET => "TOKEN_CARET"@,
        TokenType::TOKEN_TRANSPOSE => "TOKEN_TRANSPOSE"@,
        TokenType::TOKEN_LEFT_PAREN => "TOKEN_LEFT_PAREN"@,
        TokenType::TOKEN_RIGHT_PAREN => "TOKEN_RIGHT_PAREN"@,
        TokenType::TOKEN_LEFT_BRACE => "TOKEN_LEFT_BRACE"@,
        TokenType::TOKEN_RIGHT_BRACE => "TOKEN_RIGHT_BRACE"@,
        TokenType::TOKEN_LEFT_BRACKET => "TOKEN_LEFT_BRACKET"@,
        TokenType::TOKEN_RIGHT_BRACKET => "TOKEN_RIGHT_BRACKET"@,
        TokenType::TOKEN_COMMA => "TOKEN_COMMA"@,
        TokenType::TOKEN_DOT => "TOKEN_DOT"@,
        TokenType::TOKEN_SEMICOLON => "TOKEN_SEMICOLON"@,
        TokenType::TOKEN_GREATER => "TOKEN_GREATER"@,
        TokenType::TOKEN_GREATER_EQUAL => "TOKEN_GREATER_EQUAL"@,
        TokenType::TOKEN_LESS => "TOKEN_LESS"@,
        TokenType::TOKEN_LESS_EQUAL => "TOKEN_LESS_EQUAL"@,
        TokenType::TOKEN_EQUAL => "TOKEN_EQUAL"@,
        TokenType::TOKEN_EQUAL_EQUAL => "TOKEN_EQUAL_EQUAL"@,
        TokenType::TOKEN_BANG => "TOKEN_BANG"@,
        TokenType::TOKEN_BANG_EQUAL => "TOKEN_BANG_EQUAL"@,
        TokenType::TOKEN_PIPE => "TOKEN_PIPE"@,
        TokenType::TOKEN_IDENTIFIER => "TOKEN_IDENTIFIER"@,
        TokenType::TOKEN_PRINT => "TOKEN_PRINT"@,
        TokenType::TOKEN_NEWLINE => "TOKEN_NEWLINE"@,
        TokenType::TOKEN_LET => "TOKEN_LET"@,
        TokenType::TOKEN_IDENTITY => "TOKEN_IDENTITY"@,
        TokenType::TOKEN_REF => "TOKEN_REF"@,
        TokenType::TOKEN_RREF => "TOKEN_RREF"@,
        TokenType::TOKEN_INVERSE => "TOKEN_INVERSE"@,
    }
}

impl TokenType {
    /// The name of this kind of token.
    pub fn name(&self) -> (text: &'static str)
        ensures
            text@ == kind_name(*self),
    {
        match self {
            TokenType::TOKEN_EOF => "TOKEN_EOF",
            TokenType::TOKEN_ERROR => "TOKEN_ERROR",
            TokenType::TOKEN_NUMBER => "TOKEN_NUMBER",
            TokenType::TOKEN_PLUS => "TOKEN_PLUS",
            TokenType::TOKEN_MINUS => "TOKEN_MINUS",
            TokenType::TOKEN_STAR => "TOKEN_STAR",
            TokenType::TOKEN_SLASH => "TOKEN_SLASH",
            TokenType::TOKEN_CARET => "TOKEN_CARET",
            TokenType::TOKEN_TRANSPOSE => "TOKEN_TRANSPOSE",
            TokenType::TOKEN_LEFT_PAREN => "TOKEN_LEFT_PAREN",
            TokenType::TOKEN_RIGHT_PAREN => "TOKEN_RIGHT_PAREN",
            TokenType::TOKEN_LEFT_BRACE => "TOKEN_LEFT_BRACE",
            TokenType::TOKEN_RIGHT_BRACE => "TOKEN_RIGHT_BRACE",
            TokenType::TOKEN_LEFT_BRACKET => "TOKEN_LEFT_BRACKET",
            TokenType::TOKEN_RIGHT_BRACKET => "TOKEN_RIGHT_BRACKET",
            TokenType::TOKEN_COMMA => "TOKEN_COMMA",
            TokenType::TOKEN_DOT => "TOKEN_DOT",
            TokenType::TOKEN_SEMICOLON => "TOKEN_SEMICOLON",
            TokenType::TOKEN_GREATER => "TOKEN_GREATER",
            TokenType::TOKEN_GREATER_EQUAL => "TOKEN_GREATER_EQUAL",
            TokenType::TOKEN_LESS => "TOKEN_LESS",
            TokenType::TOKEN_LESS_EQUAL => "TOKEN_LESS_EQUAL",
            TokenType::TOKEN_EQUAL => "TOKEN_EQUAL",
            TokenType::TOKEN_EQUAL_EQUAL => "TOKEN_EQUAL_EQUAL",
            TokenType::TOKEN_BANG => "TOKEN_BANG",
            TokenType::TOKEN_BANG_EQUAL => "TOKEN_BANG_EQUAL",
            TokenType::TOKEN_PIPE => "TOKEN_PIPE",
            TokenType::TOKEN_IDENTIFIER => "TOKEN_IDENTIFIER",
            TokenType::TOKEN_PRINT => "TOKEN_PRINT",
            TokenType::TOKEN_NEWLINE => "TOKEN_NEWLINE",
            TokenType::TOKEN_LET => "TOKEN_LET",
            TokenType::TOKEN_IDENTITY => "TOKEN_IDENTITY",
            TokenType::TOKEN_REF => "TOKEN_REF",
            TokenType::TOKEN_RREF => "TOKEN_RREF",
            TokenType::TOKEN_INVERSE => "TOKEN_INVERSE",
        }
    }
}

/// The character that writes the digit `d`.
pub open spec fn digit_text(d: nat) -> Seq<char> {
    if d == 0 {
        "0"@
    } else if d == 1 {
        "1"@
    } else if d == 2 {
        "2"@
    } else if d == 3 {
        "3"@
    } else if d == 4 {
        "4"@
    } else if d == 5 {
        "5"@
    } else if d == 6 {
        "6"@
    } else if d == 7 {
        "7"@
    } else if d == 8 {
        "8"@
    } else {
        "9"@
    }
}

/// The decimal digits of `n`, without leading zeros.
pub open spec fn decimal_text(n: nat) -> Seq<char>
    decreases n,
{
    if n < 10 {
        digit_text(n)
    } else {
        decimal_text(n / 10) + digit_text(n % 10)
    }
}

/// What a token reads as: its kind, its text and its line, with dashes
/// between them.
pub open spec fn token_text(token: TokenView) -> Seq<char> {
    kind_name(token.token_type) + " - "@ + token.lexeme + " - "@ + decimal_text(token.line)
}

fn digit_str(d: usize) -> (text: &'static str)
    requires
        d < 10,
    ensures
        text@ == digit_text(d as nat),
{
    if d == 0 {
        "0"
    } else if d == 1 {
        "1"
    } else if d == 2 {
        "2"
    } else if d == 3 {
        "3"
    } else if d == 4 {
        "4"
    } else if d == 5 {
        "5"
    } else if d == 6 {
        "6"
    } else if d == 7 {
        "7"
    } else if d == 8 {
        "8"
    } else {
        "9"
    }
}

/// The decimal digits of `n`.
pub fn decimal(n: usize) -> (text: String)
    ensures
        text@ == decimal_text(n as nat),
    decreases n,
{
    if n < 10 {
        String::from_str(digit_str(n))
    } else {
        decimal(n / 10).concat(digit_str(n % 10))
    }
}

impl Token {
    /// The token as text: its kind, its text and its line.
    pub fn to_string(&self) -> (text: String)
        ensures
            text@ == token_text(self@),
    {
        let mut text = String::from_str(self.token_type.name());
        text.append(" - ");
        text.append(self.lexeme.as_str());
        text.append(" - ");
        text.append(decimal(self.line).as_str());
        text
    }
}

} // verus!
