//! The grammar, as functions from a token sequence and a position to what
//! the parser builds there, how many tokens it takes, and what it reports.
//!
//! From lowest to highest precedence:
//!
//! ```text
//! equality       -> comparison (("!=" | "==") comparison)*
//! comparison     -> term (("<" | "<=" | ">" | ">=") term)*
//! term           -> factor (("+" | "-") factor)*
//! factor         -> exponentiation (("*" | "/") factor)?
//! exponentiation -> unary ("'")* ("^" unary)*
//! unary          -> "-" unary | literal
//! literal        -> NUMBER | "[" matrix "]" | "(" expression ")" | IDENTIFIER
//!                 | "identity" "(" NUMBER ")"
//!                 | ("ref" | "rref" | "inverse") "(" expression ")"
//! ```

use vstd::prelude::*;
use crate::ast::expression::ExpressionView;
use crate::ast::statement::StatementView;
use crate::parser::unfolding;
use crate::parser::diagnostic::DiagnosticView;
use crate::parser::diagnostic::ParseError;
use crate::parser::numeral::count;
use crate::parser::numeral::size_reading;
use crate::parser::numeral::SizeReading;
use crate::tokens::TokenType;
use crate::tokens::TokenView;
use crate::value::identity_entries;
use crate::value::ValueView;

verus! {

/// What parsing one construct gives: the node built, the number of tokens
/// taken, and the errors reported on the way.
pub struct Step<T> {
    pub value: T,
    pub consumed: nat,
    pub errors: Seq<DiagnosticView>,
}

impl<T> Step<T> {
    /// The step builds `value`.
    pub open spec fn gives(self, value: T) -> bool {
        self.value == value
    }
}

/// What parsing a program gives: its statements, the position reached,
/// whether the parser is still recovering from an error, and the errors
/// reported.
pub struct Program {
    pub statements: Seq<StatementView>,
    pub end: nat,
    pub panic: bool,
    pub errors: Seq<DiagnosticView>,
}

/// The number of tokens from `pos` on.
pub open spec fn remaining(tokens: Seq<TokenView>, pos: nat) -> nat {
    if pos <= tokens.len() {
        (tokens.len() - pos) as nat
    } else {
        0
    }
}

/// No token is left to read at `pos`: the end-of-input token stands there.
pub open spec fn at_end(tokens: Seq<TokenView>, pos: nat) -> bool {
    pos >= tokens.len() || tokens[pos as int].token_type == TokenType::TOKEN_EOF
}

/// A token of the given kind stands at `pos`.
pub open spec fn check(tokens: Seq<TokenView>, pos: nat, kind: TokenType) -> bool {
    !at_end(tokens, pos) && tokens[pos as int].token_type == kind
}

/// The line of the token at `pos`.
pub open spec fn line_at(tokens: Seq<TokenView>, pos: nat) -> nat {
    if pos < tokens.len() {
        tokens[pos as int].line
    } else {
        0
    }
}

/// One error, reported at the token at `pos`.
pub open spec fn report(tokens: Seq<TokenView>, pos: nat, error: ParseError) -> Seq<
    DiagnosticView,
> {
    seq![DiagnosticView { line: line_at(tokens, pos), error }]
}

/// Takes the token at `pos` if it is of the given kind, and reports `error`
/// there if it is not.
pub open spec fn expect(tokens: Seq<TokenView>, pos: nat, kind: TokenType, error: ParseError)
    -> Step<bool> {
    if check(tokens, pos, kind) {
        Step { value: true, consumed: 1, errors: Seq::empty() }
    } else {
        Step { value: false, consumed: 0, errors: report(tokens, pos, error) }
    }
}

/// The inert node that stands in for what could not be parsed: the
/// number zero.
pub open spec fn placeholder() -> ExpressionView {
    ExpressionView::Literal(ValueView::Scalar("0"@))
}

/// The literal for the `size` by `size` identity matrix.
pub open spec fn identity_literal(size: nat) -> ExpressionView {
    ExpressionView::Literal(
        ValueView::Matrix { data: identity_entries(size, "0"@, "1"@), rows: size, cols: size },
    )
}

/// A node for a binary operator.
pub open spec fn binary(left: ExpressionView, operator: TokenView, right: ExpressionView)
    -> ExpressionView {
    ExpressionView::Binary { left: Box::new(left), operator, right: Box::new(right) }
}

/// A node for a unary operator.
pub open spec fn unary_node(operator: TokenView, right: ExpressionView) -> ExpressionView {
    ExpressionView::Unary { operator, right: Box::new(right) }
}

/// `count` entries fill `rows` rows of `width` entries each, and a row is
/// not empty.
pub open spec fn fills(count: nat, rows: nat, width: nat) -> bool {
    width >= 1 && count == rows * width
}

/// The rest of a matrix literal from `pos` on, after `entries` have been
/// read into `rows` rows so far, each `cols` wide once the first row is
/// closed (`cols` is 0 until then); `ragged` says whether a row of another
/// length has been closed already.  A `|` closes a row and a `]` closes the
/// last row and the literal: each reports invalid dimensions unless the
/// entries read so far fill the rows closed so far, and a literal with
/// such a report is the placeholder.  Any other token that is not a number
/// ends the literal with an error.
#[verifier::opaque]
pub open spec fn matrix_rest(
    tokens: Seq<TokenView>,
    pos: nat,
    entries: Seq<Seq<char>>,
    rows: nat,
    cols: nat,
    ragged: bool,
) -> Step<ExpressionView>
    decreases remaining(tokens, pos),
{
    let width = if cols == 0 {
        entries.len()
    } else {
        cols
    };
    let full = fills(entries.len(), rows, width);
    let complaint = if full {
        Seq::empty()
    } else {
        report(tokens, pos, ParseError::InvalidMatrixDimensions)
    };
    if check(tokens, pos, TokenType::TOKEN_PIPE) {
        let rest = matrix_rest(tokens, pos + 1, entries, rows + 1, width, ragged || !full);
        Step { value: rest.value, consumed: 1 + rest.consumed, errors: complaint + rest.errors }
    } else if check(tokens, pos, TokenType::TOKEN_NUMBER) {
        let rest = matrix_rest(
            tokens,
            pos + 1,
            entries.push(tokens[pos as int].lexeme),
            rows,
            cols,
            ragged,
        );
        Step { value: rest.value, consumed: 1 + rest.consumed, errors: rest.errors }
    } else if check(tokens, pos, TokenType::TOKEN_RIGHT_BRACKET) {
        Step {
            value: if ragged || !full {
                placeholder()
            } else {
                ExpressionView::Literal(ValueView::Matrix { data: entries, rows, cols: width })
            },
            consumed: 1,
            errors: complaint,
        }
    } else if at_end(tokens, pos) {
        Step {
            value: placeholder(),
            consumed: 0,
            errors: complaint + report(tokens, pos, ParseError::UnclosedMatrix),
        }
    } else {
        Step {
            value: placeholder(),
            consumed: 0,
            errors: report(tokens, pos, ParseError::ExpectedNumber),
        }
    }
}

/// The argument list of `identity`, from `pos` on: `(`, a number that
/// gives a size, and `)`.  A size that is missing, below one, fractional
/// or too large is an error.  Behind a size below one the `)` is still
/// taken, if it is there.
pub open spec fn identity_call(tokens: Seq<TokenView>, pos: nat) -> Step<ExpressionView> {
    let open = expect(tokens, pos, TokenType::TOKEN_LEFT_PAREN, ParseError::IdentityWithoutParen);
    let at = pos + open.consumed;
    if !check(tokens, at, TokenType::TOKEN_NUMBER) {
        Step {
            value: placeholder(),
            consumed: open.consumed,
            errors: open.errors + report(tokens, at, ParseError::IdentityWithoutSize),
        }
    } else {
        match size_reading(tokens[at as int].lexeme) {
            SizeReading::Size(size) => {
                let close = expect(
                    tokens,
                    at + 1,
                    TokenType::TOKEN_RIGHT_PAREN,
                    ParseError::UnclosedIdentity,
                );
                Step {
                    value: identity_literal(size as nat),
                    consumed: open.consumed + 1 + close.consumed,
                    errors: open.errors + close.errors,
                }
            },
            SizeReading::BelowOne => {
                let closed: nat = if check(tokens, at + 1, TokenType::TOKEN_RIGHT_PAREN) {
                    1
                } else {
                    0
                };
                Step {
                    value: placeholder(),
                    consumed: open.consumed + 1 + closed,
                    errors: open.errors + report(
                        tokens,
                        at + 1 + closed,
                        ParseError::IdentitySize,
                    ),
                }
            },
            SizeReading::Unfit => Step {
                value: placeholder(),
                consumed: open.consumed + 1,
                errors: open.errors + report(tokens, at + 1, ParseError::IdentitySize),
            },
        }
    }
}

/// The transpose marks from `pos` on, each wrapped around what stands
/// before it.
#[verifier::opaque]
pub open spec fn transposes(tokens: Seq<TokenView>, pos: nat, operand: ExpressionView) -> Step<
    ExpressionView,
>
    decreases remaining(tokens, pos),
{
    if check(tokens, pos, TokenType::TOKEN_TRANSPOSE) {
        let rest = transposes(tokens, pos + 1, unary_node(tokens[pos as int], operand));
        Step { value: rest.value, consumed: 1 + rest.consumed, errors: rest.errors }
    } else {
        Step { value: operand, consumed: 0, errors: Seq::empty() }
    }
}

/// An expression from `pos` on: an equality.
#[verifier::opaque]
pub open spec fn expression(tokens: Seq<TokenView>, pos: nat) -> Step<ExpressionView>
    decreases remaining(tokens, pos), 16nat,
{
    equality(tokens, pos)
}

/// A comparison, and the equality tests that follow it.
#[verifier::opaque]
pub open spec fn equality(tokens: Seq<TokenView>, pos: nat) -> Step<ExpressionView>
    decreases remaining(tokens, pos), 15nat,
{
    let first = comparison(tokens, pos);
    let rest = equality_rest(tokens, pos + first.consumed, first.value);
    Step {
        value: rest.value,
        consumed: first.consumed + rest.consumed,
        errors: first.errors + rest.errors,
    }
}

/// The operators of equality from `pos` on with their right operands,
/// grouped to the left around `left`.
#[verifier::opaque]
pub open spec fn equality_rest(tokens: Seq<TokenView>, pos: nat, left: ExpressionView) -> Step<
    ExpressionView,
>
    decreases remaining(tokens, pos), 14nat,
{
    if check(tokens, pos, TokenType::TOKEN_BANG_EQUAL) || check(
        tokens,
        pos,
        TokenType::TOKEN_EQUAL_EQUAL,
    ) {
        let right = comparison(tokens, pos + 1);
        let rest = equality_rest(
            tokens,
            pos + 1 + right.consumed,
            binary(left, tokens[pos as int], right.value),
        );
        Step {
            value: rest.value,
            consumed: 1 + right.consumed + rest.consumed,
            errors: right.errors + rest.errors,
        }
    } else {
        Step { value: left, consumed: 0, errors: Seq::empty() }
    }
}

/// A term, and the comparisons that follow it.
#[verifier::opaque]
pub open spec fn comparison(tokens: Seq<TokenView>, pos: nat) -> Step<ExpressionView>
    decreases remaining(tokens, pos), 13nat,
{
    let first = term(tokens, pos);
    let rest = comparison_rest(tokens, pos + first.consumed, first.value);
    Step {
        value: rest.value,
        consumed: first.consumed + rest.consumed,
        errors: first.errors + rest.errors,
    }
}

/// The operators of comparison from `pos` on with their right operands,
/// grouped to the left around `left`.
#[verifier::opaque]
pub open spec fn comparison_rest(tokens: Seq<TokenView>, pos: nat, left: ExpressionView) -> Step<
    ExpressionView,
>
    decreases remaining(tokens, pos), 12nat,
{
    if check(tokens, pos, TokenType::TOKEN_GREATER) || check(
        tokens,
        pos,
        TokenType::TOKEN_GREATER_EQUAL,
    ) || check(tokens, pos, TokenType::TOKEN_LESS) || check(
        tokens,
        pos,
        TokenType::TOKEN_LESS_EQUAL,
    ) {
        let right = term(tokens, pos + 1);
        let rest = comparison_rest(
            tokens,
            pos + 1 + right.consumed,
            binary(left, tokens[pos as int], right.value),
        );
        Step {
            value: rest.value,
            consumed: 1 + right.consumed + rest.consumed,
            errors: right.errors + rest.errors,
        }
    } else {
        Step { value: left, consumed: 0, errors: Seq::empty() }
    }
}

/// A factor, and the additions and subtractions that follow it.
#[verifier::opaque]
pub open spec fn term(tokens: Seq<TokenView>, pos: nat) -> Step<ExpressionView>
    decreases remaining(tokens, pos), 11nat,
{
    let first = factor(tokens, pos);
    let rest = term_rest(tokens, pos + first.consumed, first.value);
    Step {
        value: rest.value,
        consumed: first.consumed + rest.consumed,
        errors: first.errors + rest.errors,
    }
}

/// The additions and subtractions from `pos` on with their right
/// operands, grouped to the left around `left`.
#[verifier::opaque]
pub open spec fn term_rest(tokens: Seq<TokenView>, pos: nat, left: ExpressionView) -> Step<
    ExpressionView,
>
    decreases remaining(tokens, pos), 10nat,
{
    if check(tokens, pos, TokenType::TOKEN_PLUS) || check(tokens, pos, TokenType::TOKEN_MINUS) {
        let right = factor(tokens, pos + 1);
        let rest = term_rest(
            tokens,
            pos + 1 + right.consumed,
            binary(left, tokens[pos as int], right.value),
        );
        Step {
            value: rest.value,
            consumed: 1 + right.consumed + rest.consumed,
            errors: right.errors + rest.errors,
        }
    } else {
        Step { value: left, consumed: 0, errors: Seq::empty() }
    }
}

/// Multiplication and division group to the right: the right operand of
/// `*` or `/` is the whole factor that follows.
#[verifier::opaque]
pub open spec fn factor(tokens: Seq<TokenView>, pos: nat) -> Step<ExpressionView>
    decreases remaining(tokens, pos), 9nat,
{
    let left = exponentiation(tokens, pos);
    let at = pos + left.consumed;
    if check(tokens, at, TokenType::TOKEN_STAR) || check(tokens, at, TokenType::TOKEN_SLASH) {
        let right = factor(tokens, at + 1);
        Step {
            value: binary(left.value, tokens[at as int], right.value),
            consumed: left.consumed + 1 + right.consumed,
            errors: left.errors + right.errors,
        }
    } else {
        left
    }
}

/// Transposition binds tighter than a power.
#[verifier::opaque]
pub open spec fn exponentiation(tokens: Seq<TokenView>, pos: nat) -> Step<ExpressionView>
    decreases remaining(tokens, pos), 8nat,
{
    let base = unary(tokens, pos);
    let marks = transposes(tokens, pos + base.consumed, base.value);
    let rest = powers(tokens, pos + base.consumed + marks.consumed, marks.value);
    Step {
        value: rest.value,
        consumed: base.consumed + marks.consumed + rest.consumed,
        errors: base.errors + rest.errors,
    }
}

/// The powers from `pos` on with their exponents, grouped to the left
/// around `left`.
#[verifier::opaque]
pub open spec fn powers(tokens: Seq<TokenView>, pos: nat, left: ExpressionView) -> Step<
    ExpressionView,
>
    decreases remaining(tokens, pos), 7nat,
{
    if check(tokens, pos, TokenType::TOKEN_CARET) {
        let right = unary(tokens, pos + 1);
        let rest = powers(
            tokens,
            pos + 1 + right.consumed,
            binary(left, tokens[pos as int], right.value),
        );
        Step {
            value: rest.value,
            consumed: 1 + right.consumed + rest.consumed,
            errors: right.errors + rest.errors,
        }
    } else {
        Step { value: left, consumed: 0, errors: Seq::empty() }
    }
}

/// A negation of what follows the `-`, or a literal.
#[verifier::opaque]
pub open spec fn unary(tokens: Seq<TokenView>, pos: nat) -> Step<ExpressionView>
    decreases remaining(tokens, pos), 6nat,
{
    if check(tokens, pos, TokenType::TOKEN_MINUS) {
        let right = unary(tokens, pos + 1);
        Step {
            value: unary_node(tokens[pos as int], right.value),
            consumed: 1 + right.consumed,
            errors: right.errors,
        }
    } else {
        literal(tokens, pos)
    }
}

/// A parenthesised expression, after its `(`, from `pos` on.
#[verifier::opaque]
pub open spec fn group(tokens: Seq<TokenView>, pos: nat) -> Step<ExpressionView>
    decreases remaining(tokens, pos), 17nat,
{
    let inner = expression(tokens, pos);
    let close = expect(
        tokens,
        pos + inner.consumed,
        TokenType::TOKEN_RIGHT_PAREN,
        ParseError::UnclosedGroup,
    );
    Step {
        value: if close.value {
            ExpressionView::Grouping(Box::new(inner.value))
        } else {
            placeholder()
        },
        consumed: inner.consumed + close.consumed,
        errors: inner.errors + close.errors,
    }
}

/// The operand of `ref`, `rref` or `inverse`, after the keyword `operator`,
/// from `pos` on.  A missing parenthesis is reported and parsing goes on.
#[verifier::opaque]
pub open spec fn call(tokens: Seq<TokenView>, pos: nat, operator: TokenView) -> Step<
    ExpressionView,
>
    decreases remaining(tokens, pos), 17nat,
{
    let open = expect(tokens, pos, TokenType::TOKEN_LEFT_PAREN, ParseError::CallWithoutParen);
    let inner = expression(tokens, pos + open.consumed);
    let close = expect(
        tokens,
        pos + open.consumed + inner.consumed,
        TokenType::TOKEN_RIGHT_PAREN,
        ParseError::UnclosedCall,
    );
    Step {
        value: unary_node(operator, inner.value),
        consumed: open.consumed + inner.consumed + close.consumed,
        errors: open.errors + inner.errors + close.errors,
    }
}

/// A literal takes the token at `pos` and goes by its kind.  At the end
/// of input, and for a token that starts no literal, it reports an
/// unexpected token and gives the placeholder.
#[verifier::opaque]
pub open spec fn literal(tokens: Seq<TokenView>, pos: nat) -> Step<ExpressionView>
    decreases remaining(tokens, pos), 5nat,
{
    if at_end(tokens, pos) {
        Step {
            value: placeholder(),
            consumed: 0,
            errors: report(tokens, pos, ParseError::UnexpectedToken),
        }
    } else {
        let token = tokens[pos as int];
        let rest = match token.token_type {
            TokenType::TOKEN_NUMBER => Step {
                value: ExpressionView::Literal(ValueView::Scalar(token.lexeme)),
                consumed: 0,
                errors: Seq::empty(),
            },
            TokenType::TOKEN_LEFT_BRACKET => matrix_rest(
                tokens,
                pos + 1,
                Seq::empty(),
                1,
                0,
                false,
            ),
            TokenType::TOKEN_LEFT_PAREN => group(tokens, pos + 1),
            TokenType::TOKEN_IDENTIFIER => Step {
                value: ExpressionView::Identifier(token.lexeme),
                consumed: 0,
                errors: Seq::empty(),
            },
            TokenType::TOKEN_IDENTITY => identity_call(tokens, pos + 1),
            TokenType::TOKEN_REF | TokenType::TOKEN_RREF | TokenType::TOKEN_INVERSE => call(
                tokens,
                pos + 1,
                token,
            ),
            _ => Step {
                value: placeholder(),
                consumed: 0,
                errors: report(tokens, pos + 1, ParseError::UnexpectedToken),
            },
        };
        Step { value: rest.value, consumed: 1 + rest.consumed, errors: rest.errors }
    }
}

/// The statement that stands in for one that could not be parsed.
pub open spec fn placeholder_statement() -> StatementView {
    StatementView::Expression(placeholder())
}

/// A print statement, after its keyword, from `pos` on.
pub open spec fn print_statement(tokens: Seq<TokenView>, pos: nat) -> Step<StatementView> {
    let value = expression(tokens, pos);
    let end = expect(
        tokens,
        pos + value.consumed,
        TokenType::TOKEN_SEMICOLON,
        ParseError::UnterminatedValue,
    );
    Step {
        value: if end.value {
            StatementView::Print(value.value)
        } else {
            placeholder_statement()
        },
        consumed: value.consumed + end.consumed,
        errors: value.errors + end.errors,
    }
}

/// An expression statement from `pos` on.
pub open spec fn expression_statement(tokens: Seq<TokenView>, pos: nat) -> Step<StatementView> {
    let value = expression(tokens, pos);
    let end = expect(
        tokens,
        pos + value.consumed,
        TokenType::TOKEN_SEMICOLON,
        ParseError::UnterminatedExpression,
    );
    Step {
        value: if end.value {
            StatementView::Expression(value.value)
        } else {
            placeholder_statement()
        },
        consumed: value.consumed + end.consumed,
        errors: value.errors + end.errors,
    }
}

/// A let statement, after its keyword, from `pos` on.  It binds its name
/// only if nothing is missing: without a name, a `=` or a `;` the
/// placeholder stands in for the statement.
pub open spec fn let_statement(tokens: Seq<TokenView>, pos: nat) -> Step<StatementView> {
    let name = expect(tokens, pos, TokenType::TOKEN_IDENTIFIER, ParseError::ExpectedIdentifier);
    let at = pos + name.consumed;
    let assign = expect(tokens, at, TokenType::TOKEN_EQUAL, ParseError::ExpectedAssignment);
    if assign.value {
        let value = expression(tokens, at + 1);
        let end = expect(
            tokens,
            at + 1 + value.consumed,
            TokenType::TOKEN_SEMICOLON,
            ParseError::UnterminatedValue,
        );
        Step {
            value: if name.value && end.value {
                StatementView::Let { name: tokens[pos as int], initializer: value.value }
            } else {
                placeholder_statement()
            },
            consumed: name.consumed + 1 + value.consumed + end.consumed,
            errors: name.errors + value.errors + end.errors,
        }
    } else {
        Step {
            value: placeholder_statement(),
            consumed: name.consumed,
            errors: name.errors + assign.errors,
        }
    }
}

/// A newline statement, after its keyword, from `pos` on: one line, or as
/// many as the number that follows says.  A number that is no count, and
/// a missing `;`, are reported, and the placeholder stands in for the
/// statement.
pub open spec fn new_line_statement(tokens: Seq<TokenView>, pos: nat) -> Step<StatementView> {
    let given = check(tokens, pos, TokenType::TOKEN_NUMBER);
    let at = if given {
        pos + 1
    } else {
        pos
    };
    let lines = if given {
        count(tokens[pos as int].lexeme)
    } else {
        Some(1usize)
    };
    let complaint = if lines is None {
        report(tokens, at, ParseError::NewlineCount)
    } else {
        Seq::empty()
    };
    let end = expect(tokens, at, TokenType::TOKEN_SEMICOLON, ParseError::UnterminatedNewline);
    Step {
        value: match lines {
            Some(n) if end.value => StatementView::NewLine(n as nat),
            _ => placeholder_statement(),
        },
        consumed: (at - pos) as nat + end.consumed,
        errors: complaint + end.errors,
    }
}

/// A statement from `pos` on: by its keyword, or an expression statement.
pub open spec fn statement(tokens: Seq<TokenView>, pos: nat) -> Step<StatementView> {
    if check(tokens, pos, TokenType::TOKEN_PRINT) {
        let rest = print_statement(tokens, pos + 1);
        Step { value: rest.value, consumed: 1 + rest.consumed, errors: rest.errors }
    } else if check(tokens, pos, TokenType::TOKEN_LET) {
        let rest = let_statement(tokens, pos + 1);
        Step { value: rest.value, consumed: 1 + rest.consumed, errors: rest.errors }
    } else if check(tokens, pos, TokenType::TOKEN_NEWLINE) {
        let rest = new_line_statement(tokens, pos + 1);
        Step { value: rest.value, consumed: 1 + rest.consumed, errors: rest.errors }
    } else {
        expression_statement(tokens, pos)
    }
}

/// Where recovery stops when it looks on from `pos`, and whether the
/// parser is then still recovering: it stops behind a `;` and before a
/// `print`, and is still recovering if it reaches the end of input first.
#[verifier::opaque]
pub open spec fn skip(tokens: Seq<TokenView>, pos: nat) -> (nat, bool)
    decreases remaining(tokens, pos),
{
    if at_end(tokens, pos) {
        (pos, true)
    } else if pos >= 1 && tokens[pos - 1].token_type == TokenType::TOKEN_SEMICOLON {
        (pos, false)
    } else if tokens[pos as int].token_type == TokenType::TOKEN_PRINT {
        (pos, false)
    } else {
        skip(tokens, pos + 1)
    }
}

/// Recovery from an error, from `pos` on: tokens are dropped until one has
/// passed a `;` or the cursor stands before a `print`.  A cursor that
/// stands before a `print` already drops nothing.
pub open spec fn synchronize(tokens: Seq<TokenView>, pos: nat) -> (nat, bool) {
    if at_end(tokens, pos) {
        (pos, true)
    } else if tokens[pos as int].token_type == TokenType::TOKEN_PRINT {
        (pos, false)
    } else {
        skip(tokens, pos + 1)
    }
}

/// A literal takes at least one token unless the input is at its end.
pub proof fn lemma_expression_progress(tokens: Seq<TokenView>, pos: nat)
    requires
        !at_end(tokens, pos),
    ensures
        literal(tokens, pos).consumed >= 1,
        unary(tokens, pos).consumed >= 1,
        exponentiation(tokens, pos).consumed >= 1,
        factor(tokens, pos).consumed >= 1,
        term(tokens, pos).consumed >= 1,
        comparison(tokens, pos).consumed >= 1,
        equality(tokens, pos).consumed >= 1,
        expression(tokens, pos).consumed >= 1,
{
    unfolding::lemma_literal(tokens, pos);
    unfolding::lemma_unary(tokens, pos);
    unfolding::lemma_exponentiation(tokens, pos);
    unfolding::lemma_factor(tokens, pos);
    unfolding::lemma_term(tokens, pos);
    unfolding::lemma_comparison(tokens, pos);
    unfolding::lemma_equality(tokens, pos);
    unfolding::lemma_expression(tokens, pos);
}

/// A statement takes at least one token unless the input is at its end.
pub proof fn lemma_statement_progress(tokens: Seq<TokenView>, pos: nat)
    requires
        !at_end(tokens, pos),
    ensures
        statement(tokens, pos).consumed >= 1,
{
    if check(tokens, pos, TokenType::TOKEN_PRINT) {
    } else if check(tokens, pos, TokenType::TOKEN_LET) {
    } else if check(tokens, pos, TokenType::TOKEN_NEWLINE) {
    } else {
        lemma_expression_progress(tokens, pos);
        assert(expression_statement(tokens, pos).consumed >= expression(tokens, pos).consumed);
    }
}

/// Recovery never goes back.
pub proof fn lemma_skip_forward(tokens: Seq<TokenView>, pos: nat)
    ensures
        skip(tokens, pos).0 >= pos,
        synchronize(tokens, pos).0 >= pos,
    decreases remaining(tokens, pos),
{
    unfolding::lemma_skip(tokens, pos);
    if !at_end(tokens, pos) {
        lemma_skip_forward(tokens, pos + 1);
        unfolding::lemma_skip(tokens, pos + 1);
    }
}

/// The statements from `pos` on, to the end of input.  After a statement
/// that reported an error, or while `panic` still holds from before, the
/// parser recovers before it reads the next statement.
#[verifier::opaque]
pub open spec fn statements_from(tokens: Seq<TokenView>, pos: nat, panic: bool) -> Program
    decreases remaining(tokens, pos),
{
    if at_end(tokens, pos) {
        Program { statements: Seq::empty(), end: pos, panic, errors: Seq::empty() }
    } else {
        let first = statement(tokens, pos);
        let after = pos + first.consumed;
        let failed = panic || first.errors.len() > 0;
        let resume = if failed {
            synchronize(tokens, after)
        } else {
            (after, false)
        };
        proof {
            lemma_statement_progress(tokens, pos);
            lemma_skip_forward(tokens, after);
        }
        let rest = statements_from(tokens, resume.0, resume.1);
        Program {
            statements: seq![first.value] + rest.statements,
            end: rest.end,
            panic: rest.panic,
            errors: first.errors + rest.errors,
        }
    }
}

/// Recovery stops on a token, or on the end-of-input token: it never
/// leaves the tokens.
pub proof fn lemma_skip_within(tokens: Seq<TokenView>, pos: nat)
    requires
        tokens.len() > 0,
        tokens.last().token_type == TokenType::TOKEN_EOF,
        pos < tokens.len(),
    ensures
        skip(tokens, pos).0 < tokens.len(),
        skip(tokens, pos).1 ==> at_end(tokens, skip(tokens, pos).0),
        synchronize(tokens, pos).0 < tokens.len(),
        synchronize(tokens, pos).1 ==> at_end(tokens, synchronize(tokens, pos).0),
    decreases remaining(tokens, pos),
{
    unfolding::lemma_skip(tokens, pos);
    if !at_end(tokens, pos) {
        lemma_skip_within(tokens, pos + 1);
        unfolding::lemma_skip(tokens, pos + 1);
    }
}

/// A program that reports no error leaves the parser as calm as it found
/// it: a parser that was not recovering is not recovering at the end.
pub proof fn lemma_quiet_program(tokens: Seq<TokenView>, pos: nat)
    ensures
        statements_from(tokens, pos, false).errors.len() == 0 ==> !statements_from(
            tokens,
            pos,
            false,
        ).panic,
    decreases remaining(tokens, pos),
{
    unfolding::lemma_statements_from(tokens, pos, false);
    if !at_end(tokens, pos) {
        let first = statement(tokens, pos);
        lemma_statement_progress(tokens, pos);
        if first.errors.len() == 0 {
            lemma_quiet_program(tokens, pos + first.consumed);
        }
    }
}

} // verus!
