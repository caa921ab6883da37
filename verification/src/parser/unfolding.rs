//! One step of each recursive rule of the grammar.
//!
//! The rules call each other in a circle, and the prover does not look
//! into them by itself.  Each lemma here says what one rule is in terms
//! of the rules it calls, so that a proof can follow the parser one rule at
//! a time.

use vstd::prelude::*;
use crate::ast::expression::ExpressionView;
use crate::parser::diagnostic::ParseError;
use crate::parser::grammar::at_end;
use crate::parser::grammar::binary;
use crate::parser::grammar::call;
use crate::parser::grammar::check;
use crate::parser::grammar::comparison;
use crate::parser::grammar::comparison_rest;
use crate::parser::grammar::equality;
use crate::parser::grammar::equality_rest;
use crate::parser::grammar::expect;
use crate::parser::grammar::exponentiation;
use crate::parser::grammar::expression;
use crate::parser::grammar::fills;
use crate::parser::grammar::factor;
use crate::parser::grammar::group;
use crate::parser::grammar::identity_call;
use crate::parser::grammar::literal;
use crate::parser::grammar::matrix_rest;
use crate::parser::grammar::placeholder;
use crate::parser::grammar::powers;
use crate::parser::grammar::Program;
use crate::parser::grammar::report;
use crate::parser::grammar::skip;
use crate::parser::grammar::statement;
use crate::parser::grammar::statements_from;
use crate::parser::grammar::Step;
use crate::parser::grammar::synchronize;
use crate::parser::grammar::term;
use crate::parser::grammar::term_rest;
use crate::parser::grammar::transposes;
use crate::parser::grammar::unary;
use crate::parser::grammar::unary_node;
use crate::tokens::TokenType;
use crate::tokens::TokenView;
use crate::value::ValueView;

verus! {

/// What [`matrix_rest`] is, in terms of the rules it calls.
pub proof fn lemma_matrix_rest(
    tokens: Seq<TokenView>,
    pos: nat,
    entries: Seq<Seq<char>>,
    rows: nat,
    cols: nat,
    ragged: bool,
)
    ensures
        matrix_rest(tokens, pos, entries, rows, cols, ragged) == ({
            let width = if cols == 0 {
                entries.len()
            } else {
                cols
            };
            let full = fills(entries.len(), rows, width);
            let complaint = if full {
                Seq::empty()
            } else {
                report(tokens, pos, ParseError::InvalidMatrixDimensions)
            };
            if check(tokens, pos, TokenType::TOKEN_PIPE) {
                let rest = matrix_rest(tokens, pos + 1, entries, rows + 1, width, ragged || !full);
                Step {
                    value: rest.value,
                    consumed: 1 + rest.consumed,
                    errors: complaint + rest.errors,
                }
            } else if check(tokens, pos, TokenType::TOKEN_NUMBER) {
                let rest = matrix_rest(
                    tokens,
                    pos + 1,
                    entries.push(tokens[pos as int].lexeme),
                    rows,
                    cols,
                    ragged,
                );
                Step { value: rest.value, consumed: 1 + rest.consumed, errors: rest.errors }
            } else if check(tokens, pos, TokenType::TOKEN_RIGHT_BRACKET) {
                Step {
                    value: if ragged || !full {
                        placeholder()
                    } else {
                        ExpressionView::Literal(
                            ValueView::Matrix { data: entries, rows, cols: width },
                        )
                    },
                    consumed: 1,
                    errors: complaint,
                }
            } else if at_end(tokens, pos) {
                Step {
                    value: placeholder(),
                    consumed: 0,
                    errors: complaint + report(tokens, pos, ParseError::UnclosedMatrix),
                }
            } else {
                Step {
                    value: placeholder(),
                    consumed: 0,
                    errors: report(tokens, pos, ParseError::ExpectedNumber),
                }
            }
        }),
{
    reveal(matrix_rest);
}

/// What [`transposes`] is, in terms of the rules it calls.
pub proof fn lemma_transposes(tokens: Seq<TokenView>, pos: nat, operand: ExpressionView)
    ensures
        transposes(tokens, pos, operand) == ({
            if check(tokens, pos, TokenType::TOKEN_TRANSPOSE) {
                let rest = transposes(tokens, pos + 1, unary_node(tokens[pos as int], operand));
                Step { value: rest.value, consumed: 1 + rest.consumed, errors: rest.errors }
            } else {
                Step { value: operand, consumed: 0, errors: Seq::empty() }
            }
        }),
{
    reveal(transposes);
}

/// What [`expression`] is, in terms of the rules it calls.
pub proof fn lemma_expression(tokens: Seq<TokenView>, pos: nat)
    ensures
        expression(tokens, pos) == equality(tokens, pos),
{
    reveal(expression);
    reveal(equality);
}

/// What [`equality`] is, in terms of the rules it calls.
pub proof fn lemma_equality(tokens: Seq<TokenView>, pos: nat)
    ensures
        equality(tokens, pos) == ({
            let first = comparison(tokens, pos);
            let rest = equality_rest(tokens, pos + first.consumed, first.value);
            Step {
                value: rest.value,
                consumed: first.consumed + rest.consumed,
                errors: first.errors + rest.errors,
            }
        }),
{
    reveal(equality);
    reveal(equality_rest);
    reveal(comparison);
}

/// What [`equality_rest`] is, in terms of the rules it calls.
pub proof fn lemma_equality_rest(tokens: Seq<TokenView>, pos: nat, left: ExpressionView)
    ensures
        equality_rest(tokens, pos, left) == ({
            if check(tokens, pos, TokenType::TOKEN_BANG_EQUAL) || check(
                tokens,
                pos,
                TokenType::TOKEN_EQUAL_EQUAL,
            ) {
                let right = comparison(tokens, pos + 1);
                let rest = equality_rest(
                    tokens,
                    pos + 1 + right.consumed,
                    binary(left, tokens[pos as int], right.value),
                );
                Step {
                    value: rest.value,
                    consumed: 1 + right.consumed + rest.consumed,
                    errors: right.errors + rest.errors,
                }
            } else {
                Step { value: left, consumed: 0, errors: Seq::empty() }
            }
        }),
{
    reveal(equality_rest);
    reveal(comparison);
}

/// What [`comparison`] is, in terms of the rules it calls.
pub proof fn lemma_comparison(tokens: Seq<TokenView>, pos: nat)
    ensures
        comparison(tokens, pos) == ({
            let first = term(tokens, pos);
            let rest = comparison_rest(tokens, pos + first.consumed, first.value);
            Step {
                value: rest.value,
                consumed: first.consumed + rest.consumed,
                errors: first.errors + rest.errors,
            }
        }),
{
    reveal(comparison);
    reveal(comparison_rest);
    reveal(term);
}

/// What [`comparison_rest`] is, in terms of the rules it calls.
pub proof fn lemma_comparison_rest(tokens: Seq<TokenView>, pos: nat, left: ExpressionView)
    ensures
        comparison_rest(tokens, pos, left) == ({
            if check(tokens, pos, TokenType::TOKEN_GREATER) || check(
                tokens,
                pos,
                TokenType::TOKEN_GREATER_EQUAL,
            ) || check(tokens, pos, TokenType::TOKEN_LESS) || check(
                tokens,
                pos,
                TokenType::TOKEN_LESS_EQUAL,
            ) {
                let right = term(tokens, pos + 1);
                let rest = comparison_rest(
                    tokens,
                    pos + 1 + right.consumed,
                    binary(left, tokens[pos as int], right.value),
                );
                Step {
                    value: rest.value,
                    consumed: 1 + right.consumed + rest.consumed,
                    errors: right.errors + rest.errors,
                }
            } else {
                Step { value: left, consumed: 0, errors: Seq::empty() }
            }
        }),
{
    reveal(comparison_rest);
    reveal(term);
}

/// What [`term`] is, in terms of the rules it calls.
pub proof fn lemma_term(tokens: Seq<TokenView>, pos: nat)
    ensures
        term(tokens, pos) == ({
            let first = factor(tokens, pos);
            let rest = term_rest(tokens, pos + first.consumed, first.value);
            Step {
                value: rest.value,
                consumed: first.consumed + rest.consumed,
                errors: first.errors + rest.errors,
            }
        }),
{
    reveal(term);
    reveal(term_rest);
    reveal(factor);
}

/// What [`term_rest`] is, in terms of the rules it calls.
pub proof fn lemma_term_rest(tokens: Seq<TokenView>, pos: nat, left: ExpressionView)
    ensures
        term_rest(tokens, pos, left) == ({
            if check(tokens, pos, TokenType::TOKEN_PLUS) || check(tokens, pos, TokenType::TOKEN_MINUS) {
                let right = factor(tokens, pos + 1);
                let rest = term_rest(
                    tokens,
                    pos + 1 + right.consumed,
                    binary(left, tokens[pos as int], right.value),
                );
                Step {
                    value: rest.value,
                    consumed: 1 + right.consumed + rest.consumed,
                    errors: right.errors + rest.errors,
                }
            } else {
                Step { value: left, consumed: 0, errors: Seq::empty() }
            }
        }),
{
    reveal(term_rest);
    reveal(factor);
}

/// What [`factor`] is, in terms of the rules it calls.
pub proof fn lemma_factor(tokens: Seq<TokenView>, pos: nat)
    ensures
        factor(tokens, pos) == ({
            let left = exponentiation(tokens, pos);
            let at = pos + left.consumed;
            if check(tokens, at, TokenType::TOKEN_STAR) || check(tokens, at, TokenType::TOKEN_SLASH) {
                let right = factor(tokens, at + 1);
                Step {
                    value: binary(left.value, tokens[at as int], right.value),
                    consumed: left.consumed + 1 + right.consumed,
                    errors: left.errors + right.errors,
                }
            } else {
                left
            }
        }),
{
    reveal(factor);
    reveal(exponentiation);
}

/// What [`exponentiation`] is, in terms of the rules it calls.
pub proof fn lemma_exponentiation(tokens: Seq<TokenView>, pos: nat)
    ensures
        exponentiation(tokens, pos) == ({
            let base = unary(tokens, pos);
            let marks = transposes(tokens, pos + base.consumed, base.value);
            let rest = powers(tokens, pos + base.consumed + marks.consumed, marks.value);
            Step {
                value: rest.value,
                consumed: base.consumed + marks.consumed + rest.consumed,
                errors: base.errors + rest.errors,
            }
        }),
{
    reveal(exponentiation);
    reveal(powers);
    reveal(unary);
}

/// What [`powers`] is, in terms of the rules it calls.
pub proof fn lemma_powers(tokens: Seq<TokenView>, pos: nat, left: ExpressionView)
    ensures
        powers(tokens, pos, left) == ({
            if check(tokens, pos, TokenType::TOKEN_CARET) {
                let right = unary(tokens, pos + 1);
                let rest = powers(
                    tokens,
                    pos + 1 + right.consumed,
                    binary(left, tokens[pos as int], right.value),
                );
                Step {
                    value: rest.value,
                    consumed: 1 + right.consumed + rest.consumed,
                    errors: right.errors + rest.errors,
                }
            } else {
                Step { value: left, consumed: 0, errors: Seq::empty() }
            }
        }),
{
    reveal(powers);
    reveal(unary);
}

/// What [`unary`] is, in terms of the rules it calls.
pub proof fn lemma_unary(tokens: Seq<TokenView>, pos: nat)
    ensures
        unary(tokens, pos) == ({
            if check(tokens, pos, TokenType::TOKEN_MINUS) {
                let right = unary(tokens, pos + 1);
                Step {
                    value: unary_node(tokens[pos as int], right.value),
                    consumed: 1 + right.consumed,
                    errors: right.errors,
                }
            } else {
                literal(tokens, pos)
            }
        }),
{
    reveal(unary);
    reveal(literal);
}

/// What [`group`] is, in terms of the rules it calls.
pub proof fn lemma_group(tokens: Seq<TokenView>, pos: nat)
    ensures
        group(tokens, pos) == ({
            let inner = expression(tokens, pos);
            let close = expect(
                tokens,
                pos + inner.consumed,
                TokenType::TOKEN_RIGHT_PAREN,
                ParseError::UnclosedGroup,
            );
            Step {
                value: if close.value {
                    ExpressionView::Grouping(Box::new(inner.value))
                } else {
                    placeholder()
                },
                consumed: inner.consumed + close.consumed,
                errors: inner.errors + close.errors,
            }
        }),
{
    reveal(group);
    reveal(expression);
}

/// What [`call`] is, in terms of the rules it calls.
pub proof fn lemma_call(tokens: Seq<TokenView>, pos: nat, operator: TokenView)
    ensures
        call(tokens, pos, operator) == ({
            let open = expect(tokens, pos, TokenType::TOKEN_LEFT_PAREN, ParseError::CallWithoutParen);
            let inner = expression(tokens, pos + open.consumed);
            let close = expect(
                tokens,
                pos + open.consumed + inner.consumed,
                TokenType::TOKEN_RIGHT_PAREN,
                ParseError::UnclosedCall,
            );
            Step {
                value: unary_node(operator, inner.value),
                consumed: open.consumed + inner.consumed + close.consumed,
                errors: open.errors + inner.errors + close.errors,
            }
        }),
{
    reveal(call);
    reveal(expression);
}

/// What [`literal`] is, in terms of the rules it calls.
pub proof fn lemma_literal(tokens: Seq<TokenView>, pos: nat)
    ensures
        literal(tokens, pos) == ({
            if at_end(tokens, pos) {
                Step {
                    value: placeholder(),
                    consumed: 0,
                    errors: report(tokens, pos, ParseError::UnexpectedToken),
                }
            } else {
                let token = tokens[pos as int];
                let rest = match token.token_type {
                    TokenType::TOKEN_NUMBER => Step {
                        value: ExpressionView::Literal(ValueView::Scalar(token.lexeme)),
                        consumed: 0,
                        errors: Seq::empty(),
                    },
                    TokenType::TOKEN_LEFT_BRACKET => matrix_rest(
                        tokens,
                        pos + 1,
                        Seq::empty(),
                        1,
                        0,
                        false,
                    ),
                    TokenType::TOKEN_LEFT_PAREN => group(tokens, pos + 1),
                    TokenType::TOKEN_IDENTIFIER => Step {
                        value: ExpressionView::Identifier(token.lexeme),
                        consumed: 0,
                        errors: Seq::empty(),
                    },
                    TokenType::TOKEN_IDENTITY => identity_call(tokens, pos + 1),
                    TokenType::TOKEN_REF | TokenType::TOKEN_RREF | TokenType::TOKEN_INVERSE => call(
                        tokens,
                        pos + 1,
                        token,
                    ),
                    _ => Step {
                        value: placeholder(),
                        consumed: 0,
                        errors: report(tokens, pos + 1, ParseError::UnexpectedToken),
                    },
                };
                Step { value: rest.value, consumed: 1 + rest.consumed, errors: rest.errors }
            }
        }),
{
    reveal(literal);
    reveal(group);
    reveal(call);
}

/// What [`skip`] is, in terms of the rules it calls.
pub proof fn lemma_skip(tokens: Seq<TokenView>, pos: nat)
    ensures
        skip(tokens, pos) == ({
            if at_end(tokens, pos) {
                (pos, true)
            } else if pos >= 1 && tokens[pos - 1].token_type == TokenType::TOKEN_SEMICOLON {
                (pos, false)
            } else if tokens[pos as int].token_type == TokenType::TOKEN_PRINT {
                (pos, false)
            } else {
                skip(tokens, pos + 1)
            }
        }),
{
    reveal(skip);
}

/// What [`statements_from`] is, in terms of the rules it calls.
pub proof fn lemma_statements_from(tokens: Seq<TokenView>, pos: nat, panic: bool)
    ensures
        statements_from(tokens, pos, panic) == ({
            if at_end(tokens, pos) {
                Program { statements: Seq::empty(), end: pos, panic, errors: Seq::empty() }
            } else {
                let first = statement(tokens, pos);
                let after = pos + first.consumed;
                let failed = panic || first.errors.len() > 0;
                let resume = if failed {
                    synchronize(tokens, after)
                } else {
                    (after, false)
                };
                let rest = statements_from(tokens, resume.0, resume.1);
                Program {
                    statements: seq![first.value] + rest.statements,
                    end: rest.end,
                    panic: rest.panic,
                    errors: first.errors + rest.errors,
                }
            }
        }),
{
    reveal(statements_from);
}

} // verus!
