//! Every matrix literal that the grammar builds is well formed: it has as
//! many entries as its shape says, and no empty side.  So is every
//! expression and every statement of a program.  And where every number
//! token holds a number as it is written, so does every literal.

use vstd::prelude::*;
use crate::ast::expression::ExpressionView;
use crate::ast::expression::numeric;
use crate::ast::expression::well_formed;
use crate::parser::grammar::at_end;
use crate::parser::grammar::binary;
use crate::parser::grammar::call;
use crate::parser::grammar::check;
use crate::parser::grammar::comparison;
use crate::parser::grammar::comparison_rest;
use crate::parser::grammar::equality;
use crate::parser::grammar::equality_rest;
use crate::parser::grammar::expect;
use crate::parser::grammar::exponentiation;
use crate::parser::grammar::expression;
use crate::parser::grammar::factor;
use crate::parser::grammar::group;
use crate::parser::grammar::identity_call;
use crate::parser::grammar::lemma_skip_forward;
use crate::parser::grammar::lemma_statement_progress;
use crate::parser::grammar::literal;
use crate::parser::grammar::matrix_rest;
use crate::parser::grammar::placeholder;
use crate::parser::grammar::powers;
use crate::parser::grammar::remaining;
use crate::parser::grammar::statement;
use crate::parser::grammar::statements_from;
use crate::parser::grammar::synchronize;
use crate::parser::grammar::term;
use crate::parser::grammar::term_rest;
use crate::parser::grammar::transposes;
use crate::parser::grammar::unary;
use crate::parser::grammar::unary_node;
use crate::parser::diagnostic::ParseError;
use crate::parser::numeral::is_number;
use crate::parser::numeral::numerals;
use crate::parser::unfolding;
use crate::tokens::TokenType;
use crate::tokens::TokenView;
use crate::value::ValueView;

verus! {

/// The expression is well formed, and where every number token holds a
/// number as it is written, so does every literal of the expression.
pub open spec fn sound(tokens: Seq<TokenView>, expression: ExpressionView) -> bool {
    well_formed(expression) && (numerals(tokens) ==> numeric(expression))
}

/// The texts `0` and `1` are numbers as they are written.
pub proof fn lemma_zero_and_one()
    ensures
        is_number("0"@),
        is_number("1"@),
{
    reveal_strlit("0");
    reveal_strlit("1");
    crate::lexer::lemma_digit_run_is("0"@, 0, 1);
    crate::lexer::lemma_digit_run_is("1"@, 0, 1);
}

/// What the rest of a matrix literal gives is the placeholder, or a matrix
/// of at least one row and one column with an entry for every place.
pub proof fn lemma_matrix_literal(
    tokens: Seq<TokenView>,
    pos: nat,
    entries: Seq<Seq<char>>,
    rows: nat,
    cols: nat,
    ragged: bool,
)
    requires
        rows >= 1,
        numerals(tokens) ==> forall|k: int|
            0 <= k < entries.len() ==> is_number(#[trigger] entries[k]),
    ensures
        match matrix_rest(tokens, pos, entries, rows, cols, ragged).value {
            ExpressionView::Literal(ValueView::Matrix { data, rows, cols }) => rows >= 1 && cols
                >= 1 && data.len() == rows * cols,
            other => other == placeholder(),
        },
        sound(tokens, matrix_rest(tokens, pos, entries, rows, cols, ragged).value),
    decreases remaining(tokens, pos),
{
    unfolding::lemma_matrix_rest(tokens, pos, entries, rows, cols, ragged);
    lemma_zero_and_one();
    let width = if cols == 0 {
        entries.len()
    } else {
        cols
    };
    if check(tokens, pos, TokenType::TOKEN_PIPE) {
        lemma_matrix_literal(
            tokens,
            pos + 1,
            entries,
            rows + 1,
            width,
            ragged || !crate::parser::grammar::fills(entries.len(), rows, width),
        );
    } else if check(tokens, pos, TokenType::TOKEN_NUMBER) {
        lemma_matrix_literal(
            tokens,
            pos + 1,
            entries.push(tokens[pos as int].lexeme),
            rows,
            cols,
            ragged,
        );
    }
}

/// Transposition marks around a well-formed operand give a well-formed
/// expression.
pub proof fn lemma_transposes(tokens: Seq<TokenView>, pos: nat, operand: ExpressionView)
    requires
        sound(tokens, operand),
    ensures
        sound(tokens, transposes(tokens, pos, operand).value),
    decreases remaining(tokens, pos),
{
    unfolding::lemma_transposes(tokens, pos, operand);
    if check(tokens, pos, TokenType::TOKEN_TRANSPOSE) {
        lemma_transposes(tokens, pos + 1, unary_node(tokens[pos as int], operand));
    }
}

/// Every expression that the grammar builds is well formed.
pub proof fn lemma_expression(tokens: Seq<TokenView>, pos: nat)
    ensures
        sound(tokens, expression(tokens, pos).value),
    decreases remaining(tokens, pos), 16nat,
{
    unfolding::lemma_expression(tokens, pos);
    lemma_equality(tokens, pos);
}

/// Every equality that the grammar builds is well formed.
pub proof fn lemma_equality(tokens: Seq<TokenView>, pos: nat)
    ensures
        sound(tokens, equality(tokens, pos).value),
    decreases remaining(tokens, pos), 15nat,
{
    unfolding::lemma_equality(tokens, pos);
    let first = comparison(tokens, pos);
    lemma_comparison(tokens, pos);
    lemma_equality_rest(tokens, pos + first.consumed, first.value);
}

proof fn lemma_equality_rest(tokens: Seq<TokenView>, pos: nat, left: ExpressionView)
    requires
        sound(tokens, left),
    ensures
        sound(tokens, equality_rest(tokens, pos, left).value),
    decreases remaining(tokens, pos), 14nat,
{
    unfolding::lemma_equality_rest(tokens, pos, left);
    if check(tokens, pos, TokenType::TOKEN_BANG_EQUAL) || check(
        tokens,
        pos,
        TokenType::TOKEN_EQUAL_EQUAL,
    ) {
        let right = comparison(tokens, pos + 1);
        lemma_comparison(tokens, pos + 1);
        lemma_equality_rest(
            tokens,
            pos + 1 + right.consumed,
            binary(left, tokens[pos as int], right.value),
        );
    }
}

/// Every comparison that the grammar builds is well formed.
pub proof fn lemma_comparison(tokens: Seq<TokenView>, pos: nat)
    ensures
        sound(tokens, comparison(tokens, pos).value),
    decreases remaining(tokens, pos), 13nat,
{
    unfolding::lemma_comparison(tokens, pos);
    let first = term(tokens, pos);
    lemma_term(tokens, pos);
    lemma_comparison_rest(tokens, pos + first.consumed, first.value);
}

proof fn lemma_comparison_rest(tokens: Seq<TokenView>, pos: nat, left: ExpressionView)
    requires
        sound(tokens, left),
    ensures
        sound(tokens, comparison_rest(tokens, pos, left).value),
    decreases remaining(tokens, pos), 12nat,
{
    unfolding::lemma_comparison_rest(tokens, pos, left);
    if check(tokens, pos, TokenType::TOKEN_GREATER) || check(
        tokens,
        pos,
        TokenType::TOKEN_GREATER_EQUAL,
    ) || check(tokens, pos, TokenType::TOKEN_LESS) || check(
        tokens,
        pos,
        TokenType::TOKEN_LESS_EQUAL,
    ) {
        let right = term(tokens, pos + 1);
        lemma_term(tokens, pos + 1);
        lemma_comparison_rest(
            tokens,
            pos + 1 + right.consumed,
            binary(left, tokens[pos as int], right.value),
        );
    }
}

/// Every term that the grammar builds is well formed.
pub proof fn lemma_term(tokens: Seq<TokenView>, pos: nat)
    ensures
        sound(tokens, term(tokens, pos).value),
    decreases remaining(tokens, pos), 11nat,
{
    unfolding::lemma_term(tokens, pos);
    let first = factor(tokens, pos);
    lemma_factor(tokens, pos);
    lemma_term_rest(tokens, pos + first.consumed, first.value);
}

proof fn lemma_term_rest(tokens: Seq<TokenView>, pos: nat, left: ExpressionView)
    requires
        sound(tokens, left),
    ensures
        sound(tokens, term_rest(tokens, pos, left).value),
    decreases remaining(tokens, pos), 10nat,
{
    unfolding::lemma_term_rest(tokens, pos, left);
    if check(tokens, pos, TokenType::TOKEN_PLUS) || check(tokens, pos, TokenType::TOKEN_MINUS) {
        let right = factor(tokens, pos + 1);
        lemma_factor(tokens, pos + 1);
        lemma_term_rest(
            tokens,
            pos + 1 + right.consumed,
            binary(left, tokens[pos as int], right.value),
        );
    }
}

/// Every factor that the grammar builds is well formed.
pub proof fn lemma_factor(tokens: Seq<TokenView>, pos: nat)
    ensures
        sound(tokens, factor(tokens, pos).value),
    decreases remaining(tokens, pos), 9nat,
{
    unfolding::lemma_factor(tokens, pos);
    let left = exponentiation(tokens, pos);
    lemma_exponentiation(tokens, pos);
    let at = pos + left.consumed;
    if check(tokens, at, TokenType::TOKEN_STAR) || check(tokens, at, TokenType::TOKEN_SLASH) {
        lemma_factor(tokens, at + 1);
    }
}

/// Every power that the grammar builds is well formed.
pub proof fn lemma_exponentiation(tokens: Seq<TokenView>, pos: nat)
    ensures
        sound(tokens, exponentiation(tokens, pos).value),
    decreases remaining(tokens, pos), 8nat,
{
    unfolding::lemma_exponentiation(tokens, pos);
    let base = unary(tokens, pos);
    lemma_unary(tokens, pos);
    let marks = transposes(tokens, pos + base.consumed, base.value);
    lemma_transposes(tokens, pos + base.consumed, base.value);
    lemma_powers(tokens, pos + base.consumed + marks.consumed, marks.value);
}

proof fn lemma_powers(tokens: Seq<TokenView>, pos: nat, left: ExpressionView)
    requires
        sound(tokens, left),
    ensures
        sound(tokens, powers(tokens, pos, left).value),
    decreases remaining(tokens, pos), 7nat,
{
    unfolding::lemma_powers(tokens, pos, left);
    if check(tokens, pos, TokenType::TOKEN_CARET) {
        let right = unary(tokens, pos + 1);
        lemma_unary(tokens, pos + 1);
        lemma_powers(
            tokens,
            pos + 1 + right.consumed,
            binary(left, tokens[pos as int], right.value),
        );
    }
}

/// Every negation and every literal that the grammar builds is well
/// formed.
pub proof fn lemma_unary(tokens: Seq<TokenView>, pos: nat)
    ensures
        sound(tokens, unary(tokens, pos).value),
    decreases remaining(tokens, pos), 6nat,
{
    unfolding::lemma_unary(tokens, pos);
    if check(tokens, pos, TokenType::TOKEN_MINUS) {
        lemma_unary(tokens, pos + 1);
    } else {
        lemma_literal(tokens, pos);
    }
}

proof fn lemma_group(tokens: Seq<TokenView>, pos: nat)
    ensures
        sound(tokens, group(tokens, pos).value),
    decreases remaining(tokens, pos), 17nat,
{
    unfolding::lemma_group(tokens, pos);
    lemma_zero_and_one();
    lemma_expression(tokens, pos);
}

proof fn lemma_call(tokens: Seq<TokenView>, pos: nat, operator: TokenView)
    ensures
        sound(tokens, call(tokens, pos, operator).value),
    decreases remaining(tokens, pos), 17nat,
{
    unfolding::lemma_call(tokens, pos, operator);
    let open = expect(tokens, pos, TokenType::TOKEN_LEFT_PAREN, ParseError::CallWithoutParen);
    lemma_expression(tokens, pos + open.consumed);
}

/// Every literal that the grammar builds is well formed: a matrix literal
/// fills its shape, and so does the identity matrix that `identity` folds
/// to.
pub proof fn lemma_literal(tokens: Seq<TokenView>, pos: nat)
    ensures
        sound(tokens, literal(tokens, pos).value),
    decreases remaining(tokens, pos), 5nat,
{
    unfolding::lemma_literal(tokens, pos);
    lemma_zero_and_one();
    if !at_end(tokens, pos) {
        let token = tokens[pos as int];
        match token.token_type {
            TokenType::TOKEN_LEFT_BRACKET => {
                lemma_matrix_literal(tokens, pos + 1, Seq::empty(), 1, 0, false);
            },
            TokenType::TOKEN_LEFT_PAREN => {
                lemma_group(tokens, pos + 1);
            },
            TokenType::TOKEN_IDENTITY => {
                assert(sound(tokens, identity_call(tokens, pos + 1).value));
            },
            TokenType::TOKEN_REF | TokenType::TOKEN_RREF | TokenType::TOKEN_INVERSE => {
                lemma_call(tokens, pos + 1, token);
            },
            _ => {},
        }
    }
}

/// Every statement that the grammar builds is well formed, and holds
/// numbers where the number tokens do.
pub proof fn lemma_statement(tokens: Seq<TokenView>, pos: nat)
    ensures
        statement(tokens, pos).value.well_formed(),
        numerals(tokens) ==> statement(tokens, pos).value.numeric(),
{
    lemma_zero_and_one();
    // The expression of an expression statement, of a `print`, and of a
    // `let` without and with a name.
    lemma_expression(tokens, pos);
    lemma_expression(tokens, pos + 1);
    lemma_expression(tokens, pos + 2);
    lemma_expression(tokens, pos + 3);
}

/// Every statement of a program is well formed, and holds numbers where
/// the number tokens do.
pub proof fn lemma_program(tokens: Seq<TokenView>, pos: nat, panic: bool)
    ensures
        forall|i: int|
            0 <= i < statements_from(tokens, pos, panic).statements.len() ==> (
            #[trigger] statements_from(tokens, pos, panic).statements[i]).well_formed(),
        numerals(tokens) ==> forall|i: int|
            0 <= i < statements_from(tokens, pos, panic).statements.len() ==> (
            #[trigger] statements_from(tokens, pos, panic).statements[i]).numeric(),
    decreases remaining(tokens, pos),
{
    unfolding::lemma_statements_from(tokens, pos, panic);
    if !at_end(tokens, pos) {
        let first = statement(tokens, pos);
        let after = pos + first.consumed;
        let failed = panic || first.errors.len() > 0;
        let resume = if failed {
            synchronize(tokens, after)
        } else {
            (after, false)
        };
        lemma_statement(tokens, pos);
        lemma_statement_progress(tokens, pos);
        lemma_skip_forward(tokens, after);
        lemma_program(tokens, resume.0, resume.1);
    }
}

} // verus!
