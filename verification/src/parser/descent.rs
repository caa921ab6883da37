//! The descent itself: one method for each rule of the grammar.

use vstd::prelude::*;
use vstd::string::*;
use crate::ast::expression::Binary;
use crate::ast::expression::Expression;
use crate::ast::expression::Grouping;
use crate::ast::expression::Identifier;
use crate::ast::expression::Literal;
use crate::ast::expression::Unary;
use crate::parser::grammar;
use crate::parser::Parser;
use crate::parser::placeholder;
use crate::parser::unfolding;
use crate::parser::diagnostic::DiagnosticView;
use crate::parser::diagnostic::ParseError;
use crate::parser::numeral::read_identity_size;
use crate::parser::numeral::SizeReading;
use crate::tokens::Token;
use crate::tokens::TokenType;
use crate::value::entry_views;
use crate::value::identity_entries;
use crate::value::Matrix;
use crate::value::Value;

verus! {

impl Parser {
    /// A literal: a number, a matrix, a parenthesised expression, a
    /// variable, or one of the call forms.
    pub(crate) fn literal(&mut self) -> (expr: Expression)
        requires
            old(self).well_formed(),
        ensures
            final(self).stepped(
                old(self),
                grammar::literal(old(self).tokens(), old(self).position()),
            ),
            grammar::literal(old(self).tokens(), old(self).position()).gives(expr@),
        decreases old(self).tokens().len() - old(self).position(), 5nat,
    {
        proof {
            unfolding::lemma_literal(self.tokens(), self.position());
        }
        if self.is_at_end() {
            self.parse_error(ParseError::UnexpectedToken);
            return placeholder();
        }
        self.advance();
        let kind = self.previous().token_type;
        match kind {
            TokenType::TOKEN_NUMBER => {
                let text = self.previous().lexeme.clone();
                proof {
                    self.lemma_reporting_nothing(old(self));
                }
                Expression::Literal(Literal::new(Value::new_scalar(text)))
            },
            TokenType::TOKEN_LEFT_BRACKET => self.matrix(),
            TokenType::TOKEN_LEFT_PAREN => self.group(),
            TokenType::TOKEN_IDENTIFIER => {
                let name = self.previous().lexeme.clone();
                proof {
                    self.lemma_reporting_nothing(old(self));
                }
                Expression::Identifier(Identifier::new(name))
            },
            TokenType::TOKEN_IDENTITY => self.identity_call(),
            TokenType::TOKEN_REF | TokenType::TOKEN_RREF | TokenType::TOKEN_INVERSE => {
                let operator = self.previous().clone();
                self.call(operator)
            },
            _ => {
                self.parse_error(ParseError::UnexpectedToken);
                placeholder()
            },
        }
    }

    /// A parenthesised expression, after its `(`.
    pub(crate) fn group(&mut self) -> (expr: Expression)
        requires
            old(self).well_formed(),
        ensures
            final(self).stepped(old(self), grammar::group(old(self).tokens(), old(self).position())),
            grammar::group(old(self).tokens(), old(self).position()).gives(expr@),
        decreases old(self).tokens().len() - old(self).position(), 17nat,
    {
        proof {
            unfolding::lemma_group(self.tokens(), self.position());
        }
        let ghost start = *self;
        let inner = self.expression();
        let ghost middle = *self;
        let found = self.consume(TokenType::TOKEN_RIGHT_PAREN, ParseError::UnclosedGroup);
        proof {
            self.lemma_reporting_twice(
                &start,
                &middle,
                grammar::expression(start.tokens(), start.position()).errors,
                grammar::expect(
                    middle.tokens(),
                    middle.position(),
                    TokenType::TOKEN_RIGHT_PAREN,
                    ParseError::UnclosedGroup,
                ).errors,
            );
        }
        if found {
            Expression::Grouping(Grouping::new(Box::new(inner)))
        } else {
            placeholder()
        }
    }

    /// The operand of `ref`, `rref` or `inverse`, after the keyword.
    pub(crate) fn call(&mut self, operator: Token) -> (expr: Expression)
        requires
            old(self).well_formed(),
        ensures
            final(self).stepped(
                old(self),
                grammar::call(old(self).tokens(), old(self).position(), operator@),
            ),
            grammar::call(old(self).tokens(), old(self).position(), operator@).gives(expr@),
        decreases old(self).tokens().len() - old(self).position(), 17nat,
    {
        proof {
            unfolding::lemma_call(self.tokens(), self.position(), operator@);
        }
        let ghost start = *self;
        self.consume(TokenType::TOKEN_LEFT_PAREN, ParseError::CallWithoutParen);
        let ghost opened = *self;
        let inner = self.expression();
        let ghost middle = *self;
        self.consume(TokenType::TOKEN_RIGHT_PAREN, ParseError::UnclosedCall);
        proof {
            let open = grammar::expect(
                start.tokens(),
                start.position(),
                TokenType::TOKEN_LEFT_PAREN,
                ParseError::CallWithoutParen,
            );
            let body = grammar::expression(opened.tokens(), opened.position());
            let close = grammar::expect(
                middle.tokens(),
                middle.position(),
                TokenType::TOKEN_RIGHT_PAREN,
                ParseError::UnclosedCall,
            );
            middle.lemma_reporting_twice(&start, &opened, open.errors, body.errors);
            self.lemma_reporting_twice(&start, &middle, open.errors + body.errors, close.errors);
        }
        Expression::Unary(Unary::new(operator, Box::new(inner)))
    }

    /// A negation, or a literal.
    pub(crate) fn unary(&mut self) -> (expr: Expression)
        requires
            old(self).well_formed(),
        ensures
            final(self).stepped(old(self), grammar::unary(old(self).tokens(), old(self).position())),
            grammar::unary(old(self).tokens(), old(self).position()).gives(expr@),
        decreases old(self).tokens().len() - old(self).position(), 6nat,
    {
        proof {
            unfolding::lemma_unary(self.tokens(), self.position());
        }
        if self.match_token(TokenType::TOKEN_MINUS) {
            let operator = self.previous().clone();
            let right = self.unary();
            return Expression::Unary(Unary::new(operator, Box::new(right)));
        }
        self.literal()
    }

    /// Transpositions, then powers.
    pub(crate) fn exponentiation(&mut self) -> (expr: Expression)
        requires
            old(self).well_formed(),
        ensures
            final(self).stepped(
                old(self),
                grammar::exponentiation(old(self).tokens(), old(self).position()),
            ),
            grammar::exponentiation(old(self).tokens(), old(self).position()).gives(expr@),
        decreases old(self).tokens().len() - old(self).position(), 8nat,
    {
        proof {
            unfolding::lemma_exponentiation(self.tokens(), self.position());
        }
        let ghost before = *self;
        let ghost whole = grammar::exponentiation(before.tokens(), before.position());
        let mut expr = self.unary();
        let ghost base = *self;
        let ghost marks = grammar::transposes(base.tokens(), base.position(), expr@);
        while self.check(TokenType::TOKEN_TRANSPOSE)
            invariant
                self.well_formed(),
                self.tokens() == base.tokens(),
                self.position() >= base.position(),
                self.reported() == base.reported(),
                self.in_panic() == base.in_panic(),
                grammar::transposes(self.tokens(), self.position(), expr@).gives(marks.value),
                base.position() + marks.consumed == self.position() + grammar::transposes(
                    self.tokens(),
                    self.position(),
                    expr@,
                ).consumed,
            decreases self.tokens().len() - self.position(),
        {
            proof {
                unfolding::lemma_transposes(self.tokens(), self.position(), expr@);
            }
            self.advance();
            let operator = self.previous().clone();
            expr = Expression::Unary(Unary::new(operator, Box::new(expr)));
        }
        proof {
            unfolding::lemma_transposes(self.tokens(), self.position(), expr@);
        }
        let ghost mut done = grammar::unary(before.tokens(), before.position()).errors;
        while self.check(TokenType::TOKEN_CARET)
            invariant
                before == *old(self),
                self.well_formed(),
                self.tokens() == before.tokens(),
                self.position() >= before.position(),
                self.reporting(&before, done),
                grammar::powers(self.tokens(), self.position(), expr@).gives(whole.value),
                before.position() + whole.consumed == self.position() + grammar::powers(
                    self.tokens(),
                    self.position(),
                    expr@,
                ).consumed,
                whole.errors =~= done + grammar::powers(
                    self.tokens(),
                    self.position(),
                    expr@,
                ).errors,
            decreases self.tokens().len() - self.position(),
        {
            proof {
                unfolding::lemma_powers(self.tokens(), self.position(), expr@);
            }
            self.advance();
            let operator = self.previous().clone();
            let ghost middle = *self;
            let right = self.unary();
            proof {
                let step = grammar::unary(middle.tokens(), middle.position());
                self.lemma_reporting_twice(&before, &middle, done, step.errors);
                done = done + step.errors;
            }
            expr = Expression::Binary(Binary::new(Box::new(expr), operator, Box::new(right)));
        }
        proof {
            unfolding::lemma_powers(self.tokens(), self.position(), expr@);
            assert(whole.errors =~= done);
        }
        expr
    }

    /// A product or quotient.  The right operand of `*` or `/` is the
    /// whole factor that follows: these operators group to the right.
    pub(crate) fn factor(&mut self) -> (expr: Expression)
        requires
            old(self).well_formed(),
        ensures
            final(self).stepped(
                old(self),
                grammar::factor(old(self).tokens(), old(self).position()),
            ),
            grammar::factor(old(self).tokens(), old(self).position()).gives(expr@),
        decreases old(self).tokens().len() - old(self).position(), 9nat,
    {
        proof {
            unfolding::lemma_factor(self.tokens(), self.position());
        }
        let ghost start = *self;
        let left = self.exponentiation();
        if self.check(TokenType::TOKEN_STAR) || self.check(TokenType::TOKEN_SLASH) {
            self.advance();
            let operator = self.previous().clone();
            let ghost middle = *self;
            let right = self.factor();
            proof {
                self.lemma_reporting_twice(
                    &start,
                    &middle,
                    grammar::exponentiation(start.tokens(), start.position()).errors,
                    grammar::factor(middle.tokens(), middle.position()).errors,
                );
            }
            return Expression::Binary(Binary::new(Box::new(left), operator, Box::new(right)));
        }
        left
    }

    /// A sum or difference, grouped to the left.
    pub(crate) fn term(&mut self) -> (expr: Expression)
        requires
            old(self).well_formed(),
        ensures
            final(self).stepped(
                old(self),
                grammar::term(old(self).tokens(), old(self).position()),
            ),
            grammar::term(old(self).tokens(), old(self).position()).gives(expr@),
        decreases old(self).tokens().len() - old(self).position(), 11nat,
    {
        proof {
            unfolding::lemma_term(self.tokens(), self.position());
        }
        let ghost before = *self;
        let ghost whole = grammar::term(before.tokens(), before.position());
        let mut expr = self.factor();
        let ghost mut done = grammar::factor(before.tokens(), before.position()).errors;
        while self.check(TokenType::TOKEN_PLUS) || self.check(TokenType::TOKEN_MINUS)
            invariant
                before == *old(self),
                self.well_formed(),
                self.tokens() == before.tokens(),
                self.position() >= before.position(),
                self.reporting(&before, done),
                grammar::term_rest(self.tokens(), self.position(), expr@).gives(whole.value),
                before.position() + whole.consumed == self.position() + grammar::term_rest(
                    self.tokens(),
                    self.position(),
                    expr@,
                ).consumed,
                whole.errors =~= done + grammar::term_rest(
                    self.tokens(),
                    self.position(),
                    expr@,
                ).errors,
            decreases self.tokens().len() - self.position(),
        {
            proof {
                unfolding::lemma_term_rest(self.tokens(), self.position(), expr@);
            }
            self.advance();
            let operator = self.previous().clone();
            let ghost middle = *self;
            let right = self.factor();
            proof {
                let step = grammar::factor(middle.tokens(), middle.position());
                self.lemma_reporting_twice(&before, &middle, done, step.errors);
                done = done + step.errors;
            }
            expr = Expression::Binary(Binary::new(Box::new(expr), operator, Box::new(right)));
        }
        proof {
            unfolding::lemma_term_rest(self.tokens(), self.position(), expr@);
            assert(whole.errors =~= done);
        }
        expr
    }

    /// A comparison, grouped to the left.
    pub(crate) fn comparison(&mut self) -> (expr: Expression)
        requires
            old(self).well_formed(),
        ensures
            final(self).stepped(
                old(self),
                grammar::comparison(old(self).tokens(), old(self).position()),
            ),
            grammar::comparison(old(self).tokens(), old(self).position()).gives(expr@),
        decreases old(self).tokens().len() - old(self).position(), 13nat,
    {
        proof {
            unfolding::lemma_comparison(self.tokens(), self.position());
        }
        let ghost before = *self;
        let ghost whole = grammar::comparison(before.tokens(), before.position());
        let mut expr = self.term();
        let ghost mut done = grammar::term(before.tokens(), before.position()).errors;
        while self.check(TokenType::TOKEN_GREATER) || self.check(TokenType::TOKEN_GREATER_EQUAL)
            || self.check(TokenType::TOKEN_LESS) || self.check(TokenType::TOKEN_LESS_EQUAL)
            invariant
                before == *old(self),
                self.well_formed(),
                self.tokens() == before.tokens(),
                self.position() >= before.position(),
                self.reporting(&before, done),
                grammar::comparison_rest(self.tokens(), self.position(), expr@).gives(whole.value),
                before.position() + whole.consumed == self.position() + grammar::comparison_rest(
                    self.tokens(),
                    self.position(),
                    expr@,
                ).consumed,
                whole.errors =~= done + grammar::comparison_rest(
                    self.tokens(),
                    self.position(),
                    expr@,
                ).errors,
            decreases self.tokens().len() - self.position(),
        {
            proof {
                unfolding::lemma_comparison_rest(self.tokens(), self.position(), expr@);
            }
            self.advance();
            let operator = self.previous().clone();
            let ghost middle = *self;
            let right = self.term();
            proof {
                let step = grammar::term(middle.tokens(), middle.position());
                self.lemma_reporting_twice(&before, &middle, done, step.errors);
                done = done + step.errors;
            }
            expr = Expression::Binary(Binary::new(Box::new(expr), operator, Box::new(right)));
        }
        proof {
            unfolding::lemma_comparison_rest(self.tokens(), self.position(), expr@);
            assert(whole.errors =~= done);
        }
        expr
    }

    /// An equality test, grouped to the left.
    pub(crate) fn equality(&mut self) -> (expr: Expression)
        requires
            old(self).well_formed(),
        ensures
            final(self).stepped(
                old(self),
                grammar::equality(old(self).tokens(), old(self).position()),
            ),
            grammar::equality(old(self).tokens(), old(self).position()).gives(expr@),
        decreases old(self).tokens().len() - old(self).position(), 15nat,
    {
        proof {
            unfolding::lemma_equality(self.tokens(), self.position());
        }
        let ghost before = *self;
        let ghost whole = grammar::equality(before.tokens(), before.position());
        let mut expr = self.comparison();
        let ghost mut done = grammar::comparison(before.tokens(), before.position()).errors;
        while self.check(TokenType::TOKEN_BANG_EQUAL) || self.check(TokenType::TOKEN_EQUAL_EQUAL)
            invariant
                before == *old(self),
                self.well_formed(),
                self.tokens() == before.tokens(),
                self.position() >= before.position(),
                self.reporting(&before, done),
                grammar::equality_rest(self.tokens(), self.position(), expr@).gives(whole.value),
                before.position() + whole.consumed == self.position() + grammar::equality_rest(
                    self.tokens(),
                    self.position(),
                    expr@,
                ).consumed,
                whole.errors =~= done + grammar::equality_rest(
                    self.tokens(),
                    self.position(),
                    expr@,
                ).errors,
            decreases self.tokens().len() - self.position(),
        {
            proof {
                unfolding::lemma_equality_rest(self.tokens(), self.position(), expr@);
            }
            self.advance();
            let operator = self.previous().clone();
            let ghost middle = *self;
            let right = self.comparison();
            proof {
                let step = grammar::comparison(middle.tokens(), middle.position());
                self.lemma_reporting_twice(&before, &middle, done, step.errors);
                done = done + step.errors;
            }
            expr = Expression::Binary(Binary::new(Box::new(expr), operator, Box::new(right)));
        }
        proof {
            unfolding::lemma_equality_rest(self.tokens(), self.position(), expr@);
            assert(whole.errors =~= done);
        }
        expr
    }

    /// An expression.
    pub(crate) fn expression(&mut self) -> (expr: Expression)
        requires
            old(self).well_formed(),
        ensures
            final(self).stepped(
                old(self),
                grammar::expression(old(self).tokens(), old(self).position()),
            ),
            grammar::expression(old(self).tokens(), old(self).position()).gives(expr@),
        decreases old(self).tokens().len() - old(self).position(), 16nat,
    {
        proof {
            unfolding::lemma_expression(self.tokens(), self.position());
        }
        self.equality()
    }

    /// Closes a row: gives the width of a row (the number of entries, if
    /// no row has been closed yet) and whether `count` entries fill `rows`
    /// rows of that width, and reports invalid dimensions if they do not.
    fn close_row(&mut self, count: usize, rows: usize, cols: usize) -> (closed: (usize, bool))
        requires
            old(self).well_formed(),
        ensures
            final(self).well_formed(),
            final(self).tokens() == old(self).tokens(),
            final(self).position() == old(self).position(),
            closed.0 == if cols == 0 {
                count
            } else {
                cols
            },
            closed.1 == grammar::fills(count as nat, rows as nat, closed.0 as nat),
            final(self).reporting(
                old(self),
                if closed.1 {
                    Seq::empty()
                } else {
                    grammar::report(
                        old(self).tokens(),
                        old(self).position(),
                        ParseError::InvalidMatrixDimensions,
                    )
                },
            ),
    {
        let width = if cols == 0 {
            count
        } else {
            cols
        };
        let full = width >= 1 && match rows.checked_mul(width) {
            Some(product) => product == count,
            None => false,
        };
        if full {
            proof {
                self.lemma_reporting_nothing(old(self));
            }
        } else {
            self.parse_error(ParseError::InvalidMatrixDimensions);
        }
        (width, full)
    }

    /// The rest of a matrix literal, after its `[`.
    pub(crate) fn matrix(&mut self) -> (expr: Expression)
        requires
            old(self).well_formed(),
            old(self).position() >= 1,
        ensures
            final(self).stepped(
                old(self),
                grammar::matrix_rest(
                    old(self).tokens(),
                    old(self).position(),
                    Seq::empty(),
                    1,
                    0,
                    false,
                ),
            ),
            grammar::matrix_rest(
                old(self).tokens(),
                old(self).position(),
                Seq::empty(),
                1,
                0,
                false,
            ).gives(expr@),
    {
        let ghost before = *self;
        let ghost whole = grammar::matrix_rest(
            before.tokens(),
            before.position(),
            Seq::empty(),
            1,
            0,
            false,
        );
        let mut entries: Vec<String> = Vec::new();
        let mut rows: usize = 1;
        let mut cols: usize = 0;
        let mut ragged = false;
        let ghost mut done = Seq::<DiagnosticView>::empty();
        proof {
            self.lemma_reporting_nothing(&before);
            assert(entry_views(entries@) =~= Seq::<Seq<char>>::empty());
            assert(whole.errors =~= done + whole.errors);
        }
        while self.check(TokenType::TOKEN_PIPE) || self.check(TokenType::TOKEN_NUMBER)
            invariant
                self.well_formed(),
                self.tokens() == before.tokens(),
                self.position() >= before.position(),
                before.position() >= 1,
                rows <= self.position() - before.position() + 1,
                self.reporting(&before, done),
                grammar::matrix_rest(
                    self.tokens(),
                    self.position(),
                    entry_views(entries@),
                    rows as nat,
                    cols as nat,
                    ragged,
                ).gives(whole.value),
                before.position() + whole.consumed == self.position() + grammar::matrix_rest(
                    self.tokens(),
                    self.position(),
                    entry_views(entries@),
                    rows as nat,
                    cols as nat,
                    ragged,
                ).consumed,
                whole.errors =~= done + grammar::matrix_rest(
                    self.tokens(),
                    self.position(),
                    entry_views(entries@),
                    rows as nat,
                    cols as nat,
                    ragged,
                ).errors,
            decreases self.tokens().len() - self.position(),
        {
            proof {
                unfolding::lemma_matrix_rest(
                    self.tokens(),
                    self.position(),
                    entry_views(entries@),
                    rows as nat,
                    cols as nat,
                    ragged,
                );
                self.lemma_bounded();
            }
            if self.check(TokenType::TOKEN_PIPE) {
                let ghost at = *self;
                let closed = self.close_row(entries.len(), rows, cols);
                let ghost complaint = if closed.1 {
                    Seq::empty()
                } else {
                    grammar::report(
                        at.tokens(),
                        at.position(),
                        ParseError::InvalidMatrixDimensions,
                    )
                };
                proof {
                    self.lemma_reporting_twice(&before, &at, done, complaint);
                    done = done + complaint;
                }
                cols = closed.0;
                if !closed.1 {
                    ragged = true;
                }
                rows += 1;
                self.advance();
            } else {
                self.advance();
                let ghost old_entries = entries@;
                entries.push(self.previous().lexeme.clone());
                proof {
                    assert(entry_views(entries@) =~= entry_views(old_entries).push(
                        self.tokens()[self.position() - 1].lexeme,
                    ));
                }
            }
        }
        proof {
            unfolding::lemma_matrix_rest(
                self.tokens(),
                self.position(),
                entry_views(entries@),
                rows as nat,
                cols as nat,
                ragged,
            );
        }
        if self.check(TokenType::TOKEN_RIGHT_BRACKET) {
            let ghost at = *self;
            let closed = self.close_row(entries.len(), rows, cols);
            let ghost complaint = if closed.1 {
                Seq::empty()
            } else {
                grammar::report(at.tokens(), at.position(), ParseError::InvalidMatrixDimensions)
            };
            proof {
                self.lemma_reporting_twice(&before, &at, done, complaint);
                assert(whole.errors =~= done + complaint);
            }
            self.advance();
            if ragged || !closed.1 {
                placeholder()
            } else {
                Expression::Literal(Literal::new(Value::new_matrix(entries, rows, closed.0)))
            }
        } else if self.is_at_end() {
            let ghost at = *self;
            let closed = self.close_row(entries.len(), rows, cols);
            let ghost complaint = if closed.1 {
                Seq::empty()
            } else {
                grammar::report(at.tokens(), at.position(), ParseError::InvalidMatrixDimensions)
            };
            let ghost middle = *self;
            self.parse_error(ParseError::UnclosedMatrix);
            proof {
                let unclosed = grammar::report(
                    at.tokens(),
                    at.position(),
                    ParseError::UnclosedMatrix,
                );
                middle.lemma_reporting_twice(&before, &at, done, complaint);
                self.lemma_reporting_twice(&before, &middle, done + complaint, unclosed);
                assert(whole.errors =~= done + complaint + unclosed);
            }
            placeholder()
        } else {
            let ghost at = *self;
            self.parse_error(ParseError::ExpectedNumber);
            proof {
                let missing = grammar::report(
                    at.tokens(),
                    at.position(),
                    ParseError::ExpectedNumber,
                );
                self.lemma_reporting_twice(&before, &at, done, missing);
                assert(whole.errors =~= done + missing);
            }
            placeholder()
        }
    }

    /// The argument list of `identity`, after the keyword.
    pub(crate) fn identity_call(&mut self) -> (expr: Expression)
        requires
            old(self).well_formed(),
        ensures
            final(self).stepped(
                old(self),
                grammar::identity_call(old(self).tokens(), old(self).position()),
            ),
            grammar::identity_call(old(self).tokens(), old(self).position()).gives(expr@),
    {
        let ghost start = *self;
        let ghost open = grammar::expect(
            start.tokens(),
            start.position(),
            TokenType::TOKEN_LEFT_PAREN,
            ParseError::IdentityWithoutParen,
        );
        self.consume(TokenType::TOKEN_LEFT_PAREN, ParseError::IdentityWithoutParen);
        let ghost opened = *self;
        if !self.check(TokenType::TOKEN_NUMBER) {
            self.parse_error(ParseError::IdentityWithoutSize);
            proof {
                self.lemma_reporting_twice(
                    &start,
                    &opened,
                    open.errors,
                    grammar::report(
                        opened.tokens(),
                        opened.position(),
                        ParseError::IdentityWithoutSize,
                    ),
                );
            }
            return placeholder();
        }
        self.advance();
        match read_identity_size(self.previous().lexeme.as_str()) {
            SizeReading::Size(size) => {
                let ghost middle = *self;
                self.consume(TokenType::TOKEN_RIGHT_PAREN, ParseError::UnclosedIdentity);
                proof {
                    self.lemma_reporting_twice(
                        &start,
                        &middle,
                        open.errors,
                        grammar::expect(
                            middle.tokens(),
                            middle.position(),
                            TokenType::TOKEN_RIGHT_PAREN,
                            ParseError::UnclosedIdentity,
                        ).errors,
                    );
                }
                let pattern = Matrix::new_identity(size as usize, false, true);
                let mut entries: Vec<String> = Vec::new();
                let mut k: usize = 0;
                while k < pattern.data.len()
                    invariant
                        k <= pattern.data@.len(),
                        pattern.data@ == identity_entries(size as nat, false, true),
                        entries@.len() == k,
                        forall|n: int|
                            0 <= n < k ==> (#[trigger] entries@[n])@ == identity_entries(
                                size as nat,
                                "0"@,
                                "1"@,
                            )[n],
                    decreases pattern.data@.len() - k,
                {
                    if pattern.data[k] {
                        entries.push(String::from_str("1"));
                    } else {
                        entries.push(String::from_str("0"));
                    }
                    k += 1;
                }
                let matrix = Matrix { data: entries, rows: pattern.rows, cols: pattern.cols };
                proof {
                    assert(entry_views(matrix.data@) =~= identity_entries(
                        size as nat,
                        "0"@,
                        "1"@,
                    ));
                }
                Expression::Literal(Literal::new(Value::wrap_matrix(matrix)))
            },
            SizeReading::BelowOne => {
                self.match_token(TokenType::TOKEN_RIGHT_PAREN);
                let ghost middle = *self;
                self.parse_error(ParseError::IdentitySize);
                proof {
                    self.lemma_reporting_twice(
                        &start,
                        &middle,
                        open.errors,
                        grammar::report(
                            middle.tokens(),
                            middle.position(),
                            ParseError::IdentitySize,
                        ),
                    );
                }
                placeholder()
            },
            SizeReading::Unfit => {
                let ghost middle = *self;
                self.parse_error(ParseError::IdentitySize);
                proof {
                    self.lemma_reporting_twice(
                        &start,
                        &middle,
                        open.errors,
                        grammar::report(
                            middle.tokens(),
                            middle.position(),
                            ParseError::IdentitySize,
                        ),
                    );
                }
                placeholder()
            },
        }
    }
}

} // verus!
