//! Statements and whole programs, with recovery between statements.

use vstd::prelude::*;
use vstd::string::*;
use crate::ast::expression::Expression;
use crate::ast::statement::ExpressionStatement;
use crate::ast::statement::LetStatement;
use crate::ast::statement::NewLineStatement;
use crate::ast::statement::PrintStatement;
use crate::ast::statement::Statement;
use crate::ast::statement::statement_views;
use crate::ast::statement::StatementView;
use crate::parser::grammar;
use crate::parser::lemma_extends_list;
use crate::parser::Parser;
use crate::parser::placeholder;
use crate::parser::soundness;
use crate::parser::unfolding;
use crate::parser::diagnostic::DiagnosticView;
use crate::parser::diagnostic::ParseError;
use crate::parser::numeral::numerals;
use crate::parser::numeral::read_count;
use crate::tokens::Token;
use crate::tokens::TokenType;

verus! {

/// What [`Parser::parse`] answers when the tokens it was given do not end
/// with the end-of-input token.
pub open spec fn missing_end_message() -> Seq<char> {
    "Missing end of input"@
}

/// The statement that stands in for one that could not be parsed.
fn placeholder_statement() -> (statement: Statement)
    ensures
        statement@ == grammar::placeholder_statement(),
{
    Statement::Expression(ExpressionStatement::new(Box::new(placeholder())))
}

impl Parser {
    /// A print statement, after its keyword.
    fn print_statement(&mut self) -> (statement: Statement)
        requires
            old(self).well_formed(),
        ensures
            final(self).stepped(
                old(self),
                grammar::print_statement(old(self).tokens(), old(self).position()),
            ),
            grammar::print_statement(old(self).tokens(), old(self).position()).gives(statement@),
    {
        let ghost start = *self;
        let value = self.expression();
        let ghost middle = *self;
        let found = self.consume(TokenType::TOKEN_SEMICOLON, ParseError::UnterminatedValue);
        proof {
            self.lemma_reporting_twice(
                &start,
                &middle,
                grammar::expression(start.tokens(), start.position()).errors,
                grammar::expect(
                    middle.tokens(),
                    middle.position(),
                    TokenType::TOKEN_SEMICOLON,
                    ParseError::UnterminatedValue,
                ).errors,
            );
        }
        if found {
            Statement::Print(PrintStatement::new(Box::new(value)))
        } else {
            placeholder_statement()
        }
    }

    /// An expression statement.
    fn expression_statement(&mut self) -> (statement: Statement)
        requires
            old(self).well_formed(),
        ensures
            final(self).stepped(
                old(self),
                grammar::expression_statement(old(self).tokens(), old(self).position()),
            ),
            grammar::expression_statement(old(self).tokens(), old(self).position()).gives(
                statement@,
            ),
    {
        let ghost start = *self;
        let value = self.expression();
        let ghost middle = *self;
        let found = self.consume(TokenType::TOKEN_SEMICOLON, ParseError::UnterminatedExpression);
        proof {
            self.lemma_reporting_twice(
                &start,
                &middle,
                grammar::expression(start.tokens(), start.position()).errors,
                grammar::expect(
                    middle.tokens(),
                    middle.position(),
                    TokenType::TOKEN_SEMICOLON,
                    ParseError::UnterminatedExpression,
                ).errors,
            );
        }
        if found {
            Statement::Expression(ExpressionStatement::new(Box::new(value)))
        } else {
            placeholder_statement()
        }
    }

    /// A let statement, after its keyword.
    fn let_statement(&mut self) -> (statement: Statement)
        requires
            old(self).well_formed(),
        ensures
            final(self).stepped(
                old(self),
                grammar::let_statement(old(self).tokens(), old(self).position()),
            ),
            grammar::let_statement(old(self).tokens(), old(self).position()).gives(statement@),
    {
        let ghost start = *self;
        let ghost named = grammar::expect(
            start.tokens(),
            start.position(),
            TokenType::TOKEN_IDENTIFIER,
            ParseError::ExpectedIdentifier,
        );
        let name = if self.consume(TokenType::TOKEN_IDENTIFIER, ParseError::ExpectedIdentifier) {
            Some(self.previous().clone())
        } else {
            None
        };
        let ghost after_name = *self;
        let ghost assign = grammar::expect(
            after_name.tokens(),
            after_name.position(),
            TokenType::TOKEN_EQUAL,
            ParseError::ExpectedAssignment,
        );
        if self.consume(TokenType::TOKEN_EQUAL, ParseError::ExpectedAssignment) {
            let ghost assigned = *self;
            let value = self.expression();
            let ghost middle = *self;
            let found = self.consume(TokenType::TOKEN_SEMICOLON, ParseError::UnterminatedValue);
            proof {
                let body = grammar::expression(assigned.tokens(), assigned.position());
                let end = grammar::expect(
                    middle.tokens(),
                    middle.position(),
                    TokenType::TOKEN_SEMICOLON,
                    ParseError::UnterminatedValue,
                );
                assigned.lemma_reporting_still(&start, &after_name, named.errors);
                middle.lemma_reporting_twice(&start, &assigned, named.errors, body.errors);
                self.lemma_reporting_twice(
                    &start,
                    &middle,
                    named.errors + body.errors,
                    end.errors,
                );
            }
            match name {
                Some(name) => if found {
                    Statement::Let(LetStatement::new(name, Box::new(value)))
                } else {
                    placeholder_statement()
                },
                None => placeholder_statement(),
            }
        } else {
            proof {
                self.lemma_reporting_twice(&start, &after_name, named.errors, assign.errors);
            }
            placeholder_statement()
        }
    }

    /// A newline statement, after its keyword.
    fn new_line_statement(&mut self) -> (statement: Statement)
        requires
            old(self).well_formed(),
        ensures
            final(self).stepped(
                old(self),
                grammar::new_line_statement(old(self).tokens(), old(self).position()),
            ),
            grammar::new_line_statement(old(self).tokens(), old(self).position()).gives(
                statement@,
            ),
    {
        let ghost start = *self;
        let mut lines: usize = 1;
        let mut counted = true;
        let ghost mut complaint = Seq::<DiagnosticView>::empty();
        if self.match_token(TokenType::TOKEN_NUMBER) {
            match read_count(self.previous().lexeme.as_str()) {
                Some(n) => {
                    lines = n;
                    proof {
                        self.lemma_reporting_nothing(&start);
                    }
                },
                None => {
                    counted = false;
                    proof {
                        complaint = grammar::report(
                            self.tokens(),
                            self.position(),
                            ParseError::NewlineCount,
                        );
                    }
                    self.parse_error(ParseError::NewlineCount);
                },
            }
        } else {
            proof {
                self.lemma_reporting_nothing(&start);
            }
        }
        let ghost middle = *self;
        let ended = self.consume(TokenType::TOKEN_SEMICOLON, ParseError::UnterminatedNewline);
        proof {
            self.lemma_reporting_twice(
                &start,
                &middle,
                complaint,
                grammar::expect(
                    middle.tokens(),
                    middle.position(),
                    TokenType::TOKEN_SEMICOLON,
                    ParseError::UnterminatedNewline,
                ).errors,
            );
        }
        if counted && ended {
            Statement::NewLine(NewLineStatement::new(lines))
        } else {
            placeholder_statement()
        }
    }

    /// A statement: by its keyword, or an expression statement.
    fn statement(&mut self) -> (statement: Statement)
        requires
            old(self).well_formed(),
        ensures
            final(self).stepped(
                old(self),
                grammar::statement(old(self).tokens(), old(self).position()),
            ),
            grammar::statement(old(self).tokens(), old(self).position()).gives(statement@),
    {
        if self.match_token(TokenType::TOKEN_PRINT) {
            return self.print_statement();
        } else if self.match_token(TokenType::TOKEN_LET) {
            return self.let_statement();
        } else if self.match_token(TokenType::TOKEN_NEWLINE) {
            return self.new_line_statement();
        }
        self.expression_statement()
    }

    /// Recovers from an error: drops tokens until one has passed a `;` or
    /// the cursor stands before a `print`, and nothing if it stands before
    /// a `print` already.  Recovery ends there; it goes on if the end of
    /// input comes first.
    fn synchronize(&mut self)
        requires
            old(self).well_formed(),
        ensures
            final(self).well_formed(),
            final(self).tokens() == old(self).tokens(),
            final(self).reported() == old(self).reported(),
            final(self).position() == grammar::synchronize(
                old(self).tokens(),
                old(self).position(),
            ).0,
            final(self).in_panic() == (old(self).in_panic() && grammar::synchronize(
                old(self).tokens(),
                old(self).position(),
            ).1),
    {
        let ghost target = grammar::synchronize(self.tokens(), self.position());
        if self.is_at_end() {
            return ;
        }
        if self.peek().token_type == TokenType::TOKEN_PRINT {
            self.calm();
            return ;
        }
        self.advance();
        while !self.is_at_end()
            invariant
                self.well_formed(),
                self.tokens() == old(self).tokens(),
                self.reported() == old(self).reported(),
                self.in_panic() == old(self).in_panic(),
                self.position() >= 1 || grammar::at_end(self.tokens(), self.position()),
                grammar::skip(self.tokens(), self.position()) == target,
                target == grammar::synchronize(old(self).tokens(), old(self).position()),
            decreases self.tokens().len() - self.position(),
        {
            proof {
                unfolding::lemma_skip(self.tokens(), self.position());
            }
            if self.previous().token_type == TokenType::TOKEN_SEMICOLON {
                self.calm();
                return ;
            }
            if self.peek().token_type == TokenType::TOKEN_PRINT {
                self.calm();
                return ;
            }
            self.advance();
        }
        proof {
            unfolding::lemma_skip(self.tokens(), self.position());
        }
    }

    /// Parses the tokens from the cursor to the end of input into
    /// statements, and leaves the cursor on the end-of-input token.  A
    /// statement that cannot be parsed is reported, gives a placeholder,
    /// and is followed by recovery; parsing then goes on, so the answer is
    /// `Ok` whenever the tokens end with the end-of-input token, and `Err`
    /// only when they do not.  Every matrix literal of the statements has
    /// as many entries as its shape says, and where every number token
    /// holds a number as it is written, so does every literal.
    pub fn parse(&mut self) -> (result: Result<Vec<Statement>, String>)
        ensures
            result is Ok <==> old(self).well_formed(),
            final(self).tokens() == old(self).tokens(),
            match result {
                Ok(statements) => {
                    let program = grammar::statements_from(
                        old(self).tokens(),
                        old(self).position(),
                        old(self).in_panic(),
                    );
                    &&& final(self).well_formed()
                    &&& grammar::at_end(final(self).tokens(), final(self).position())
                    &&& statement_views(statements@) == program.statements
                    &&& forall|i: int|
                        0 <= i < statements@.len() ==> (#[trigger] statements@[i])@.well_formed()
                    &&& numerals(old(self).tokens()) ==> forall|i: int|
                        0 <= i < statements@.len() ==> (#[trigger] statements@[i])@.numeric()
                    &&& final(self).position() == program.end
                    &&& final(self).in_panic() == program.panic
                    &&& final(self).reported() == old(self).reported() + program.errors
                },
                Err(message) => {
                    &&& message@ == missing_end_message()
                    &&& final(self).position() == old(self).position()
                    &&& final(self).in_panic() == old(self).in_panic()
                    &&& final(self).reported() == old(self).reported()
                },
            },
    {
        if !self.is_well_formed() {
            return Err(String::from_str("Missing end of input"));
        }
        let ghost before = *self;
        let ghost whole = grammar::statements_from(
            before.tokens(),
            before.position(),
            before.in_panic(),
        );
        let mut statements: Vec<Statement> = Vec::new();
        let ghost mut done = Seq::<DiagnosticView>::empty();
        proof {
            assert(statement_views(statements@) =~= Seq::<StatementView>::empty());
            assert(whole.statements =~= statement_views(statements@) + whole.statements);
            assert(whole.errors =~= done + whole.errors);
            assert(self.reported() =~= before.reported() + done);
        }
        while !self.is_at_end()
            invariant
                self.well_formed(),
                self.tokens() == before.tokens(),
                self.reported() == before.reported() + done,
                whole.statements =~= statement_views(statements@) + grammar::statements_from(
                    self.tokens(),
                    self.position(),
                    self.in_panic(),
                ).statements,
                whole.errors =~= done + grammar::statements_from(
                    self.tokens(),
                    self.position(),
                    self.in_panic(),
                ).errors,
                whole.end == grammar::statements_from(
                    self.tokens(),
                    self.position(),
                    self.in_panic(),
                ).end,
                whole.panic == grammar::statements_from(
                    self.tokens(),
                    self.position(),
                    self.in_panic(),
                ).panic,
            decreases self.tokens().len() - self.position(),
        {
            let ghost at = *self;
            let ghost first = grammar::statement(at.tokens(), at.position());
            proof {
                unfolding::lemma_statements_from(at.tokens(), at.position(), at.in_panic());
                grammar::lemma_statement_progress(at.tokens(), at.position());
            }
            let statement = self.statement();
            proof {
                lemma_extends_list(
                    at.reported(),
                    at.in_panic(),
                    first.errors,
                    self.reported(),
                    self.in_panic(),
                );
                grammar::lemma_skip_forward(self.tokens(), self.position());
                assert(statement_views(statements@.push(statement)) =~= statement_views(
                    statements@,
                ).push(statement@));
                assert(self.reported() =~= before.reported() + (done + first.errors));
                done = done + first.errors;
            }
            statements.push(statement);
            if self.had_error() {
                self.synchronize();
            }
        }
        proof {
            unfolding::lemma_statements_from(self.tokens(), self.position(), self.in_panic());
            assert(whole.statements =~= statement_views(statements@));
            assert(whole.errors =~= done);
            soundness::lemma_program(before.tokens(), before.position(), before.in_panic());
            assert forall|i: int| 0 <= i < statements@.len() implies (
            #[trigger] statements@[i])@.well_formed() by {
                assert(statement_views(statements@)[i] == statements@[i]@);
            }
            if numerals(before.tokens()) {
                assert forall|i: int| 0 <= i < statements@.len() implies (
                #[trigger] statements@[i])@.numeric() by {
                    assert(statement_views(statements@)[i] == statements@[i]@);
                }
            }
        }
        Ok(statements)
    }
}

} // verus!
