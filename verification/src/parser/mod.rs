//! The parser: recursive descent over the tokens with one token of
//! lookahead, building statements and recovering from syntax errors.
//!
//! What each method builds, how far it reads and what it reports is given
//! by the function of the same name in [`grammar`].

pub mod diagnostic;
pub mod numeral;
pub mod grammar;
pub mod unfolding;
pub mod soundness;
pub mod descent;
pub mod program;

use vstd::prelude::*;
use vstd::string::*;
use crate::ast::expression::Expression;
use crate::ast::expression::Literal;
use crate::parser::diagnostic::Diagnostic;
use crate::parser::diagnostic::diagnostic_views;
use crate::parser::diagnostic::DiagnosticView;
use crate::parser::diagnostic::ParseError;
use crate::parser::grammar::Step;
use crate::tokens::Token;
use crate::tokens::token_views;
use crate::tokens::TokenType;
use crate::tokens::TokenView;
use crate::value::Value;

verus! {

/// A parser over one token sequence, with its cursor, its recovery flag
/// and the errors it has reported.
pub struct Parser {
    tokens: Vec<Token>,
    current: usize,
    error: bool,
    diagnostics: Vec<Diagnostic>,
}

/// A report list and recovery flag `after` come from those `before` by
/// reporting `errors`: the list has grown by them, and recovery is on if it
/// was on or anything was reported.
#[verifier::opaque]
pub open spec fn extends(
    before: Seq<DiagnosticView>,
    panic_before: bool,
    errors: Seq<DiagnosticView>,
    after: Seq<DiagnosticView>,
    panic_after: bool,
) -> bool {
    &&& after == before + errors
    &&& panic_after == (panic_before || errors.len() > 0)
}

/// Reporting nothing changes nothing.
pub proof fn lemma_extends_nothing(before: Seq<DiagnosticView>, panic: bool)
    ensures
        extends(before, panic, Seq::empty(), before, panic),
{
    reveal(extends);
    assert(before =~= before + Seq::<DiagnosticView>::empty());
}

/// Reporting at least one error turns recovery on.
pub proof fn lemma_extends_some(
    before: Seq<DiagnosticView>,
    panic: bool,
    errors: Seq<DiagnosticView>,
)
    requires
        errors.len() > 0,
    ensures
        extends(before, panic, errors, before + errors, true),
{
    reveal(extends);
}

/// Reporting in two steps is reporting both lists in a row.
pub proof fn lemma_extends_twice(
    start: Seq<DiagnosticView>,
    panic_start: bool,
    first: Seq<DiagnosticView>,
    middle: Seq<DiagnosticView>,
    panic_middle: bool,
    second: Seq<DiagnosticView>,
    end: Seq<DiagnosticView>,
    panic_end: bool,
)
    requires
        extends(start, panic_start, first, middle, panic_middle),
        extends(middle, panic_middle, second, end, panic_end),
    ensures
        extends(start, panic_start, first + second, end, panic_end),
{
    reveal(extends);
    assert(end =~= start + (first + second));
}

/// What was reported is the old list and the errors behind it.
pub proof fn lemma_extends_list(
    before: Seq<DiagnosticView>,
    panic_before: bool,
    errors: Seq<DiagnosticView>,
    after: Seq<DiagnosticView>,
    panic_after: bool,
)
    requires
        extends(before, panic_before, errors, after, panic_after),
    ensures
        after == before + errors,
        panic_after == (panic_before || errors.len() > 0),
{
    reveal(extends);
}

/// The inert expression that stands in for what could not be parsed.
pub(crate) fn placeholder() -> (expr: Expression)
    ensures
        expr@ == grammar::placeholder(),
{
    Expression::Literal(Literal::new(Value::new_scalar(String::from_str("0"))))
}

impl Parser {
    /// The tokens the parser reads.
    pub closed spec fn tokens(&self) -> Seq<TokenView> {
        token_views(self.tokens@)
    }

    /// The position of the cursor: the index of the next token to read.
    pub closed spec fn position(&self) -> nat {
        self.current as nat
    }

    /// Whether the parser is recovering from an error.
    pub closed spec fn in_panic(&self) -> bool {
        self.error
    }

    /// The errors reported so far, in order.
    pub closed spec fn reported(&self) -> Seq<DiagnosticView> {
        diagnostic_views(self.diagnostics@)
    }

    /// The tokens end with the end-of-input token and the cursor stands on
    /// one of them.
    pub open spec fn well_formed(&self) -> bool {
        &&& self.tokens().len() > 0
        &&& self.tokens().last().token_type == TokenType::TOKEN_EOF
        &&& self.position() < self.tokens().len()
    }

    /// Since the state `before` the parser has reported `errors` and
    /// nothing else, and is recovering if it was then or has reported
    /// anything since.
    pub open spec fn reporting(&self, before: &Parser, errors: Seq<DiagnosticView>) -> bool {
        extends(before.reported(), before.in_panic(), errors, self.reported(), self.in_panic())
    }

    /// The parser has gone from the state `before` through `step`: it has
    /// taken the tokens of the step and reported its errors.
    pub open spec fn stepped<T>(&self, before: &Parser, step: Step<T>) -> bool {
        &&& self.well_formed()
        &&& self.tokens() == before.tokens()
        &&& self.position() == before.position() + step.consumed
        &&& self.reporting(before, step.errors)
    }

    /// The tokens are as many as a machine word counts.
    pub proof fn lemma_bounded(&self)
        ensures
            self.position() <= usize::MAX,
            self.tokens().len() <= usize::MAX,
    {
        assert(self.tokens@.len() == self.tokens.len());
    }

    /// Two steps in a row report the errors of both.
    pub proof fn lemma_reporting_twice(
        &self,
        start: &Parser,
        middle: &Parser,
        first: Seq<DiagnosticView>,
        second: Seq<DiagnosticView>,
    )
        requires
            middle.reporting(start, first),
            self.reporting(middle, second),
        ensures
            self.reporting(start, first + second),
    {
        lemma_extends_twice(
            start.reported(),
            start.in_panic(),
            first,
            middle.reported(),
            middle.in_panic(),
            second,
            self.reported(),
            self.in_panic(),
        );
    }

    /// A step that reports nothing leaves what was reported as it was.
    pub proof fn lemma_reporting_still(
        &self,
        start: &Parser,
        middle: &Parser,
        errors: Seq<DiagnosticView>,
    )
        requires
            middle.reporting(start, errors),
            self.reporting(middle, Seq::empty()),
        ensures
            self.reporting(start, errors),
    {
        self.lemma_reporting_twice(start, middle, errors, Seq::empty());
        assert(errors + Seq::<DiagnosticView>::empty() =~= errors);
    }

    /// A parser that has reported nothing since `before` is reporting
    /// the empty list.
    pub proof fn lemma_reporting_nothing(&self, before: &Parser)
        requires
            self.reported() == before.reported(),
            self.in_panic() == before.in_panic(),
        ensures
            self.reporting(before, Seq::empty()),
    {
        lemma_extends_nothing(before.reported(), before.in_panic());
    }

    /// A parser over `tokens`, with its cursor on the first of them.
    pub fn new(tokens: Vec<Token>) -> (parser: Self)
        ensures
            parser.tokens() == token_views(tokens@),
            parser.position() == 0,
            !parser.in_panic(),
            parser.reported() == Seq::<DiagnosticView>::empty(),
    {
        let parser = Parser { tokens, current: 0, error: false, diagnostics: Vec::new() };
        assert(parser.reported() =~= Seq::<DiagnosticView>::empty());
        parser
    }

    /// A parser over no tokens at all.  It has nothing to parse until it
    /// is given tokens.
    pub fn new_empty() -> (parser: Self)
        ensures
            parser.tokens() == Seq::<TokenView>::empty(),
            parser.position() == 0,
            !parser.in_panic(),
            parser.reported() == Seq::<DiagnosticView>::empty(),
    {
        let parser = Parser { tokens: Vec::new(), current: 0, error: false, diagnostics: Vec::new() };
        assert(parser.reported() =~= Seq::<DiagnosticView>::empty());
        assert(parser.tokens() =~= Seq::<TokenView>::empty());
        parser
    }

    /// Gives the parser a new token sequence to read from its start: what
    /// was reported and the recovery from it belong to the old tokens and
    /// are dropped.
    pub fn set_tokens(&mut self, tokens: Vec<Token>)
        ensures
            final(self).tokens() == token_views(tokens@),
            final(self).position() == 0,
            !final(self).in_panic(),
            final(self).reported() == Seq::<DiagnosticView>::empty(),
    {
        self.tokens = tokens;
        self.current = 0;
        self.error = false;
        self.diagnostics = Vec::new();
        assert(self.reported() =~= Seq::<DiagnosticView>::empty());
    }

    /// The errors reported so far, in order.
    pub fn diagnostics(&self) -> (list: &Vec<Diagnostic>)
        ensures
            diagnostic_views(list@) == self.reported(),
    {
        &self.diagnostics
    }

    /// Reports `error` at the token under the cursor and starts recovery.
    pub fn parse_error(&mut self, error: ParseError)
        ensures
            final(self).tokens() == old(self).tokens(),
            final(self).position() == old(self).position(),
            final(self).in_panic(),
            final(self).reported() == old(self).reported() + grammar::report(
                old(self).tokens(),
                old(self).position(),
                error,
            ),
            final(self).reporting(
                old(self),
                grammar::report(old(self).tokens(), old(self).position(), error),
            ),
    {
        let line = if self.current < self.tokens.len() {
            self.tokens[self.current].line
        } else {
            0
        };
        self.error = true;
        self.diagnostics.push(Diagnostic { line, error });
        assert(self.reported() =~= old(self).reported() + grammar::report(
            old(self).tokens(),
            old(self).position(),
            error,
        ));
        proof {
            lemma_extends_some(
                old(self).reported(),
                old(self).in_panic(),
                grammar::report(old(self).tokens(), old(self).position(), error),
            );
        }
    }

    /// Whether the tokens end with the end-of-input token and the cursor
    /// stands on one of them.
    pub fn is_well_formed(&self) -> (ok: bool)
        ensures
            ok == self.well_formed(),
    {
        let len = self.tokens.len();
        len > 0 && self.current < len && self.tokens[len - 1].token_type == TokenType::TOKEN_EOF
    }

    /// Whether the parser is recovering from an error.
    pub fn had_error(&self) -> (flag: bool)
        ensures
            flag == self.in_panic(),
    {
        self.error
    }

    /// Ends recovery.
    pub(crate) fn calm(&mut self)
        ensures
            !final(self).in_panic(),
            final(self).tokens() == old(self).tokens(),
            final(self).position() == old(self).position(),
            final(self).reported() == old(self).reported(),
    {
        self.error = false;
    }

    /// The token before the cursor.
    pub(crate) fn previous(&self) -> (token: &Token)
        requires
            1 <= self.position() <= self.tokens().len(),
        ensures
            token@ == self.tokens()[self.position() - 1],
    {
        &self.tokens[self.current - 1]
    }

    /// The token under the cursor.
    pub(crate) fn peek(&self) -> (token: &Token)
        requires
            self.position() < self.tokens().len(),
        ensures
            token@ == self.tokens()[self.position() as int],
    {
        &self.tokens[self.current]
    }

    /// Whether the cursor stands on the end-of-input token.
    pub(crate) fn is_at_end(&self) -> (end: bool)
        requires
            self.well_formed(),
        ensures
            end == grammar::at_end(self.tokens(), self.position()),
    {
        self.peek().token_type == TokenType::TOKEN_EOF
    }

    /// Moves the cursor past the token under it, unless that is the
    /// end-of-input token.
    pub(crate) fn advance(&mut self)
        requires
            old(self).well_formed(),
        ensures
            final(self).well_formed(),
            final(self).tokens() == old(self).tokens(),
            final(self).reported() == old(self).reported(),
            final(self).in_panic() == old(self).in_panic(),
            final(self).position() == if grammar::at_end(old(self).tokens(), old(self).position()) {
                old(self).position()
            } else {
                old(self).position() + 1
            },
    {
        if !self.is_at_end() {
            assert(self.current < self.tokens.len());
            self.current += 1;
        }
    }

    /// Whether the cursor stands on a token of the given kind.
    pub(crate) fn check(&self, token_type: TokenType) -> (found: bool)
        requires
            self.well_formed(),
        ensures
            found == grammar::check(self.tokens(), self.position(), token_type),
    {
        if self.is_at_end() {
            return false;
        }
        self.peek().token_type == token_type
    }

    /// Takes the token under the cursor if it is of the given kind.
    pub(crate) fn match_token(&mut self, token_type: TokenType) -> (found: bool)
        requires
            old(self).well_formed(),
        ensures
            final(self).well_formed(),
            found == grammar::check(old(self).tokens(), old(self).position(), token_type),
            final(self).tokens() == old(self).tokens(),
            final(self).reported() == old(self).reported(),
            final(self).in_panic() == old(self).in_panic(),
            final(self).position() == if found {
                old(self).position() + 1
            } else {
                old(self).position()
            },
    {
        if self.check(token_type) {
            self.advance();
            return true;
        }
        false
    }

    /// Takes the token under the cursor if it is of the given kind, and
    /// reports `error` if it is not.
    pub(crate) fn consume(&mut self, token_type: TokenType, error: ParseError) -> (found: bool)
        requires
            old(self).well_formed(),
        ensures
            found == grammar::expect(
                old(self).tokens(),
                old(self).position(),
                token_type,
                error,
            ).value,
            final(self).stepped(
                old(self),
                grammar::expect(old(self).tokens(), old(self).position(), token_type, error),
            ),
    {
        if self.check(token_type) {
            self.advance();
            proof {
                self.lemma_reporting_nothing(old(self));
            }
            return true;
        }
        self.parse_error(error);
        return false;
    }
}

} // verus!
