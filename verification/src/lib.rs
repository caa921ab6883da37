//! A small expression language for scalar and matrix arithmetic.
//!
//! Source text is split into tokens by the [`lexer`] and turned into
//! statements by the [`parser`].  The [`interpreter`] runs the statements:
//! it binds variables in an [`environment`], decides by its operand rules
//! which operation each operator stands for, and carries the operation out
//! on [`value`]s with the loops of [`arithmetic`] and of [`elimination`].
//! What elimination leaves as it is, is said in [`reduced`].
//!
//! The numbers themselves are a parameter.  Whoever runs a program supplies
//! the operations on single numbers as an implementation of
//! [`numbers::Numbers`]; the library fixes everything around them: the
//! grammar, the order of evaluation, the shapes of matrices, the course of
//! elimination, and which errors end a run.

pub mod relations;
pub mod tokens;
pub mod lexer;
pub mod value;
pub mod arithmetic;
pub mod elimination;
pub mod reduced;
pub mod ast;
pub mod parser;
pub mod environment;
pub mod numbers;
pub mod interpreter;
