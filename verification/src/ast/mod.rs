//! The syntax tree: expressions and statements as closed sums of node
//! kinds, and a printer of their structure.

pub mod expression;
pub mod statement;
pub mod astprinter;
