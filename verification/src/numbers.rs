//! The numbers of a run: how they are read, printed and computed with.
//!
//! The language leaves its arithmetic to whoever runs it.  Nothing is
//! assumed of these operations: what the interpreter does with them is
//! stated through what each call of them ensures.

use vstd::prelude::*;
use crate::interpreter::Reading;
use crate::parser::numeral::is_number;

verus! {

/// The operations on single numbers that evaluation needs: reading and
/// printing, the arithmetic, and the comparisons of magnitudes that
/// elimination asks for.
pub trait Numbers<T: Copy> {
    /// The number that the text of a number token writes.  It is asked
    /// for no text that is not a number as it is written.
    fn number(&self, text: &String) -> T
        requires
            is_number(text@),
    ;

    /// The text that a number prints as.
    fn text(&self, number: T) -> String;

    /// What the operand rules read of a number: whether it is exactly zero,
    /// and how it reads as the exponent of a matrix power.
    fn reading(&self, number: T) -> Reading;

    /// The number zero.
    fn zero(&self) -> T;

    /// The number one.
    fn one(&self) -> T;

    /// The number with its sign flipped.
    fn negate(&self, a: T) -> T;

    /// The sum of `a` and `b`.
    fn add(&self, a: T, b: T) -> T;

    /// `a` minus `b`.
    fn subtract(&self, a: T, b: T) -> T;

    /// The product of `a` and `b`.
    fn multiply(&self, a: T, b: T) -> T;

    /// `a` divided by `b`.
    fn divide(&self, a: T, b: T) -> T;

    /// `a` to the power of `b`.
    fn power(&self, a: T, b: T) -> T;

    /// `sum` plus the product of `a` and `b`.
    fn multiply_add(&self, sum: T, a: T, b: T) -> T;

    /// Whether the magnitude of `a` is greater than that of `b`: whether
    /// `a` is the better pivot.
    fn outweighs(&self, a: T, b: T) -> bool;

    /// Whether the magnitude of `a` is less than one divided by `parts`.
    fn below(&self, a: T, parts: u32) -> bool;

    /// Whether the magnitude of `a` is greater than one divided by `parts`.
    fn above(&self, a: T, parts: u32) -> bool;
}

} // verus!
