//! Reading whole numbers out of the text of number tokens.

use vstd::prelude::*;
use vstd::string::*;
use crate::lexer::digit_run;
use crate::lexer::is_digit;
use crate::tokens::TokenType;
use crate::tokens::TokenView;

verus! {

/// The digit that the character `c` writes.
pub open spec fn digit_value(c: char) -> nat {
    (c as nat - '0' as nat) as nat
}

/// The number that a sequence of decimal digits writes.
pub open spec fn decimal_value(digits: Seq<char>) -> nat
    decreases digits.len(),
{
    if digits.len() == 0 {
        0
    } else {
        decimal_value(digits.drop_last()) * 10 + digit_value(digits.last())
    }
}

/// Every character is a decimal digit.
pub open spec fn all_digits(text: Seq<char>) -> bool {
    forall|i: int| 0 <= i < text.len() ==> is_digit(#[trigger] text[i])
}

/// Every character is the digit zero.
pub open spec fn all_zeros(text: Seq<char>) -> bool {
    forall|i: int| 0 <= i < text.len() ==> #[trigger] text[i] == '0'
}

/// How the text of a number reads as the size of an identity matrix.
#[derive(Debug, PartialEq, Eq, Clone, Copy, Structural)]
pub enum SizeReading {
    /// A number below one.
    BelowOne,
    /// This whole number, at least one, that 32 bits hold.
    Size(u32),
    /// Anything else: a number with a fraction, a number too large, or no
    /// number at all.
    Unfit,
}

/// The text is a number as it is written: digits, at least one, and
/// behind them at most a decimal point and more digits.
pub open spec fn is_number(text: Seq<char>) -> bool {
    let digits = digit_run(text, 0) as int;
    digits >= 1 && (digits == text.len() || (text[digits] == '.' && all_digits(
        text.subrange(digits + 1, text.len() as int),
    )))
}

/// Every number token holds a number as it is written.
pub open spec fn numerals(tokens: Seq<TokenView>) -> bool {
    forall|i: int|
        0 <= i < tokens.len() && (#[trigger] tokens[i]).token_type == TokenType::TOKEN_NUMBER
            ==> is_number(tokens[i].lexeme)
}

/// How `text` reads as the size of an identity matrix.  What counts is
/// the number written before the decimal point, and whether anything but
/// zeros follows the point.
pub open spec fn size_reading(text: Seq<char>) -> SizeReading {
    let digits = digit_run(text, 0) as int;
    let whole = decimal_value(text.subrange(0, digits));
    if !is_number(text) {
        SizeReading::Unfit
    } else if whole == 0 {
        SizeReading::BelowOne
    } else if whole <= u32::MAX && (digits == text.len() || all_zeros(
        text.subrange(digits + 1, text.len() as int),
    )) {
        SizeReading::Size(whole as u32)
    } else {
        SizeReading::Unfit
    }
}

/// The count that `text` writes, if it writes one: digits only, at least
/// one, and a number that a `usize` holds.
pub open spec fn count(text: Seq<char>) -> Option<usize> {
    if text.len() >= 1 && all_digits(text) && decimal_value(text) <= usize::MAX {
        Some(decimal_value(text) as usize)
    } else {
        None
    }
}

/// One more digit multiplies the number written so far by ten and adds
/// the digit.
pub proof fn lemma_decimal_step(text: Seq<char>, i: int)
    requires
        0 <= i < text.len(),
    ensures
        decimal_value(text.subrange(0, i + 1)) == decimal_value(text.subrange(0, i)) * 10
            + digit_value(text[i]),
        decimal_value(text.subrange(0, i + 1)) >= decimal_value(text.subrange(0, i)),
{
    assert(text.subrange(0, i + 1).drop_last() =~= text.subrange(0, i));
}

/// A longer run of digits does not write a smaller number.
pub proof fn lemma_decimal_monotonic(text: Seq<char>, i: int, j: int)
    requires
        0 <= i <= j <= text.len(),
    ensures
        decimal_value(text.subrange(0, i)) <= decimal_value(text.subrange(0, j)),
    decreases j - i,
{
    if i < j {
        lemma_decimal_step(text, j - 1);
        lemma_decimal_monotonic(text, i, j - 1);
    }
}

fn digit_of(c: char) -> (d: u8)
    requires
        is_digit(c),
    ensures
        d == digit_value(c),
        d <= 9,
{
    (c as u8) - 48
}

fn is_digit_char(c: char) -> (b: bool)
    ensures
        b == is_digit(c),
{
    '0' <= c && c <= '9'
}

/// Reads a count: the number that `text` writes, if `text` is made of
/// digits only and the number fits.
pub fn read_count(text: &str) -> (result: Option<usize>)
    ensures
        result == count(text@),
{
    let len = text.unicode_len();
    if len == 0 {
        return None;
    }
    let mut total: usize = 0;
    let mut i: usize = 0;
    while i < len
        invariant
            i <= len,
            len == text@.len(),
            total == decimal_value(text@.subrange(0, i as int)),
            forall|k: int| 0 <= k < i ==> is_digit(#[trigger] text@[k]),
        decreases len - i,
    {
        let c = text.get_char(i);
        if !is_digit_char(c) {
            return None;
        }
        let d = digit_of(c);
        proof {
            lemma_decimal_step(text@, i as int);
            lemma_decimal_monotonic(text@, i + 1, len as int);
            assert(text@.subrange(0, len as int) =~= text@);
        }
        let scaled = match total.checked_mul(10) {
            Some(v) => v,
            None => {
                return None;
            },
        };
        total = match scaled.checked_add(d as usize) {
            Some(v) => v,
            None => {
                return None;
            },
        };
        i += 1;
    }
    proof {
        assert(text@.subrange(0, len as int) =~= text@);
    }
    Some(total)
}

/// Whether the text is a number as it is written.
pub fn is_written_number(text: &str) -> (ok: bool)
    ensures
        ok == is_number(text@),
{
    let len = text.unicode_len();
    let mut i: usize = 0;
    while i < len && is_digit_char(text.get_char(i))
        invariant
            i <= len,
            len == text@.len(),
            digit_run(text@, 0) == i + digit_run(text@, i as int),
        decreases len - i,
    {
        i += 1;
    }
    assert(digit_run(text@, i as int) == 0);
    if i == 0 {
        return false;
    }
    if i == len {
        return true;
    }
    if text.get_char(i) != '.' {
        return false;
    }
    let ghost from = i + 1;
    let mut j: usize = i + 1;
    while j < len
        invariant
            1 <= i < j <= len,
            from == i + 1,
            len == text@.len(),
            digit_run(text@, 0) == i,
            text@[i as int] == '.',
            forall|k: int| from <= k < j ==> is_digit(text@[k]),
        decreases len - j,
    {
        if !is_digit_char(text.get_char(j)) {
            proof {
                let tail = text@.subrange(from as int, len as int);
                assert(tail[j - from] == text@[j as int]);
                assert(!all_digits(tail));
            }
            return false;
        }
        j += 1;
    }
    proof {
        assert(all_digits(text@.subrange(from as int, len as int)));
    }
    true
}

/// Reads the text of a number as the size of an identity matrix.
pub fn read_identity_size(text: &str) -> (result: SizeReading)
    ensures
        result == size_reading(text@),
{
    let len = text.unicode_len();
    let mut total: u64 = 0;
    let mut large = false;
    let mut i: usize = 0;
    while i < len && is_digit_char(text.get_char(i))
        invariant
            i <= len,
            len == text@.len(),
            digit_run(text@, 0) == i + digit_run(text@, i as int),
            !large ==> total == decimal_value(text@.subrange(0, i as int)) && total <= u32::MAX,
            large ==> decimal_value(text@.subrange(0, i as int)) > u32::MAX,
        decreases len - i,
    {
        let d = digit_of(text.get_char(i));
        proof {
            lemma_decimal_step(text@, i as int);
        }
        if !large {
            total = total * 10 + d as u64;
            if total > u32::MAX as u64 {
                large = true;
            }
        }
        i += 1;
    }
    assert(digit_run(text@, i as int) == 0);
    if i == 0 {
        return SizeReading::Unfit;
    }
    let mut zeros = true;
    if i < len {
        if text.get_char(i) != '.' {
            return SizeReading::Unfit;
        }
        let ghost from = i + 1;
        let mut j: usize = i + 1;
        while j < len
            invariant
                1 <= i < j <= len,
                from == i + 1,
                len == text@.len(),
                digit_run(text@, 0) == i,
                text@[i as int] == '.',
                forall|k: int| from <= k < j ==> is_digit(text@[k]),
                zeros <==> forall|k: int| from <= k < j ==> text@[k] == '0',
            decreases len - j,
        {
            let c = text.get_char(j);
            if !is_digit_char(c) {
                proof {
                    let tail = text@.subrange(from as int, len as int);
                    assert(tail[j - from] == text@[j as int]);
                    assert(!all_digits(tail));
                }
                return SizeReading::Unfit;
            }
            if c != '0' {
                zeros = false;
            }
            j += 1;
        }
        proof {
            let tail = text@.subrange(from as int, len as int);
            assert(all_digits(tail));
            assert(zeros <==> all_zeros(tail)) by {
                if zeros {
                    assert(all_zeros(tail));
                } else {
                    let k = choose|k: int| from <= k < len && text@[k] != '0';
                    assert(tail[k - from] == text@[k]);
                }
            }
        }
    }
    if !large && total == 0 {
        SizeReading::BelowOne
    } else if !large && zeros {
        SizeReading::Size(total as u32)
    } else {
        SizeReading::Unfit
    }
}

} // verus!
