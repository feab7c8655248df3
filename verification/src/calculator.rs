//! What a calculator shows for a line of input.

use crate::grammar::{expr, spec_expr};
use crate::outcome::ParseOutcome;
use vstd::prelude::*;

verus! {

/// The longest line, in characters, that [`calculate`] reads. The parser
/// descends once for every operator and every parenthesis that is open, so
/// this also bounds how deep it descends.
pub const MAX_LINE: usize = 1024;

/// How far a line of input is an arithmetic expression.
#[derive(Debug, PartialEq, Eq)]
pub enum Reading<R> {
    /// The whole line is an expression, and this is its value.
    Value(u32),
    /// The line starts with an expression; this, not empty, follows it.
    Remains(R),
    /// The line does not start with an expression.
    Invalid,
    /// A number in the line, or a sum or product, exceeds 32 bits.
    Overflow,
    /// The line has more than [`MAX_LINE`] characters and was not read.
    TooLong,
}

impl<R: DeepView> DeepView for Reading<R> {
    type V = Reading<R::V>;

    open spec fn deep_view(&self) -> Reading<R::V> {
        match self {
            Reading::Value(value) => Reading::Value(*value),
            Reading::Remains(rest) => Reading::Remains(rest.deep_view()),
            Reading::Invalid => Reading::Invalid,
            Reading::Overflow => Reading::Overflow,
            Reading::TooLong => Reading::TooLong,
        }
    }
}

/// The reading of the line `s`: the value of the expression that it is, or
/// what follows the expression that it starts with.
pub open spec fn spec_calculate(s: Seq<char>) -> Reading<Seq<char>> {
    if s.len() > MAX_LINE {
        Reading::TooLong
    } else {
        match spec_expr(s) {
            ParseOutcome::Success(value, rest) => if rest.len() == 0 {
                Reading::Value(value)
            } else {
                Reading::Remains(rest)
            },
            ParseOutcome::Failure => Reading::Invalid,
            ParseOutcome::NumericOverflow => Reading::Overflow,
        }
    }
}

/// Reads `line` as an arithmetic expression and tells the three ways this
/// can end apart: a value, where the whole line is an expression; the
/// text that is left, where only a beginning of the line is one; and no
/// expression at all. A number that is too large, and a line that is too
/// long to be read, are told apart from these.
pub fn calculate<'a>(line: &'a str) -> (reading: Reading<&'a str>)
    ensures
        reading.deep_view() == spec_calculate(line@),
{
    if line.unicode_len() > MAX_LINE {
        return Reading::TooLong;
    }
    match expr(line) {
        ParseOutcome::Success(value, rest) => {
            if rest.is_empty() {
                Reading::Value(value)
            } else {
                Reading::Remains(rest)
            }
        },
        ParseOutcome::Failure => Reading::Invalid,
        ParseOutcome::NumericOverflow => Reading::Overflow,
    }
}

} // verus!
