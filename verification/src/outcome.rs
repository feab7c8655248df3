use vstd::prelude::*;

verus! {

/// What a parser returns: a value together with the text left over, or one of
/// two kinds of failure.
///
/// `Failure` carries no diagnostic. An alternation recovers from it by trying
/// its next branch. `NumericOverflow` says that a number in the input does not
/// fit the integer type it is parsed into; no combinator recovers from it.
#[derive(Debug, PartialEq, Eq)]
pub enum ParseOutcome<T, R> {
    /// The parsed value and the unconsumed rest of the input.
    Success(T, R),
    /// The input does not match.
    Failure,
    /// The input matches, but denotes a number that is out of range.
    NumericOverflow,
}

impl<T: DeepView, R: DeepView> DeepView for ParseOutcome<T, R> {
    type V = ParseOutcome<T::V, R::V>;

    open spec fn deep_view(&self) -> ParseOutcome<T::V, R::V> {
        match self {
            ParseOutcome::Success(value, rest) => ParseOutcome::Success(
                value.deep_view(),
                rest.deep_view(),
            ),
            ParseOutcome::Failure => ParseOutcome::Failure,
            ParseOutcome::NumericOverflow => ParseOutcome::NumericOverflow,
        }
    }
}

} // verus!
