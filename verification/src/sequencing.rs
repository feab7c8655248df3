//! Running parsers one after the other, choosing between them, and
//! transforming what they return.

use crate::model::{
    computes, implements, spec_alt, spec_ret, spec_ret_checked, spec_seq, SpecParser,
};
use crate::outcome::ParseOutcome;
use vstd::prelude::*;

verus! {

/// The parser that runs `parser1` and then `parser2` on what `parser1` left.
/// It succeeds with the pair of their values and what `parser2` left, and
/// fails as soon as one of them fails.
pub fn seq<'a, S: DeepView, T: DeepView, P, Q>(parser1: P, parser2: Q) -> (r: impl Fn(
    &'a str,
) -> ParseOutcome<(S, T), &'a str>) where
    P: Fn(&'a str) -> ParseOutcome<S, &'a str>,
    Q: Fn(&'a str) -> ParseOutcome<T, &'a str>,

    ensures
        forall|input: &'a str|
            call_requires(parser1, (input,)) && (forall|first: S, middle: &'a str|
                call_ensures(parser1, (input,), ParseOutcome::Success(first, middle))
                    ==> call_requires(parser2, (middle,))) ==> #[trigger] call_requires(r, (input,)),
        forall|sp1: SpecParser<S::V>, sp2: SpecParser<T::V>|
            #[trigger] implements(parser1, sp1) && #[trigger] implements(parser2, sp2) ==> implements(
                r,
                spec_seq(sp1, sp2),
            ),
{
    move |input: &'a str| -> (o: ParseOutcome<(S, T), &'a str>)
        requires
            call_requires(parser1, (input,)),
            forall|first: S, middle: &'a str|
                call_ensures(parser1, (input,), ParseOutcome::Success(first, middle))
                    ==> call_requires(parser2, (middle,)),
        ensures
            forall|sp1: SpecParser<S::V>, sp2: SpecParser<T::V>|
                #[trigger] implements(parser1, sp1) && #[trigger] implements(parser2, sp2)
                    ==> o.deep_view() == spec_seq(sp1, sp2)(input@),
        {
            match parser1(input) {
                ParseOutcome::Success(first, middle) => match parser2(middle) {
                    ParseOutcome::Success(second, rest) => ParseOutcome::Success(
                        (first, second),
                        rest,
                    ),
                    ParseOutcome::Failure => ParseOutcome::Failure,
                    ParseOutcome::NumericOverflow => ParseOutcome::NumericOverflow,
                },
                ParseOutcome::Failure => ParseOutcome::Failure,
                ParseOutcome::NumericOverflow => ParseOutcome::NumericOverflow,
            }
        }
}

/// The parser that tries `parser1` and, where it fails, `parser2` on the
/// same input. The first alternative that succeeds wins, whatever the other
/// would have consumed. A numeric overflow in `parser1` is final.
pub fn alt<'a, T: DeepView, P, Q>(parser1: P, parser2: Q) -> (r: impl Fn(
    &'a str,
) -> ParseOutcome<T, &'a str>) where
    P: Fn(&'a str) -> ParseOutcome<T, &'a str>,
    Q: Fn(&'a str) -> ParseOutcome<T, &'a str>,

    ensures
        forall|input: &'a str|
            call_requires(parser1, (input,)) && (call_ensures(
                parser1,
                (input,),
                ParseOutcome::Failure,
            ) ==> call_requires(parser2, (input,))) ==> #[trigger] call_requires(r, (input,)),
        forall|sp1: SpecParser<T::V>, sp2: SpecParser<T::V>|
            #[trigger] implements(parser1, sp1) && #[trigger] implements(parser2, sp2) ==> implements(
                r,
                spec_alt(sp1, sp2),
            ),
{
    move |input: &'a str| -> (o: ParseOutcome<T, &'a str>)
        requires
            call_requires(parser1, (input,)),
            call_ensures(parser1, (input,), ParseOutcome::Failure) ==> call_requires(
                parser2,
                (input,),
            ),
        ensures
            forall|sp1: SpecParser<T::V>, sp2: SpecParser<T::V>|
                #[trigger] implements(parser1, sp1) && #[trigger] implements(parser2, sp2)
                    ==> o.deep_view() == spec_alt(sp1, sp2)(input@),
        {
            match parser1(input) {
                ParseOutcome::Failure => parser2(input),
                decided => decided,
            }
        }
}

/// The parser that runs `parser` and applies `converter` to the value of a
/// success, leaving the rest of the input as `parser` left it.
pub fn ret<'a, S: DeepView, T: DeepView, P, F>(parser: P, converter: F) -> (r: impl Fn(
    &'a str,
) -> ParseOutcome<T, &'a str>) where
    P: Fn(&'a str) -> ParseOutcome<S, &'a str>,
    F: Fn(S) -> T,

    ensures
        forall|input: &'a str|
            call_requires(parser, (input,)) && (forall|value: S, rest: &'a str|
                call_ensures(parser, (input,), ParseOutcome::Success(value, rest))
                    ==> call_requires(converter, (value,))) ==> #[trigger] call_requires(r, (input,)),
        forall|sp: SpecParser<S::V>, sf: spec_fn(S::V) -> T::V|
            #[trigger] implements(parser, sp) && #[trigger] computes(converter, sf) ==> implements(
                r,
                spec_ret(sp, sf),
            ),
{
    move |input: &'a str| -> (o: ParseOutcome<T, &'a str>)
        requires
            call_requires(parser, (input,)),
            forall|value: S, rest: &'a str|
                call_ensures(parser, (input,), ParseOutcome::Success(value, rest))
                    ==> call_requires(converter, (value,)),
        ensures
            forall|sp: SpecParser<S::V>, sf: spec_fn(S::V) -> T::V|
                #[trigger] implements(parser, sp) && #[trigger] computes(converter, sf)
                    ==> o.deep_view() == spec_ret(sp, sf)(input@),
        {
            match parser(input) {
                ParseOutcome::Success(value, rest) => ParseOutcome::Success(converter(value), rest),
                ParseOutcome::Failure => ParseOutcome::Failure,
                ParseOutcome::NumericOverflow => ParseOutcome::NumericOverflow,
            }
        }
}

/// Like [`ret`], for a `converter` into a number type that may be too small:
/// where `converter` returns `None`, the outcome is a numeric overflow.
pub fn ret_checked<'a, S: DeepView, T: DeepView, P, F>(parser: P, converter: F) -> (r: impl Fn(
    &'a str,
) -> ParseOutcome<T, &'a str>) where
    P: Fn(&'a str) -> ParseOutcome<S, &'a str>,
    F: Fn(S) -> Option<T>,

    ensures
        forall|input: &'a str|
            call_requires(parser, (input,)) && (forall|value: S, rest: &'a str|
                call_ensures(parser, (input,), ParseOutcome::Success(value, rest))
                    ==> call_requires(converter, (value,))) ==> #[trigger] call_requires(r, (input,)),
        forall|sp: SpecParser<S::V>, sf: spec_fn(S::V) -> Option<T::V>|
            #[trigger] implements(parser, sp) && #[trigger] computes(converter, sf) ==> implements(
                r,
                spec_ret_checked(sp, sf),
            ),
{
    move |input: &'a str| -> (o: ParseOutcome<T, &'a str>)
        requires
            call_requires(parser, (input,)),
            forall|value: S, rest: &'a str|
                call_ensures(parser, (input,), ParseOutcome::Success(value, rest))
                    ==> call_requires(converter, (value,)),
        ensures
            forall|sp: SpecParser<S::V>, sf: spec_fn(S::V) -> Option<T::V>|
                #[trigger] implements(parser, sp) && #[trigger] computes(converter, sf)
                    ==> o.deep_view() == spec_ret_checked(sp, sf)(input@),
        {
            match parser(input) {
                ParseOutcome::Success(value, rest) => match converter(value) {
                    Some(converted) => ParseOutcome::Success(converted, rest),
                    None => ParseOutcome::NumericOverflow,
                },
                ParseOutcome::Failure => ParseOutcome::Failure,
                ParseOutcome::NumericOverflow => ParseOutcome::NumericOverflow,
            }
        }
}

} // verus!
