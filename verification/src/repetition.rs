//! Applying a parser again and again.

use crate::model::{
    accepts_upto, advances, implements, many_outcome, prepend, spec_many, spec_some, SpecParser,
};
use crate::outcome::ParseOutcome;
use vstd::prelude::*;

verus! {

/// The parser that applies `parser` to the input, then to what it left, and
/// so on until it fails, and succeeds with the values collected, in order,
/// and the text at the point of that failure. It never fails itself; with no
/// success of `parser` the values are empty.
///
/// The returned parser may be run where `parser` may be run and makes
/// progress: a `parser` that succeeds without consuming would repeat forever.
pub fn many<'a, T: DeepView, P>(parser: P) -> (r: impl Fn(&'a str) -> ParseOutcome<Vec<T>, &'a str>) where
    P: Fn(&'a str) -> ParseOutcome<T, &'a str>,

    ensures
        forall|input: &'a str|
            accepts_upto(parser, input@.len()) && advances(parser) ==> #[trigger] call_requires(
                r,
                (input,),
            ),
        forall|sp: SpecParser<T::V>| #[trigger]
            implements(parser, sp) ==> implements(r, spec_many(sp)),
        forall|input: &'a str, o: ParseOutcome<Vec<T>, &'a str>| #[trigger]
            call_ensures(r, (input,), o) ==> !(o is Failure),
{
    move |input: &'a str| -> (o: ParseOutcome<Vec<T>, &'a str>)
        requires
            accepts_upto(parser, input@.len()),
            advances(parser),
        ensures
            forall|sp: SpecParser<T::V>| #[trigger]
                implements(parser, sp) ==> o.deep_view() == many_outcome(sp, input@),
            !(o is Failure),
        {
            let mut results: Vec<T> = Vec::new();
            let mut rest: &'a str = input;
            let mut overflow: bool = false;
            assert(results.deep_view() =~= Seq::empty());
            loop
                invariant_except_break
                    !overflow,
                    rest@.len() <= input@.len(),
                    accepts_upto(parser, input@.len()),
                    advances(parser),
                    forall|sp: SpecParser<T::V>| #[trigger]
                        implements(parser, sp) ==> many_outcome(sp, input@) == prepend(
                            results.deep_view(),
                            many_outcome(sp, rest@),
                        ),
                ensures
                    forall|sp: SpecParser<T::V>| #[trigger]
                        implements(parser, sp) ==> many_outcome(sp, input@) == (if overflow {
                            ParseOutcome::NumericOverflow
                        } else {
                            ParseOutcome::Success(results.deep_view(), rest@)
                        }),
                decreases rest@.len(),
            {
                let ghost collected = results.deep_view();
                let ghost here = rest@;
                match parser(rest) {
                    ParseOutcome::Success(value, next) => {
                        let ghost value_view = value.deep_view();
                        results.push(value);
                        rest = next;
                        assert(results.deep_view() =~= collected + seq![value_view]);
                        assert forall|sp: SpecParser<T::V>| #[trigger]
                            implements(parser, sp) implies many_outcome(sp, input@)
                            == prepend(
                            results.deep_view(),
                            many_outcome(sp, rest@),
                        ) by {
                            assert(sp(here) == ParseOutcome::<T::V, Seq<char>>::Success(value_view, rest@));
                            let tail = many_outcome(sp, rest@);
                            if let ParseOutcome::Success(values, last) = tail {
                                assert(collected + (seq![value_view] + values) =~= (collected
                                    + seq![value_view]) + values);
                            }
                        }
                    },
                    ParseOutcome::Failure => {
                        assert forall|sp: SpecParser<T::V>| #[trigger]
                            implements(parser, sp) implies many_outcome(sp, input@)
                            == ParseOutcome::<Seq<T::V>, Seq<char>>::Success(results.deep_view(), rest@) by {
                            assert(sp(here) == ParseOutcome::<T::V, Seq<char>>::Failure);
                            assert(collected + Seq::<T::V>::empty() =~= collected);
                        }
                        break ;
                    },
                    ParseOutcome::NumericOverflow => {
                        overflow = true;
                        assert forall|sp: SpecParser<T::V>| #[trigger]
                            implements(parser, sp) implies many_outcome(sp, input@)
                            == ParseOutcome::<Seq<T::V>, Seq<char>>::NumericOverflow by {
                            assert(sp(here) == ParseOutcome::<T::V, Seq<char>>::NumericOverflow);
                        }
                        break ;
                    },
                }
            }
            if overflow {
                ParseOutcome::NumericOverflow
            } else {
                ParseOutcome::Success(results, rest)
            }
        }
}

/// The parser that applies `parser` as [`many`] does, but fails where `many`
/// would have collected nothing. Where it succeeds it returns what `many`
/// returns.
pub fn some<'a, T: DeepView, P>(parser: P) -> (r: impl Fn(&'a str) -> ParseOutcome<Vec<T>, &'a str>) where
    P: Fn(&'a str) -> ParseOutcome<T, &'a str>,

    ensures
        forall|input: &'a str|
            accepts_upto(parser, input@.len()) && advances(parser) ==> #[trigger] call_requires(
                r,
                (input,),
            ),
        forall|sp: SpecParser<T::V>| #[trigger]
            implements(parser, sp) ==> implements(r, spec_some(sp)),
{
    let ghost first = parser;
    let repeated = many(parser);
    move |input: &'a str| -> (o: ParseOutcome<Vec<T>, &'a str>)
        requires
            accepts_upto(first, input@.len()),
            advances(first),
        ensures
            forall|sp: SpecParser<T::V>| #[trigger]
                implements(first, sp) ==> o.deep_view() == spec_some(sp)(input@),
        {
            let found = repeated(input);
            assert forall|sp: SpecParser<T::V>| #[trigger] implements(first, sp) implies found.deep_view()
                == many_outcome(sp, input@) by {
                assert(implements(repeated, spec_many(sp)));
            }
            match found {
                ParseOutcome::Success(results, rest) => {
                    if results.is_empty() {
                        ParseOutcome::Failure
                    } else {
                        ParseOutcome::Success(results, rest)
                    }
                },
                ParseOutcome::Failure => ParseOutcome::Failure,
                ParseOutcome::NumericOverflow => ParseOutcome::NumericOverflow,
            }
        }
}

} // verus!
