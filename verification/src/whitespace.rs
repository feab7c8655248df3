//! White space, and parsers that tolerate it around what they parse.

use crate::laws::{lemma_consuming_parser_advances, lemma_sat_consumes_one, lemma_space_skips};
use crate::model::{
    decides, implements, skip_whitespace, space_class, spec_sat, spec_space, spec_token,
    SpecParser,
};
use crate::outcome::ParseOutcome;
use crate::primitive::sat;
use crate::repetition::many;
use crate::trusted::white_space;
use vstd::prelude::*;

verus! {

/// The parser that consumes the white space at the start of the input, as
/// far as it goes, and returns it. It always succeeds.
pub fn space<'a>() -> (r: impl Fn(&'a str) -> ParseOutcome<Vec<char>, &'a str>)
    ensures
        forall|input: &'a str| #[trigger] call_requires(r, (input,)),
        implements(r, spec_space()),
        forall|input: &'a str, o: ParseOutcome<Vec<char>, &'a str>| #[trigger]
            call_ensures(r, (input,), o) ==> o is Success,
{
    let blank = |c: char| -> (b: bool)
        ensures
            b == white_space(c),
        { c.is_whitespace() };
    assert(decides(blank, space_class()));
    let one = sat(blank);
    assert(implements(one, spec_sat(space_class())));
    proof {
        lemma_sat_consumes_one(space_class());
        lemma_consuming_parser_advances(one, spec_sat(space_class()));
    }
    let r = many(one);
    assert forall|input: &'a str, o: ParseOutcome<Vec<char>, &'a str>| #[trigger]
        call_ensures(r, (input,), o) implies o is Success by {
        lemma_space_skips(input@);
        assert(o.deep_view() == spec_space()(input@));
    }
    r
}

/// The parser that skips white space, runs `parser`, and, where it
/// succeeds, skips the white space that follows. It fails exactly where
/// `parser` fails after the leading white space.
pub fn token<'a, T: DeepView, P>(parser: P) -> (r: impl Fn(&'a str) -> ParseOutcome<T, &'a str>) where
    P: Fn(&'a str) -> ParseOutcome<T, &'a str>,

    ensures
        forall|input: &'a str|
            (forall|start: &'a str|
                start@ == skip_whitespace(input@) ==> call_requires(parser, (start,)))
                ==> #[trigger] call_requires(r, (input,)),
        forall|sp: SpecParser<T::V>| #[trigger]
            implements(parser, sp) ==> implements(r, spec_token(sp)),
{
    let skip = space();
    move |input: &'a str| -> (o: ParseOutcome<T, &'a str>)
        requires
            forall|start: &'a str|
                start@ == skip_whitespace(input@) ==> call_requires(parser, (start,)),
        ensures
            forall|sp: SpecParser<T::V>| #[trigger]
                implements(parser, sp) ==> o.deep_view() == spec_token(sp)(input@),
        {
            proof {
                lemma_space_skips(input@);
            }
            match skip(input) {
                ParseOutcome::Success(_, start) => match parser(start) {
                    ParseOutcome::Success(value, after) => {
                        proof {
                            lemma_space_skips(after@);
                        }
                        match skip(after) {
                            ParseOutcome::Success(_, rest) => ParseOutcome::Success(value, rest),
                            ParseOutcome::Failure => ParseOutcome::Failure,
                            ParseOutcome::NumericOverflow => ParseOutcome::NumericOverflow,
                        }
                    },
                    ParseOutcome::Failure => ParseOutcome::Failure,
                    ParseOutcome::NumericOverflow => ParseOutcome::NumericOverflow,
                },
                ParseOutcome::Failure => ParseOutcome::Failure,
                ParseOutcome::NumericOverflow => ParseOutcome::NumericOverflow,
            }
        }
}

} // verus!
