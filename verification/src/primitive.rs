//! Parsers that consume a single character.

use crate::model::{
    decides, digit_class, equals, implements, spec_char, spec_digit, spec_item, spec_sat,
};
use crate::outcome::ParseOutcome;
use crate::trusted::is_digit;
use vstd::prelude::*;

verus! {

/// The parser that consumes one character: it succeeds with the first
/// character and the text after it, and fails on the empty text.
pub fn item<'a>() -> (r: impl Fn(&'a str) -> ParseOutcome<char, &'a str>)
    ensures
        forall|input: &'a str| #[trigger] call_requires(r, (input,)),
        implements(r, spec_item()),
{
    |input: &'a str| -> (o: ParseOutcome<char, &'a str>)
        ensures
            o.deep_view() == spec_item()(input@),
        {
            let mut chars = input.chars();
            match chars.next() {
                Some(c) => ParseOutcome::Success(c, chars.as_str()),
                None => ParseOutcome::Failure,
            }
        }
}

/// The parser that consumes one character if `predicate` holds of it, and
/// fails, consuming nothing, if it does not or if the text is empty.
pub fn sat<'a, F>(predicate: F) -> (r: impl Fn(&'a str) -> ParseOutcome<char, &'a str>) where
    F: Fn(char) -> bool,

    ensures
        forall|input: &'a str|
            (input@.len() > 0 ==> call_requires(predicate, (input@[0],))) ==> #[trigger] call_requires(
                r,
                (input,),
            ),
        forall|pred: spec_fn(char) -> bool| #[trigger]
            decides(predicate, pred) ==> implements(r, spec_sat(pred)),
{
    move |input: &'a str| -> (o: ParseOutcome<char, &'a str>)
        requires
            input@.len() > 0 ==> call_requires(predicate, (input@[0],)),
        ensures
            forall|pred: spec_fn(char) -> bool| #[trigger]
                decides(predicate, pred) ==> o.deep_view() == spec_sat(pred)(input@),
        {
            match item()(input) {
                ParseOutcome::Success(c, rest) => {
                    if predicate(c) {
                        ParseOutcome::Success(c, rest)
                    } else {
                        ParseOutcome::Failure
                    }
                },
                ParseOutcome::Failure => ParseOutcome::Failure,
                ParseOutcome::NumericOverflow => ParseOutcome::NumericOverflow,
            }
        }
}

/// The parser that consumes one ASCII digit.
pub fn digit<'a>() -> (r: impl Fn(&'a str) -> ParseOutcome<char, &'a str>)
    ensures
        forall|input: &'a str| #[trigger] call_requires(r, (input,)),
        implements(r, spec_digit()),
{
    let ascii_digit = |c: char| -> (b: bool)
        ensures
            b == is_digit(c),
        { c.is_ascii_digit() };
    assert(decides(ascii_digit, digit_class()));
    sat(ascii_digit)
}

/// The parser that consumes the character `target` and nothing else.
pub fn char_parser<'a>(target: char) -> (r: impl Fn(&'a str) -> ParseOutcome<char, &'a str>)
    ensures
        forall|input: &'a str| #[trigger] call_requires(r, (input,)),
        implements(r, spec_char(target)),
{
    let is_target = move |c: char| -> (b: bool)
        ensures
            b == (c == target),
        { c == target };
    assert(decides(is_target, equals(target)));
    sat(is_target)
}

} // verus!
