//! The mathematical model of a parser: a function from a sequence of
//! characters to an outcome over sequences of characters.

use crate::outcome::ParseOutcome;
use crate::trusted::{is_digit, white_space};
use vstd::prelude::*;

verus! {

/// The outcome of a model parser: the value's view and the remaining text.
pub type SpecOutcome<V> = ParseOutcome<V, Seq<char>>;

/// A model parser.
pub type SpecParser<V> = spec_fn(Seq<char>) -> SpecOutcome<V>;

/// `rest` is what is left of `whole` after dropping some of its leading
/// characters (possibly none).
pub open spec fn is_suffix(rest: Seq<char>, whole: Seq<char>) -> bool {
    rest.len() <= whole.len() && whole.skip(whole.len() - rest.len()) == rest
}

/// The executable parser `p` computes what the model `sp` says: whatever `p`
/// returns on an input, its view is the model's outcome on the input's view.
pub open spec fn implements<'a, T: DeepView, P: Fn(&'a str) -> ParseOutcome<T, &'a str>>(
    p: P,
    sp: SpecParser<T::V>,
) -> bool {
    forall|input: &'a str, o: ParseOutcome<T, &'a str>| #[trigger]
        call_ensures(p, (input,), o) ==> o.deep_view() == sp(input@)
}

/// The executable predicate `f` decides the property `pred` of characters.
pub open spec fn decides<F: Fn(char) -> bool>(f: F, pred: spec_fn(char) -> bool) -> bool {
    forall|c: char, b: bool| #[trigger] call_ensures(f, (c,), b) ==> b == pred(c)
}

/// The executable transform `f` computes the function `sf` on views.
pub open spec fn computes<S: DeepView, T: DeepView, F: Fn(S) -> T>(
    f: F,
    sf: spec_fn(S::V) -> T::V,
) -> bool {
    forall|s: S, t: T| #[trigger] call_ensures(f, (s,), t) ==> t.deep_view() == sf(s.deep_view())
}

/// Every parser that the builder `build` may return computes what the model
/// `sp` says.
pub open spec fn yields<'a, T: DeepView, P: Fn(&'a str) -> ParseOutcome<T, &'a str>, B: Fn() -> P>(
    build: B,
    sp: SpecParser<T::V>,
) -> bool {
    forall|p: P| #[trigger] call_ensures(build, (), p) ==> implements(p, sp)
}

/// Consumes one character, whatever it is; fails on the empty text.
pub open spec fn spec_item() -> SpecParser<char> {
    |s: Seq<char>|
        if s.len() > 0 {
            ParseOutcome::Success(s[0], s.drop_first())
        } else {
            ParseOutcome::Failure
        }
}

/// Consumes one character if it satisfies `pred`; fails otherwise.
pub open spec fn spec_sat(pred: spec_fn(char) -> bool) -> SpecParser<char> {
    |s: Seq<char>|
        if s.len() > 0 && pred(s[0]) {
            ParseOutcome::Success(s[0], s.drop_first())
        } else {
            ParseOutcome::Failure
        }
}

/// The property of being the character `target`.
pub open spec fn equals(target: char) -> spec_fn(char) -> bool {
    |c: char| c == target
}

/// The property of being an ASCII digit.
pub open spec fn digit_class() -> spec_fn(char) -> bool {
    |c: char| is_digit(c)
}

/// The property of being white space.
pub open spec fn space_class() -> spec_fn(char) -> bool {
    |c: char| white_space(c)
}

/// Consumes the character `target`.
pub open spec fn spec_char(target: char) -> SpecParser<char> {
    spec_sat(equals(target))
}

/// Consumes one ASCII digit.
pub open spec fn spec_digit() -> SpecParser<char> {
    spec_sat(digit_class())
}

/// Puts the values `front` before those of a repetition's outcome.
pub open spec fn prepend<V>(front: Seq<V>, o: SpecOutcome<Seq<V>>) -> SpecOutcome<Seq<V>> {
    match o {
        ParseOutcome::Success(values, rest) => ParseOutcome::Success(front + values, rest),
        ParseOutcome::Failure => ParseOutcome::Failure,
        ParseOutcome::NumericOverflow => ParseOutcome::NumericOverflow,
    }
}

/// What repeating `sp` on `s` gives: the values of the successive successes,
/// in order, and the text at which `sp` first fails. A success of `sp` that
/// consumes nothing ends the repetition like a failure does.
pub open spec fn many_outcome<V>(sp: SpecParser<V>, s: Seq<char>) -> SpecOutcome<Seq<V>>
    decreases s.len(),
{
    match sp(s) {
        ParseOutcome::Success(value, rest) => if rest.len() < s.len() {
            prepend(seq![value], many_outcome(sp, rest))
        } else {
            ParseOutcome::Success(Seq::empty(), s)
        },
        ParseOutcome::Failure => ParseOutcome::Success(Seq::empty(), s),
        ParseOutcome::NumericOverflow => ParseOutcome::NumericOverflow,
    }
}

/// Zero or more repetitions of `sp`.
pub open spec fn spec_many<V>(sp: SpecParser<V>) -> SpecParser<Seq<V>> {
    |s: Seq<char>| many_outcome(sp, s)
}

/// One or more repetitions of `sp`.
pub open spec fn spec_some<V>(sp: SpecParser<V>) -> SpecParser<Seq<V>> {
    |s: Seq<char>|
        match many_outcome(sp, s) {
            ParseOutcome::Success(values, rest) => if values.len() == 0 {
                ParseOutcome::Failure
            } else {
                ParseOutcome::Success(values, rest)
            },
            ParseOutcome::Failure => ParseOutcome::Failure,
            ParseOutcome::NumericOverflow => ParseOutcome::NumericOverflow,
        }
}

/// `sp`, then `sq` on what `sp` left.
pub open spec fn spec_seq<V, W>(sp: SpecParser<V>, sq: SpecParser<W>) -> SpecParser<(V, W)> {
    |s: Seq<char>|
        match sp(s) {
            ParseOutcome::Success(first, middle) => match sq(middle) {
                ParseOutcome::Success(second, rest) => ParseOutcome::Success((first, second), rest),
                ParseOutcome::Failure => ParseOutcome::Failure,
                ParseOutcome::NumericOverflow => ParseOutcome::NumericOverflow,
            },
            ParseOutcome::Failure => ParseOutcome::Failure,
            ParseOutcome::NumericOverflow => ParseOutcome::NumericOverflow,
        }
}

/// `sp`, or, where `sp` fails, `sq` on the same text.
pub open spec fn spec_alt<V>(sp: SpecParser<V>, sq: SpecParser<V>) -> SpecParser<V> {
    |s: Seq<char>|
        match sp(s) {
            ParseOutcome::Failure => sq(s),
            decided => decided,
        }
}

/// `sp` with `f` applied to the value of a success.
pub open spec fn spec_ret<V, W>(sp: SpecParser<V>, f: spec_fn(V) -> W) -> SpecParser<W> {
    |s: Seq<char>|
        match sp(s) {
            ParseOutcome::Success(value, rest) => ParseOutcome::Success(f(value), rest),
            ParseOutcome::Failure => ParseOutcome::Failure,
            ParseOutcome::NumericOverflow => ParseOutcome::NumericOverflow,
        }
}

/// `sp` with the partial transform `f` applied to the value of a success;
/// where `f` has no result, the outcome is a numeric overflow.
pub open spec fn spec_ret_checked<V, W>(sp: SpecParser<V>, f: spec_fn(V) -> Option<W>) -> SpecParser<W> {
    |s: Seq<char>|
        match sp(s) {
            ParseOutcome::Success(value, rest) => match f(value) {
                Some(converted) => ParseOutcome::Success(converted, rest),
                None => ParseOutcome::NumericOverflow,
            },
            ParseOutcome::Failure => ParseOutcome::Failure,
            ParseOutcome::NumericOverflow => ParseOutcome::NumericOverflow,
        }
}

/// `s` without its leading white space.
pub open spec fn skip_whitespace(s: Seq<char>) -> Seq<char>
    decreases s.len(),
{
    if s.len() > 0 && white_space(s[0]) {
        skip_whitespace(s.drop_first())
    } else {
        s
    }
}

/// Consumes the white space, if any, at the start of the text. Never fails.
pub open spec fn spec_space() -> SpecParser<Seq<char>> {
    spec_many(spec_sat(space_class()))
}

/// `sp` between optional white space: what stands before is skipped, and,
/// where `sp` succeeds, also what stands after.
pub open spec fn spec_token<V>(sp: SpecParser<V>) -> SpecParser<V> {
    |s: Seq<char>|
        match sp(skip_whitespace(s)) {
            ParseOutcome::Success(value, rest) => ParseOutcome::Success(value, skip_whitespace(rest)),
            ParseOutcome::Failure => ParseOutcome::Failure,
            ParseOutcome::NumericOverflow => ParseOutcome::NumericOverflow,
        }
}

/// The number that the digit `c` stands for; 0 for a character that is no
/// digit.
pub open spec fn digit_value(c: char) -> nat {
    if is_digit(c) {
        (c as nat - '0' as nat) as nat
    } else {
        0
    }
}

/// The number that `digits` denotes in base ten, most significant digit
/// first.
pub open spec fn decimal_value(digits: Seq<char>) -> nat
    decreases digits.len(),
{
    if digits.len() == 0 {
        0
    } else {
        decimal_value(digits.drop_last()) * 10 + digit_value(digits.last())
    }
}

/// The number that `digits` denotes, where it fits 32 bits.
pub open spec fn decimal_u32() -> spec_fn(Seq<char>) -> Option<u32> {
    |digits: Seq<char>|
        if decimal_value(digits) <= u32::MAX {
            Some(decimal_value(digits) as u32)
        } else {
            None
        }
}

/// The digits at the start of `s`, as far as they go.
pub open spec fn leading_digits(s: Seq<char>) -> Seq<char>
    decreases s.len(),
{
    if s.len() > 0 && is_digit(s[0]) {
        seq![s[0]] + leading_digits(s.drop_first())
    } else {
        Seq::empty()
    }
}

/// An unsigned decimal numeral: the digits at the start of the text, as far
/// as they go. There must be one at least. The value is the number they
/// denote; a number beyond 32 bits is a numeric overflow.
pub open spec fn spec_natural() -> SpecParser<u32> {
    |s: Seq<char>|
        {
            let digits = leading_digits(s);
            if digits.len() == 0 {
                ParseOutcome::Failure
            } else if decimal_value(digits) > u32::MAX {
                ParseOutcome::NumericOverflow
            } else {
                ParseOutcome::Success(decimal_value(digits) as u32, s.skip(digits.len() as int))
            }
        }
}

/// The parser `p` may be run on every input of at most `n` characters.
pub open spec fn accepts_upto<'a, T, P: Fn(&'a str) -> ParseOutcome<T, &'a str>>(p: P, n: nat) -> bool {
    forall|input: &'a str| input@.len() <= n ==> #[trigger] call_requires(p, (input,))
}

/// The parser `p` may be run on every input of less than `n` characters.
pub open spec fn accepts_below<'a, T, P: Fn(&'a str) -> ParseOutcome<T, &'a str>>(p: P, n: nat) -> bool {
    forall|input: &'a str| input@.len() < n ==> #[trigger] call_requires(p, (input,))
}

/// Every success of the parser `p` consumes at least one character.
pub open spec fn advances<'a, T, P: Fn(&'a str) -> ParseOutcome<T, &'a str>>(p: P) -> bool {
    forall|input: &'a str, value: T, rest: &'a str| #[trigger]
        call_ensures(p, (input,), ParseOutcome::Success(value, rest)) ==> rest@.len() < input@.len()
}

} // verus!
