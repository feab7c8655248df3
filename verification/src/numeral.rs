//! Unsigned decimal numerals.

use crate::laws::{
    lemma_consuming_parser_advances, lemma_decimal_value_grows, lemma_many_digits,
    lemma_natural_is_digits_assembled, lemma_sat_consumes_one,
};
use crate::model::{
    computes, decimal_u32, decimal_value, digit_class, implements, spec_digit, spec_natural,
    spec_ret_checked, spec_some,
};
use crate::outcome::ParseOutcome;
use crate::primitive::digit;
use crate::repetition::some;
use crate::sequencing::ret_checked;
use crate::trusted::is_digit;
use vstd::prelude::*;

verus! {

/// The number that `digits` denotes in base ten, most significant digit
/// first, or `None` where it does not fit 32 bits.
pub fn assemble(digits: Vec<char>) -> (number: Option<u32>)
    requires
        forall|k: int| 0 <= k < digits@.len() ==> is_digit(#[trigger] digits@[k]),
    ensures
        number == decimal_u32()(digits@),
{
    let mut value: u32 = 0;
    let mut done: usize = 0;
    assert(digits@.take(0) =~= Seq::empty());
    while done < digits.len()
        invariant
            done <= digits@.len(),
            value == decimal_value(digits@.take(done as int)),
            forall|k: int| 0 <= k < digits@.len() ==> is_digit(#[trigger] digits@[k]),
        decreases digits@.len() - done,
    {
        let c: char = digits[done];
        assert(is_digit(digits@[done as int]));
        let d: u32 = c as u32 - '0' as u32;
        proof {
            let upto = digits@.take(done + 1);
            assert(upto.drop_last() =~= digits@.take(done as int));
            assert(upto.last() == c);
            assert(decimal_value(upto) == value * 10 + d);
            lemma_decimal_value_grows(digits@, done + 1);
        }
        let next: Option<u32> = match value.checked_mul(10) {
            Some(shifted) => shifted.checked_add(d),
            None => None,
        };
        match next {
            Some(total) => {
                value = total;
            },
            None => {
                return None;
            },
        }
        done = done + 1;
    }
    assert(digits@.take(done as int) =~= digits@);
    Some(value)
}

/// The parser of an unsigned decimal numeral: it consumes the digits at the
/// start of the input, as far as they go, and succeeds with the number they
/// denote. It fails where the input starts with no digit, and reports a
/// numeric overflow where the number does not fit 32 bits.
pub fn natural<'a>() -> (r: impl Fn(&'a str) -> ParseOutcome<u32, &'a str>)
    ensures
        forall|input: &'a str| #[trigger] call_requires(r, (input,)),
        implements(r, spec_natural()),
{
    let one = digit();
    proof {
        lemma_sat_consumes_one(digit_class());
        lemma_consuming_parser_advances(one, spec_digit());
    }
    let digits = some(one);
    assert(implements(digits, spec_some(spec_digit())));
    let value_of = |found: Vec<char>| -> (number: Option<u32>)
        requires
            forall|k: int| 0 <= k < found@.len() ==> is_digit(#[trigger] found@[k]),
        ensures
            number == decimal_u32()(found@),
        { assemble(found) };
    assert(computes(value_of, decimal_u32())) by {
        assert forall|found: Vec<char>, number: Option<u32>| #[trigger]
            call_ensures(value_of, (found,), number) implies number.deep_view() == decimal_u32()(
            found.deep_view(),
        ) by {
            assert(found.deep_view() =~= found@);
        }
    }
    let r = ret_checked(digits, value_of);
    assert forall|input: &'a str| #[trigger] call_requires(r, (input,)) by {
        assert forall|found: Vec<char>, rest: &'a str|
            call_ensures(digits, (input,), ParseOutcome::Success(found, rest)) implies call_requires(
            value_of,
            (found,),
        ) by {
            assert(ParseOutcome::<Vec<char>, &str>::Success(found, rest).deep_view() == spec_some(
                spec_digit(),
            )(input@));
            lemma_many_digits(input@);
            assert(found.deep_view() =~= found@);
        }
    }
    assert forall|input: &'a str, o: ParseOutcome<u32, &'a str>| #[trigger]
        call_ensures(r, (input,), o) implies o.deep_view() == spec_natural()(input@) by {
        assert(implements(r, spec_ret_checked(spec_some(spec_digit()), decimal_u32())));
        lemma_natural_is_digits_assembled(input@);
    }
    r
}

} // verus!
