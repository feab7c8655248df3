//! The arithmetic grammar: unsigned numbers, parentheses, `+` and `*`.
//!
//! ```text
//! expr   = term '+' expr   |  term
//! term   = factor '*' term |  factor
//! factor = '(' expr ')'    |  natural
//! ```
//!
//! Every symbol on a right-hand side is read as a token, so white space may
//! stand around each of them. In each rule the form with the operator is
//! tried first: the other form would accept a beginning of every text that
//! the first accepts, and leave the operator unread. Both operators
//! associate to the right. A sum or product beyond 32 bits is a numeric
//! overflow, as a numeral beyond 32 bits is.
//!
//! The models of the rules are defined by recursion on the length of the
//! text: a rule consults the rule on its left only on texts that are no
//! longer, and every other rule only on shorter ones. The functions named
//! `..._upto` and `..._below` cut a rule off beyond such a length; that they
//! cut nothing off that matters is `lemma_grammar_equations` in
//! [`crate::laws`]. The parsers recur in step with their models.

use crate::laws::{
    leaves_suffix, lemma_expr_leaves_suffix, lemma_factor_leaves_suffix,
    lemma_sat_consumes_one, lemma_skip_whitespace_shrinks, lemma_term_leaves_suffix,
    lemma_token_leaves_suffix, respects_suffix,
};
use crate::memo::lazy;
use crate::model::{
    accepts_below, accepts_upto, computes, equals, implements, is_suffix, spec_alt, spec_char,
    spec_natural, spec_ret, spec_ret_checked, spec_seq, spec_token, yields, SpecOutcome,
    SpecParser,
};
use crate::numeral::natural;
use crate::outcome::ParseOutcome;
use crate::primitive::char_parser;
use crate::sequencing::{alt, ret, ret_checked};
use crate::whitespace::token;
use vstd::prelude::*;

verus! {

/// The sum of the two operands around a `+`, where it fits 32 bits.
pub open spec fn sum_of() -> spec_fn((u32, (char, u32))) -> Option<u32> {
    |v: (u32, (char, u32))|
        if v.0 + v.1.1 <= u32::MAX {
            Some((v.0 + v.1.1) as u32)
        } else {
            None
        }
}

/// The product of the two operands around a `*`, where it fits 32 bits.
pub open spec fn product_of() -> spec_fn((u32, (char, u32))) -> Option<u32> {
    |v: (u32, (char, u32))|
        if v.0 * v.1.1 <= u32::MAX {
            Some((v.0 * v.1.1) as u32)
        } else {
            None
        }
}

/// What stands between the parentheses.
pub open spec fn inner_of() -> spec_fn((char, (u32, char))) -> u32 {
    |v: (char, (u32, char))| v.1.0
}

/// `left operator right | left`, with the operands' values combined by
/// `combine`.
pub open spec fn operator_rule(
    left: SpecParser<u32>,
    operator: char,
    right: SpecParser<u32>,
    combine: spec_fn((u32, (char, u32))) -> Option<u32>,
) -> SpecParser<u32> {
    spec_alt(
        spec_ret_checked(
            spec_seq(spec_token(left), spec_seq(spec_token(spec_char(operator)), spec_token(right))),
            combine,
        ),
        spec_token(left),
    )
}

/// `'(' inner ')' | number`.
pub open spec fn operand_rule(inner: SpecParser<u32>, number: SpecParser<u32>) -> SpecParser<u32> {
    spec_alt(
        spec_ret(
            spec_seq(
                spec_token(spec_char('(')),
                spec_seq(spec_token(inner), spec_token(spec_char(')'))),
            ),
            inner_of(),
        ),
        spec_token(number),
    )
}

/// The rule `expr`, on texts shorter than `n`.
pub open spec fn expr_below(n: nat) -> SpecParser<u32>
    decreases n, 0int,
{
    |s: Seq<char>|
        if s.len() < n {
            spec_expr(s)
        } else {
            ParseOutcome::Failure
        }
}

/// The rule `term`, on texts shorter than `n`.
pub open spec fn term_below(n: nat) -> SpecParser<u32>
    decreases n, 0int,
{
    |s: Seq<char>|
        if s.len() < n {
            spec_term(s)
        } else {
            ParseOutcome::Failure
        }
}

/// The rule `factor`, on texts of at most `n` characters.
pub open spec fn factor_upto(n: nat) -> SpecParser<u32>
    decreases n, 2int,
{
    |s: Seq<char>|
        if s.len() <= n {
            spec_factor(s)
        } else {
            ParseOutcome::Failure
        }
}

/// The rule `term`, on texts of at most `n` characters.
pub open spec fn term_upto(n: nat) -> SpecParser<u32>
    decreases n, 4int,
{
    |s: Seq<char>|
        if s.len() <= n {
            spec_term(s)
        } else {
            ParseOutcome::Failure
        }
}

/// `factor = '(' expr ')' | natural`
pub open spec fn spec_factor(s: Seq<char>) -> SpecOutcome<u32>
    decreases s.len(), 1int,
{
    operand_rule(expr_below(s.len()), spec_natural())(s)
}

/// `term = factor '*' term | factor`
pub open spec fn spec_term(s: Seq<char>) -> SpecOutcome<u32>
    decreases s.len(), 3int,
{
    operator_rule(factor_upto(s.len()), '*', term_below(s.len()), product_of())(s)
}

/// `expr = term '+' expr | term`
pub open spec fn spec_expr(s: Seq<char>) -> SpecOutcome<u32>
    decreases s.len(), 5int,
{
    operator_rule(term_upto(s.len()), '+', expr_below(s.len()), sum_of())(s)
}

/// The rule `expr` as a model parser.
pub open spec fn expr_rule() -> SpecParser<u32> {
    |s: Seq<char>| spec_expr(s)
}

/// The rule `term` as a model parser.
pub open spec fn term_rule() -> SpecParser<u32> {
    |s: Seq<char>| spec_term(s)
}

/// The rule `factor` as a model parser.
pub open spec fn factor_rule() -> SpecParser<u32> {
    |s: Seq<char>| spec_factor(s)
}

/// The parser of `left operator right | left`: the operands' values combined
/// by `combine`, or the left operand alone where no operator and right
/// operand follow it. Each operand is a lazy parser, built from the rule it
/// stands for when the text first gets that far.
fn operator_parser<'a, L, R, F>(left: L, operator: char, right: R, combine: F) -> (r: impl Fn(
    &'a str,
) -> ParseOutcome<u32, &'a str>) where
    L: Copy + Fn(&'a str) -> ParseOutcome<u32, &'a str>,
    R: Copy + Fn(&'a str) -> ParseOutcome<u32, &'a str>,
    F: Fn((u32, (char, u32))) -> Option<u32>,

    requires
        forall|operands: (u32, (char, u32))| call_requires(combine, (operands,)),
    ensures
        forall|input: &'a str, sl: SpecParser<u32>|
            #[trigger] implements(left, sl) && respects_suffix(sl) && accepts_upto(
                left,
                input@.len(),
            ) && accepts_below(right, input@.len()) ==> #[trigger] call_requires(r, (input,)),
        forall|sl: SpecParser<u32>, sr: SpecParser<u32>, sf: spec_fn((u32, (char, u32))) -> Option<u32>|
            #[trigger] implements(left, sl) && #[trigger] implements(right, sr) && #[trigger] computes(
                combine,
                sf,
            ) ==> implements(r, operator_rule(sl, operator, sr, sf)),
{
    let build_left = move || -> (p: L)
        ensures
            p == left,
        { left };
    let build_right = move || -> (p: R)
        ensures
            p == right,
        { right };
    let build_alone = move || -> (p: L)
        ensures
            p == left,
        { left };
    let lazy_left = lazy(build_left);
    let lazy_right = lazy(build_right);
    let lazy_alone = lazy(build_alone);
    let first = token(lazy_left);
    let sign = token(char_parser(operator));
    let second = token(lazy_right);
    let tail = crate::sequencing::seq(sign, second);
    let both = crate::sequencing::seq(first, tail);
    let operation = ret_checked(both, combine);
    let alone = token(lazy_alone);
    let r = alt(operation, alone);
    assert forall|input: &'a str, sl: SpecParser<u32>|
        #[trigger] implements(left, sl) && respects_suffix(sl) && accepts_upto(left, input@.len())
            && accepts_below(right, input@.len()) implies #[trigger] call_requires(r, (input,)) by {
        lemma_skip_whitespace_shrinks(input@);
        assert(call_requires(alone, (input,)));
        assert(call_requires(first, (input,)));
        assert forall|value: u32, middle: &'a str|
            call_ensures(first, (input,), ParseOutcome::Success(value, middle)) implies call_requires(
            tail,
            (middle,),
        ) by {
            assert(yields(build_left, sl));
            assert(implements(first, spec_token(sl)));
            assert(ParseOutcome::<u32, &str>::Success(value, middle).deep_view() == spec_token(sl)(
                input@,
            ));
            lemma_token_leaves_suffix(sl, input@);
            assert(call_requires(sign, (middle,)));
            assert forall|c: char, after: &'a str|
                call_ensures(sign, (middle,), ParseOutcome::Success(c, after)) implies call_requires(
                second,
                (after,),
            ) by {
                assert(ParseOutcome::<char, &str>::Success(c, after).deep_view() == spec_token(
                    spec_char(operator),
                )(middle@));
                lemma_sat_consumes_one(equals(operator));
                lemma_token_leaves_suffix(spec_char(operator), middle@);
                lemma_skip_whitespace_shrinks(after@);
            }
        }
        assert(call_requires(both, (input,)));
        assert(call_requires(operation, (input,)));
    }
    assert forall|sl: SpecParser<u32>, sr: SpecParser<u32>, sf: spec_fn((u32, (char, u32))) -> Option<u32>|
        #[trigger] implements(left, sl) && #[trigger] implements(right, sr) && #[trigger] computes(
            combine,
            sf,
        ) implies implements(r, operator_rule(sl, operator, sr, sf)) by {
        assert(yields(build_left, sl));
        assert(yields(build_right, sr));
        assert(yields(build_alone, sl));
    }
    r
}

/// The parser of `'(' inner ')' | number`. What stands between the
/// parentheses is a lazy parser.
fn operand_parser<'a, I, N>(inner: I, number: N) -> (r: impl Fn(&'a str) -> ParseOutcome<u32, &'a str>) where
    I: Copy + Fn(&'a str) -> ParseOutcome<u32, &'a str>,
    N: Fn(&'a str) -> ParseOutcome<u32, &'a str>,

    requires
        forall|input: &'a str| call_requires(number, (input,)),
    ensures
        forall|input: &'a str|
            accepts_below(inner, input@.len()) ==> #[trigger] call_requires(r, (input,)),
        forall|si: SpecParser<u32>, sn: SpecParser<u32>|
            #[trigger] implements(inner, si) && #[trigger] implements(number, sn) ==> implements(
                r,
                operand_rule(si, sn),
            ),
{
    let build_inner = move || -> (p: I)
        ensures
            p == inner,
        { inner };
    let lazy_inner = lazy(build_inner);
    let open = token(char_parser('('));
    let middle = token(lazy_inner);
    let close = token(char_parser(')'));
    let tail = crate::sequencing::seq(middle, close);
    let all = crate::sequencing::seq(open, tail);
    let pick = |found: (char, (u32, char))| -> (value: u32)
        ensures
            value == inner_of()(found),
        { found.1.0 };
    assert(computes(pick, inner_of()));
    let bracketed = ret(all, pick);
    let plain = token(number);
    let r = alt(bracketed, plain);
    assert forall|input: &'a str| accepts_below(inner, input@.len()) implies #[trigger] call_requires(
        r,
        (input,),
    ) by {
        assert(call_requires(plain, (input,)));
        assert(call_requires(open, (input,)));
        assert forall|c: char, after: &'a str|
            call_ensures(open, (input,), ParseOutcome::Success(c, after)) implies call_requires(
            tail,
            (after,),
        ) by {
            assert(ParseOutcome::<char, &str>::Success(c, after).deep_view() == spec_token(
                spec_char('('),
            )(input@));
            lemma_sat_consumes_one(equals('('));
            lemma_token_leaves_suffix(spec_char('('), input@);
            lemma_skip_whitespace_shrinks(after@);
            assert(call_requires(middle, (after,)));
        }
        assert(call_requires(all, (input,)));
        assert(call_requires(bracketed, (input,)));
    }
    assert forall|si: SpecParser<u32>, sn: SpecParser<u32>|
        #[trigger] implements(inner, si) && #[trigger] implements(number, sn) implies implements(
        r,
        operand_rule(si, sn),
    ) by {
        assert(yields(build_inner, si));
    }
    r
}

/// The parser of the rule `factor`: an expression in parentheses, or a
/// numeral.
pub fn factor<'a>(input: &'a str) -> (o: ParseOutcome<u32, &'a str>)
    ensures
        o.deep_view() == spec_factor(input@),
        o matches ParseOutcome::Success(_, rest) ==> is_suffix(rest@, input@),
    decreases input@.len(), 0int,
{
    let ghost n = input@.len();
    let inside = |text: &'a str| -> (o: ParseOutcome<u32, &'a str>)
        requires
            text@.len() < n,
        ensures
            o.deep_view() == expr_below(n)(text@),
        { expr(text) };
    assert(implements(inside, expr_below(n)));
    proof {
        lemma_factor_leaves_suffix(input@);
    }
    let rule = operand_parser(inside, natural());
    rule(input)
}

/// The parser of the rule `term`: factors joined by `*`.
pub fn term<'a>(input: &'a str) -> (o: ParseOutcome<u32, &'a str>)
    ensures
        o.deep_view() == spec_term(input@),
        o matches ParseOutcome::Success(_, rest) ==> is_suffix(rest@, input@),
    decreases input@.len(), 1int,
{
    let ghost n = input@.len();
    let left = |text: &'a str| -> (o: ParseOutcome<u32, &'a str>)
        requires
            text@.len() <= n,
        ensures
            o.deep_view() == factor_upto(n)(text@),
        { factor(text) };
    let right = |text: &'a str| -> (o: ParseOutcome<u32, &'a str>)
        requires
            text@.len() < n,
        ensures
            o.deep_view() == term_below(n)(text@),
        { term(text) };
    let multiply = |operands: (u32, (char, u32))| -> (product: Option<u32>)
        ensures
            product == product_of()(operands),
        { operands.0.checked_mul(operands.1.1) };
    assert(implements(left, factor_upto(n)));
    assert(implements(right, term_below(n)));
    assert(computes(multiply, product_of()));
    proof {
        assert forall|x: Seq<char>| leaves_suffix(#[trigger] factor_upto(n)(x), x) by {
            lemma_factor_leaves_suffix(x);
        }
        lemma_term_leaves_suffix(input@);
    }
    let rule = operator_parser(left, '*', right, multiply);
    rule(input)
}

/// The parser of the rule `expr`, the grammar's entry point: terms joined by
/// `+`. On success it returns the value of the expression that the rules
/// find at the start of the input, white space around it included, and what
/// follows it; a full match leaves the empty text.
///
/// The parser descends once for each pair of parentheses that is open and
/// for each operand to the right of an operator, so the depth of its
/// recursion grows with the length of the input, without a bound of its own;
/// [`crate::calculator::calculate`] bounds it. Where no operator follows an
/// operand, the operand is read a second time, so the work doubles with
/// each rule that a pair of parentheses passes through.
pub fn expr<'a>(input: &'a str) -> (o: ParseOutcome<u32, &'a str>)
    ensures
        o.deep_view() == spec_expr(input@),
        o matches ParseOutcome::Success(_, rest) ==> is_suffix(rest@, input@),
    decreases input@.len(), 2int,
{
    let ghost n = input@.len();
    let left = |text: &'a str| -> (o: ParseOutcome<u32, &'a str>)
        requires
            text@.len() <= n,
        ensures
            o.deep_view() == term_upto(n)(text@),
        { term(text) };
    let right = |text: &'a str| -> (o: ParseOutcome<u32, &'a str>)
        requires
            text@.len() < n,
        ensures
            o.deep_view() == expr_below(n)(text@),
        { expr(text) };
    let add = |operands: (u32, (char, u32))| -> (sum: Option<u32>)
        ensures
            sum == sum_of()(operands),
        { operands.0.checked_add(operands.1.1) };
    assert(implements(left, term_upto(n)));
    assert(implements(right, expr_below(n)));
    assert(computes(add, sum_of()));
    proof {
        assert forall|x: Seq<char>| leaves_suffix(#[trigger] term_upto(n)(x), x) by {
            lemma_term_leaves_suffix(x);
        }
        lemma_expr_leaves_suffix(input@);
    }
    let rule = operator_parser(left, '+', right, add);
    rule(input)
}

} // verus!
