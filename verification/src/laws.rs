//! What holds of every parser built from this library's parts, stated of the
//! models and carried over to the executable parsers that implement them.

use crate::grammar::{
    expr_below, expr_rule, factor_rule, factor_upto, inner_of, operand_rule, operator_rule,
    product_of, spec_expr, spec_factor, spec_term, sum_of, term_below, term_rule, term_upto,
};
use crate::model::{
    advances, decimal_u32, decimal_value, equals, implements, is_suffix, leading_digits,
    many_outcome, skip_whitespace, spec_alt, spec_char, spec_digit, spec_item, spec_many,
    spec_natural, spec_ret, spec_ret_checked, spec_sat, spec_seq, spec_some, spec_space,
    spec_token, SpecOutcome, SpecParser,
};
use crate::outcome::ParseOutcome;
use crate::trusted::{is_digit, white_space};
use vstd::prelude::*;

verus! {

/// The outcome `o` of a parser on `s`, if it is a success, leaves a suffix
/// of `s`.
pub open spec fn leaves_suffix<V>(o: SpecOutcome<V>, s: Seq<char>) -> bool {
    o matches ParseOutcome::Success(_, rest) ==> is_suffix(rest, s)
}

/// The outcome `o` of a parser on `s`, if it is a success, leaves less than
/// `s`.
pub open spec fn leaves_less<V>(o: SpecOutcome<V>, s: Seq<char>) -> bool {
    o matches ParseOutcome::Success(_, rest) ==> rest.len() < s.len()
}

/// Whatever the model parser `sp` leaves over is a suffix of the text it was
/// given: a parser consumes from the front, and never hands back more than
/// it got, nor anything else.
pub open spec fn respects_suffix<V>(sp: SpecParser<V>) -> bool {
    forall|s: Seq<char>| leaves_suffix(#[trigger] sp(s), s)
}

/// Every success of the model parser `sp` consumes at least one character.
pub open spec fn consumes<V>(sp: SpecParser<V>) -> bool {
    forall|s: Seq<char>| leaves_less(#[trigger] sp(s), s)
}

/// The model parser `sp` reads no numbers that could be out of range.
pub open spec fn never_overflows<V>(sp: SpecParser<V>) -> bool {
    forall|s: Seq<char>| !((#[trigger] sp(s)) is NumericOverflow)
}

// Suffixes

/// Every text is a suffix of itself.
pub proof fn lemma_suffix_refl(s: Seq<char>)
    ensures
        is_suffix(s, s),
{
    assert(s.skip(0) =~= s);
}

/// A suffix of a suffix is a suffix.
pub proof fn lemma_suffix_trans(a: Seq<char>, b: Seq<char>, c: Seq<char>)
    requires
        is_suffix(a, b),
        is_suffix(b, c),
    ensures
        is_suffix(a, c),
{
    assert(c.skip(c.len() - a.len()) =~= c.skip(c.len() - b.len()).skip(b.len() - a.len()));
}

/// A text without its first character is a suffix of it.
pub proof fn lemma_suffix_drop_first(s: Seq<char>)
    requires
        s.len() > 0,
    ensures
        is_suffix(s.drop_first(), s),
{
    assert(s.skip(1) =~= s.drop_first());
}

// From a model to the parser that implements it

/// What an executable parser leaves over on success is a suffix of its
/// input, if that holds of its model.
pub proof fn lemma_remainder_is_suffix<'a, T: DeepView, P: Fn(&'a str) -> ParseOutcome<T, &'a str>>(
    p: P,
    sp: SpecParser<T::V>,
    input: &'a str,
    value: T,
    rest: &'a str,
)
    requires
        implements(p, sp),
        respects_suffix(sp),
        call_ensures(p, (input,), ParseOutcome::Success(value, rest)),
    ensures
        is_suffix(rest@, input@),
{
    assert(ParseOutcome::<T, &str>::Success(value, rest).deep_view() == sp(input@));
    assert(leaves_suffix(sp(input@), input@));
}

/// An executable parser makes progress on every success if its model does:
/// it may then be repeated.
pub proof fn lemma_consuming_parser_advances<'a, T: DeepView, P: Fn(&'a str) -> ParseOutcome<T, &'a str>>(
    p: P,
    sp: SpecParser<T::V>,
)
    requires
        implements(p, sp),
        consumes(sp),
    ensures
        advances(p),
{
    assert forall|input: &'a str, value: T, rest: &'a str| #[trigger]
        call_ensures(p, (input,), ParseOutcome::Success(value, rest)) implies rest@.len()
        < input@.len() by {
        assert(ParseOutcome::<T, &str>::Success(value, rest).deep_view() == sp(input@));
        assert(leaves_less(sp(input@), input@));
    }
}

// Single characters

/// The parser of one character leaves the input without its first character.
pub proof fn lemma_item_consumes_one()
    ensures
        respects_suffix(spec_item()),
        consumes(spec_item()),
{
    assert forall|s: Seq<char>| leaves_suffix(#[trigger] spec_item()(s), s) by {
        if s.len() > 0 {
            lemma_suffix_drop_first(s);
        }
    }
}

/// A parser of one character of some kind leaves the input without its
/// first character.
pub proof fn lemma_sat_consumes_one(pred: spec_fn(char) -> bool)
    ensures
        respects_suffix(spec_sat(pred)),
        consumes(spec_sat(pred)),
{
    assert forall|s: Seq<char>| leaves_suffix(#[trigger] spec_sat(pred)(s), s) by {
        if s.len() > 0 {
            lemma_suffix_drop_first(s);
        }
    }
}

// Repetition

/// A repetition on `s` leaves a suffix of `s` if the repeated parser leaves
/// suffixes.
pub proof fn lemma_many_leaves_suffix<V>(sp: SpecParser<V>, s: Seq<char>)
    requires
        respects_suffix(sp),
    ensures
        leaves_suffix(many_outcome(sp, s), s),
    decreases s.len(),
{
    lemma_suffix_refl(s);
    if let ParseOutcome::Success(_, rest) = sp(s) {
        if rest.len() < s.len() {
            lemma_many_leaves_suffix(sp, rest);
            assert(leaves_suffix(sp(s), s));
            if let ParseOutcome::Success(_, last) = many_outcome(sp, rest) {
                lemma_suffix_trans(last, rest, s);
            }
        }
    }
}

/// A repetition leaves a suffix if the repeated parser does.
pub proof fn lemma_many_respects_suffix<V>(sp: SpecParser<V>)
    requires
        respects_suffix(sp),
    ensures
        respects_suffix(spec_many(sp)),
        respects_suffix(spec_some(sp)),
{
    assert forall|s: Seq<char>| leaves_suffix(#[trigger] spec_many(sp)(s), s) by {
        lemma_many_leaves_suffix(sp, s);
    }
    assert forall|s: Seq<char>| leaves_suffix(#[trigger] spec_some(sp)(s), s) by {
        lemma_many_leaves_suffix(sp, s);
    }
}

/// One-or-more consumes something wherever it succeeds, and so may itself
/// be repeated.
pub proof fn lemma_some_consumes<V>(sp: SpecParser<V>)
    requires
        respects_suffix(sp),
    ensures
        consumes(spec_some(sp)),
{
    assert forall|s: Seq<char>| leaves_less(#[trigger] spec_some(sp)(s), s) by {
        if let ParseOutcome::Success(_, rest) = sp(s) {
            if rest.len() < s.len() {
                lemma_many_leaves_suffix(sp, rest);
            }
        }
    }
}

/// A repetition never fails: where the repeated parser fails at once, it
/// succeeds with no values and the whole input. It succeeds on every input
/// unless the repeated parser meets a number that is out of range.
pub proof fn lemma_many_never_fails<V>(sp: SpecParser<V>, s: Seq<char>)
    ensures
        !(spec_many(sp)(s) is Failure),
        sp(s) is Failure ==> spec_many(sp)(s) == ParseOutcome::<Seq<V>, Seq<char>>::Success(
            Seq::empty(),
            s,
        ),
        never_overflows(sp) ==> spec_many(sp)(s) is Success,
    decreases s.len(),
{
    if let ParseOutcome::Success(_, rest) = sp(s) {
        if rest.len() < s.len() {
            lemma_many_never_fails(sp, rest);
        }
    }
}

/// The pieces of `s` that the successive successes of `sp` consume when it
/// is repeated on `s`.
pub open spec fn many_consumed<V>(sp: SpecParser<V>, s: Seq<char>) -> Seq<Seq<char>>
    decreases s.len(),
{
    match sp(s) {
        ParseOutcome::Success(_, rest) => if rest.len() < s.len() {
            seq![s.take(s.len() - rest.len())] + many_consumed(sp, rest)
        } else {
            Seq::empty()
        },
        _ => Seq::empty(),
    }
}

/// A repetition loses nothing: there is one consumed piece for each value
/// collected, and the pieces, in order, followed by what is left, are the
/// input again.
pub proof fn lemma_many_reconstructs<V>(sp: SpecParser<V>, s: Seq<char>)
    requires
        respects_suffix(sp),
    ensures
        spec_many(sp)(s) matches ParseOutcome::Success(values, rest) ==> many_consumed(sp, s).len()
            == values.len() && many_consumed(sp, s).flatten() + rest == s,
    decreases s.len(),
{
    if let ParseOutcome::Success(_, next) = sp(s) {
        if next.len() < s.len() {
            lemma_many_reconstructs(sp, next);
            assert(leaves_suffix(sp(s), s));
            if let ParseOutcome::Success(values, rest) = many_outcome(sp, next) {
                let piece = s.take(s.len() - next.len());
                let pieces = many_consumed(sp, s);
                assert(pieces.first() == piece);
                assert(pieces.drop_first() =~= many_consumed(sp, next));
                assert(piece + next =~= s);
                assert(pieces.flatten() + rest =~= piece + (many_consumed(sp, next).flatten() + rest));
            }
        } else {
            assert(Seq::<Seq<char>>::empty().flatten() + s =~= s);
        }
    } else {
        assert(Seq::<Seq<char>>::empty().flatten() + s =~= s);
    }
}

/// Repeating a one-character parser collects exactly the characters it
/// consumes: the values, followed by what is left, are the input again.
pub proof fn lemma_many_sat_reconstructs(pred: spec_fn(char) -> bool, s: Seq<char>)
    ensures
        spec_many(spec_sat(pred))(s) matches ParseOutcome::Success(values, rest) && values + rest == s,
    decreases s.len(),
{
    if s.len() > 0 && pred(s[0]) {
        let tail = s.drop_first();
        lemma_many_sat_reconstructs(pred, tail);
        assert(spec_many(spec_sat(pred))(tail) == many_outcome(spec_sat(pred), tail));
        if let ParseOutcome::Success(values, rest) = many_outcome(spec_sat(pred), tail) {
            assert(values + rest == tail);
            assert(seq![s[0]] + tail =~= s);
            assert((seq![s[0]] + values) + rest =~= seq![s[0]] + (values + rest));
        }
    } else {
        assert(Seq::<char>::empty() + s =~= s);
    }
}

/// One-or-more fails exactly where zero-or-more collects nothing, and
/// otherwise returns what zero-or-more returns.
pub proof fn lemma_some_fails_iff_many_is_empty<V>(sp: SpecParser<V>, s: Seq<char>)
    ensures
        spec_some(sp)(s) is Failure <==> (spec_many(sp)(s) matches ParseOutcome::Success(values, _)
            && values.len() == 0),
        !(spec_some(sp)(s) is Failure) ==> spec_some(sp)(s) == spec_many(sp)(s),
{
    lemma_many_never_fails(sp, s);
}

// Sequence, alternation, transformation

/// A sequence leaves a suffix if both its parts do.
pub proof fn lemma_seq_respects_suffix<V, W>(sp1: SpecParser<V>, sp2: SpecParser<W>)
    requires
        respects_suffix(sp1),
        respects_suffix(sp2),
    ensures
        respects_suffix(spec_seq(sp1, sp2)),
{
    assert forall|s: Seq<char>| leaves_suffix(#[trigger] spec_seq(sp1, sp2)(s), s) by {
        assert(leaves_suffix(sp1(s), s));
        if let ParseOutcome::Success(_, middle) = sp1(s) {
            assert(leaves_suffix(sp2(middle), middle));
            if let ParseOutcome::Success(_, rest) = sp2(middle) {
                lemma_suffix_trans(rest, middle, s);
            }
        }
    }
}

/// A sequence consumes something if one of its parts does.
pub proof fn lemma_seq_consumes<V, W>(sp1: SpecParser<V>, sp2: SpecParser<W>)
    requires
        respects_suffix(sp1),
        respects_suffix(sp2),
        consumes(sp1) || consumes(sp2),
    ensures
        consumes(spec_seq(sp1, sp2)),
{
    assert forall|s: Seq<char>| leaves_less(#[trigger] spec_seq(sp1, sp2)(s), s) by {
        assert(leaves_suffix(sp1(s), s));
        assert(consumes(sp1) ==> leaves_less(sp1(s), s));
        if let ParseOutcome::Success(_, middle) = sp1(s) {
            assert(leaves_suffix(sp2(middle), middle));
            assert(consumes(sp2) ==> leaves_less(sp2(middle), middle));
        }
    }
}

/// An alternation consumes something if both its branches do.
pub proof fn lemma_alt_consumes<V>(sp1: SpecParser<V>, sp2: SpecParser<V>)
    requires
        consumes(sp1),
        consumes(sp2),
    ensures
        consumes(spec_alt(sp1, sp2)),
{
    assert forall|s: Seq<char>| leaves_less(#[trigger] spec_alt(sp1, sp2)(s), s) by {
        assert(leaves_less(sp1(s), s));
        assert(leaves_less(sp2(s), s));
    }
}

/// An alternation leaves a suffix if both its branches do.
pub proof fn lemma_alt_respects_suffix<V>(sp1: SpecParser<V>, sp2: SpecParser<V>)
    requires
        respects_suffix(sp1),
        respects_suffix(sp2),
    ensures
        respects_suffix(spec_alt(sp1, sp2)),
{
    assert forall|s: Seq<char>| leaves_suffix(#[trigger] spec_alt(sp1, sp2)(s), s) by {
        assert(leaves_suffix(sp1(s), s));
        assert(leaves_suffix(sp2(s), s));
    }
}

/// Where the first branch of an alternation fails, the outcome is that of
/// the second branch on the same, whole input: nothing that the first branch
/// consumed before it failed is lost to the second. Where the first branch
/// does not fail, the second is not consulted.
pub proof fn lemma_alt_backtracks<V>(sp1: SpecParser<V>, sp2: SpecParser<V>, s: Seq<char>)
    ensures
        sp1(s) is Failure ==> spec_alt(sp1, sp2)(s) == sp2(s),
        !(sp1(s) is Failure) ==> spec_alt(sp1, sp2)(s) == sp1(s),
{
}

/// Transforming the value does not touch what is left.
pub proof fn lemma_ret_respects_suffix<V, W>(sp: SpecParser<V>, f: spec_fn(V) -> W)
    ensures
        respects_suffix(sp) ==> respects_suffix(spec_ret(sp, f)),
        consumes(sp) ==> consumes(spec_ret(sp, f)),
{
    if respects_suffix(sp) {
        assert forall|s: Seq<char>| leaves_suffix(#[trigger] spec_ret(sp, f)(s), s) by {
            assert(leaves_suffix(sp(s), s));
        }
    }
    if consumes(sp) {
        assert forall|s: Seq<char>| leaves_less(#[trigger] spec_ret(sp, f)(s), s) by {
            assert(leaves_less(sp(s), s));
        }
    }
}

/// Transforming the value does not touch what is left.
pub proof fn lemma_ret_checked_respects_suffix<V, W>(sp: SpecParser<V>, f: spec_fn(V) -> Option<W>)
    ensures
        respects_suffix(sp) ==> respects_suffix(spec_ret_checked(sp, f)),
        consumes(sp) ==> consumes(spec_ret_checked(sp, f)),
{
    if respects_suffix(sp) {
        assert forall|s: Seq<char>| leaves_suffix(#[trigger] spec_ret_checked(sp, f)(s), s) by {
            assert(leaves_suffix(sp(s), s));
        }
    }
    if consumes(sp) {
        assert forall|s: Seq<char>| leaves_less(#[trigger] spec_ret_checked(sp, f)(s), s) by {
            assert(leaves_less(sp(s), s));
        }
    }
}

// White space

/// A text without its leading white space is a suffix of the text.
pub proof fn lemma_skip_whitespace_shrinks(s: Seq<char>)
    ensures
        is_suffix(skip_whitespace(s), s),
    decreases s.len(),
{
    if s.len() > 0 && white_space(s[0]) {
        let tail = s.drop_first();
        lemma_skip_whitespace_shrinks(tail);
        let rest = skip_whitespace(tail);
        assert(s.skip(s.len() - rest.len()) =~= tail.skip(tail.len() - rest.len()));
    } else {
        assert(s.skip(0) =~= s);
    }
}

/// Repeating the parser of one white-space character always succeeds and
/// leaves the text without its leading white space.
pub proof fn lemma_space_skips(s: Seq<char>)
    ensures
        spec_space()(s) is Success,
        spec_space()(s)->Success_1 == skip_whitespace(s),
    decreases s.len(),
{
    if s.len() > 0 && white_space(s[0]) {
        lemma_space_skips(s.drop_first());
    }
}

/// On `s`, a token leaves a suffix of `s` if the parser inside leaves
/// suffixes, and less than `s` if the parser inside consumed something.
pub proof fn lemma_token_leaves_suffix<V>(sp: SpecParser<V>, s: Seq<char>)
    requires
        respects_suffix(sp),
    ensures
        leaves_suffix(spec_token(sp)(s), s),
        leaves_less(sp(skip_whitespace(s)), skip_whitespace(s)) ==> leaves_less(spec_token(sp)(s), s),
{
    let start = skip_whitespace(s);
    lemma_skip_whitespace_shrinks(s);
    assert(leaves_suffix(sp(start), start));
    if let ParseOutcome::Success(_, after) = sp(start) {
        lemma_skip_whitespace_shrinks(after);
        lemma_suffix_trans(skip_whitespace(after), after, start);
        lemma_suffix_trans(skip_whitespace(after), start, s);
    }
}

/// A token leaves a suffix if the parser inside does, and consumes
/// something if the parser inside does.
pub proof fn lemma_token_respects_suffix<V>(sp: SpecParser<V>)
    requires
        respects_suffix(sp),
    ensures
        respects_suffix(spec_token(sp)),
        consumes(sp) ==> consumes(spec_token(sp)),
{
    assert forall|s: Seq<char>| leaves_suffix(#[trigger] spec_token(sp)(s), s) by {
        lemma_token_leaves_suffix(sp, s);
    }
    if consumes(sp) {
        assert forall|s: Seq<char>| leaves_less(#[trigger] spec_token(sp)(s), s) by {
            assert(leaves_less(sp(skip_whitespace(s)), skip_whitespace(s)));
            lemma_token_leaves_suffix(sp, s);
        }
    }
}

// Numerals

/// A numeral's value is at least that of each of its beginnings.
pub proof fn lemma_decimal_value_grows(digits: Seq<char>, n: int)
    requires
        0 <= n <= digits.len(),
    ensures
        decimal_value(digits.take(n)) <= decimal_value(digits),
    decreases digits.len(),
{
    if n < digits.len() {
        lemma_decimal_value_grows(digits.drop_last(), n);
        assert(digits.drop_last().take(n) =~= digits.take(n));
    } else {
        assert(digits.take(n) =~= digits);
    }
}

/// Repeating the digit parser collects the digits at the start of the text
/// and leaves what follows them.
pub proof fn lemma_many_digits(s: Seq<char>)
    ensures
        many_outcome(spec_digit(), s) == ParseOutcome::<Seq<char>, Seq<char>>::Success(
            leading_digits(s),
            s.skip(leading_digits(s).len() as int),
        ),
        leading_digits(s).len() <= s.len(),
        forall|k: int| 0 <= k < leading_digits(s).len() ==> is_digit(#[trigger] leading_digits(s)[k]),
    decreases s.len(),
{
    if s.len() > 0 && is_digit(s[0]) {
        let tail = s.drop_first();
        lemma_many_digits(tail);
        assert(s.skip(leading_digits(s).len() as int) =~= tail.skip(leading_digits(tail).len() as int));
    } else {
        assert(s.skip(0) =~= s);
    }
}

/// A numeral is one or more digits, assembled into a number that must fit
/// 32 bits.
pub proof fn lemma_natural_is_digits_assembled(s: Seq<char>)
    ensures
        spec_ret_checked(spec_some(spec_digit()), decimal_u32())(s) == spec_natural()(s),
{
    lemma_many_digits(s);
}

/// A numeral leaves a suffix, shorter than the text it was read from.
pub proof fn lemma_natural_consumes()
    ensures
        respects_suffix(spec_natural()),
        consumes(spec_natural()),
{
    assert forall|s: Seq<char>| leaves_suffix(#[trigger] spec_natural()(s), s) && leaves_less(
        spec_natural()(s),
        s,
    ) by {
        lemma_many_digits(s);
    }
}

// The grammar

/// A rule with an operator leaves a suffix if its operands do.
pub proof fn lemma_operator_rule_respects_suffix(
    left: SpecParser<u32>,
    operator: char,
    right: SpecParser<u32>,
    combine: spec_fn((u32, (char, u32))) -> Option<u32>,
)
    requires
        respects_suffix(left),
        respects_suffix(right),
    ensures
        respects_suffix(operator_rule(left, operator, right, combine)),
{
    let sign = spec_token(spec_char(operator));
    let operands = spec_seq(spec_token(left), spec_seq(sign, spec_token(right)));
    lemma_sat_consumes_one(equals(operator));
    lemma_token_respects_suffix(spec_char(operator));
    lemma_token_respects_suffix(left);
    lemma_token_respects_suffix(right);
    lemma_seq_respects_suffix(sign, spec_token(right));
    lemma_seq_respects_suffix(spec_token(left), spec_seq(sign, spec_token(right)));
    lemma_ret_checked_respects_suffix(operands, combine);
    lemma_alt_respects_suffix(spec_ret_checked(operands, combine), spec_token(left));
}

/// The rule of an operand leaves a suffix if what stands between the
/// parentheses does, and the number.
pub proof fn lemma_operand_rule_respects_suffix(inner: SpecParser<u32>, number: SpecParser<u32>)
    requires
        respects_suffix(inner),
        respects_suffix(number),
    ensures
        respects_suffix(operand_rule(inner, number)),
{
    let open = spec_token(spec_char('('));
    let close = spec_token(spec_char(')'));
    let bracketed = spec_seq(open, spec_seq(spec_token(inner), close));
    lemma_sat_consumes_one(equals('('));
    lemma_sat_consumes_one(equals(')'));
    lemma_token_respects_suffix(spec_char('('));
    lemma_token_respects_suffix(spec_char(')'));
    lemma_token_respects_suffix(inner);
    lemma_token_respects_suffix(number);
    lemma_seq_respects_suffix(spec_token(inner), close);
    lemma_seq_respects_suffix(open, spec_seq(spec_token(inner), close));
    lemma_ret_respects_suffix(bracketed, inner_of());
    lemma_alt_respects_suffix(spec_ret(bracketed, inner_of()), spec_token(number));
}

/// The rule `factor` leaves a suffix of its input.
pub proof fn lemma_factor_leaves_suffix(s: Seq<char>)
    ensures
        leaves_suffix(spec_factor(s), s),
    decreases s.len(), 1int,
{
    let inner = expr_below(s.len());
    assert forall|x: Seq<char>| leaves_suffix(#[trigger] inner(x), x) by {
        if x.len() < s.len() {
            lemma_expr_leaves_suffix(x);
        }
    }
    lemma_natural_consumes();
    lemma_operand_rule_respects_suffix(inner, spec_natural());
    assert(leaves_suffix(operand_rule(inner, spec_natural())(s), s));
}

/// The rule `term` leaves a suffix of its input.
pub proof fn lemma_term_leaves_suffix(s: Seq<char>)
    ensures
        leaves_suffix(spec_term(s), s),
    decreases s.len(), 3int,
{
    let left = factor_upto(s.len());
    let right = term_below(s.len());
    assert forall|x: Seq<char>| leaves_suffix(#[trigger] left(x), x) by {
        if x.len() <= s.len() {
            lemma_factor_leaves_suffix(x);
        }
    }
    assert forall|x: Seq<char>| leaves_suffix(#[trigger] right(x), x) by {
        if x.len() < s.len() {
            lemma_term_leaves_suffix(x);
        }
    }
    lemma_operator_rule_respects_suffix(left, '*', right, product_of());
    assert(leaves_suffix(operator_rule(left, '*', right, product_of())(s), s));
}

/// The rule `expr` leaves a suffix of its input.
pub proof fn lemma_expr_leaves_suffix(s: Seq<char>)
    ensures
        leaves_suffix(spec_expr(s), s),
    decreases s.len(), 5int,
{
    let left = term_upto(s.len());
    let right = expr_below(s.len());
    assert forall|x: Seq<char>| leaves_suffix(#[trigger] left(x), x) by {
        if x.len() <= s.len() {
            lemma_term_leaves_suffix(x);
        }
    }
    assert forall|x: Seq<char>| leaves_suffix(#[trigger] right(x), x) by {
        if x.len() < s.len() {
            lemma_expr_leaves_suffix(x);
        }
    }
    lemma_operator_rule_respects_suffix(left, '+', right, sum_of());
    assert(leaves_suffix(operator_rule(left, '+', right, sum_of())(s), s));
}

/// Each rule of the grammar leaves a suffix of its input.
pub proof fn lemma_grammar_respects_suffix()
    ensures
        respects_suffix(expr_rule()),
        respects_suffix(term_rule()),
        respects_suffix(factor_rule()),
{
    assert forall|s: Seq<char>| leaves_suffix(#[trigger] expr_rule()(s), s) by {
        lemma_expr_leaves_suffix(s);
    }
    assert forall|s: Seq<char>| leaves_suffix(#[trigger] term_rule()(s), s) by {
        lemma_term_leaves_suffix(s);
    }
    assert forall|s: Seq<char>| leaves_suffix(#[trigger] factor_rule()(s), s) by {
        lemma_factor_leaves_suffix(s);
    }
}

/// On a text `s`, a rule with an operator consults its left operand only on
/// texts no longer than `s`, and its right operand only on shorter ones:
/// operands that agree there give the same outcome on `s`.
pub proof fn lemma_operator_rule_local(
    left: SpecParser<u32>,
    near: SpecParser<u32>,
    operator: char,
    right: SpecParser<u32>,
    far: SpecParser<u32>,
    combine: spec_fn((u32, (char, u32))) -> Option<u32>,
    s: Seq<char>,
)
    requires
        respects_suffix(left),
        forall|x: Seq<char>| x.len() <= s.len() ==> #[trigger] left(x) == near(x),
        forall|x: Seq<char>| x.len() < s.len() ==> #[trigger] right(x) == far(x),
    ensures
        operator_rule(left, operator, right, combine)(s) == operator_rule(
            near,
            operator,
            far,
            combine,
        )(s),
{
    let start = skip_whitespace(s);
    lemma_skip_whitespace_shrinks(s);
    assert(left(start) == near(start));
    assert(leaves_suffix(left(start), start));
    if let ParseOutcome::Success(_, after_left) = left(start) {
        let middle = skip_whitespace(after_left);
        lemma_skip_whitespace_shrinks(after_left);
        let sign = spec_char(operator);
        lemma_sat_consumes_one(equals(operator));
        let at_sign = skip_whitespace(middle);
        lemma_skip_whitespace_shrinks(middle);
        assert(leaves_less(sign(at_sign), at_sign));
        if let ParseOutcome::Success(_, after_sign) = sign(at_sign) {
            let tail = skip_whitespace(after_sign);
            lemma_skip_whitespace_shrinks(after_sign);
            let at_right = skip_whitespace(tail);
            lemma_skip_whitespace_shrinks(tail);
            assert(right(at_right) == far(at_right));
        }
    }
}

/// On a text `s`, the rule of an operand consults what stands between the
/// parentheses only on texts shorter than `s`.
pub proof fn lemma_operand_rule_local(
    inner: SpecParser<u32>,
    far: SpecParser<u32>,
    number: SpecParser<u32>,
    s: Seq<char>,
)
    requires
        forall|x: Seq<char>| x.len() < s.len() ==> #[trigger] inner(x) == far(x),
    ensures
        operand_rule(inner, number)(s) == operand_rule(far, number)(s),
{
    let open = spec_char('(');
    lemma_sat_consumes_one(equals('('));
    let start = skip_whitespace(s);
    lemma_skip_whitespace_shrinks(s);
    assert(leaves_less(open(start), start));
    if let ParseOutcome::Success(_, after_open) = open(start) {
        let tail = skip_whitespace(after_open);
        lemma_skip_whitespace_shrinks(after_open);
        let at_inner = skip_whitespace(tail);
        lemma_skip_whitespace_shrinks(tail);
        assert(inner(at_inner) == far(at_inner));
    }
}

/// The rules say of every text what the grammar says:
///
/// ```text
/// expr   = term '+' expr   |  term
/// term   = factor '*' term |  factor
/// factor = '(' expr ')'    |  natural
/// ```
pub proof fn lemma_grammar_equations(s: Seq<char>)
    ensures
        spec_expr(s) == operator_rule(term_rule(), '+', expr_rule(), sum_of())(s),
        spec_term(s) == operator_rule(factor_rule(), '*', term_rule(), product_of())(s),
        spec_factor(s) == operand_rule(expr_rule(), spec_natural())(s),
{
    let n = s.len();
    assert forall|x: Seq<char>| leaves_suffix(#[trigger] term_upto(n)(x), x) by {
        lemma_term_leaves_suffix(x);
    }
    assert forall|x: Seq<char>| leaves_suffix(#[trigger] factor_upto(n)(x), x) by {
        lemma_factor_leaves_suffix(x);
    }
    lemma_operator_rule_local(term_upto(n), term_rule(), '+', expr_below(n), expr_rule(), sum_of(), s);
    lemma_operator_rule_local(
        factor_upto(n),
        factor_rule(),
        '*',
        term_below(n),
        term_rule(),
        product_of(),
        s,
    );
    lemma_operand_rule_local(expr_below(n), expr_rule(), spec_natural(), s);
}

} // verus!
