use parser_combinator::ParseOutcome::{Failure, NumericOverflow, Success};
use parser_combinator::{
    alt, assemble, char_parser, digit, expr, factor, item, lazy, many, natural, ret, ret_checked,
    sat, some, space, term, token, Memo, ParseOutcome,
};
use std::cell::Cell;
use std::rc::Rc;

fn remainder_of<T>(outcome: ParseOutcome<T, &str>) -> Option<&str> {
    match outcome {
        Success(_, rest) => Some(rest),
        _ => None,
    }
}

#[test]
fn item_fails_on_empty_input() {
    assert_eq!(item()(""), Failure);
}

#[test]
fn item_takes_one_character_of_any_width() {
    assert_eq!(item()("äbc"), Success('ä', "bc"));
    assert_eq!(item()("越"), Success('越', ""));
}

#[test]
fn sat_consumes_nothing_on_failure() {
    let upper = sat(|c: char| c.is_uppercase());
    assert_eq!(upper("Abc"), Success('A', "bc"));
    assert_eq!(upper("abc"), Failure);
    assert_eq!(upper(""), Failure);
}

#[test]
fn digit_accepts_exactly_the_ascii_digits() {
    for c in ['0', '1', '5', '9'] {
        let text = c.to_string();
        assert_eq!(digit()(&text), Success(c, ""));
    }
    for c in ['/', ':', 'a', ' ', '٣'] {
        let text = c.to_string();
        assert_eq!(digit()(&text), Failure);
    }
}

#[test]
fn remainder_is_a_suffix_of_the_input() {
    let inputs = ["", "1", " 12 + 3 rest", "((7))*2)", "abc", "  ", "9 * (8 + 7) + 6 tail"];
    for input in inputs {
        for rest in [
            remainder_of(expr(input)),
            remainder_of(term(input)),
            remainder_of(factor(input)),
            remainder_of(natural()(input)),
            remainder_of(space()(input)),
            remainder_of(token(many(digit()))(input)),
            remainder_of(item()(input)),
        ] {
            if let Some(rest) = rest {
                assert!(input.ends_with(rest));
                assert!(rest.len() <= input.len());
            }
        }
    }
}

#[test]
fn many_never_fails_and_loses_nothing() {
    for input in ["", "abc", "123", "12ab34", "7"] {
        match many(digit())(input) {
            Success(values, rest) => {
                let mut again: String = values.into_iter().collect();
                again.push_str(rest);
                assert_eq!(again, input);
            },
            other => panic!("many did not succeed: {:?}", other),
        }
    }
    assert_eq!(many(digit())("12ab34"), Success(vec!['1', '2'], "ab34"));
    assert_eq!(many(digit())("abc"), Success(vec![], "abc"));
}

#[test]
fn many_collects_composite_values_in_order() {
    let pair = parser_combinator::sequencing::seq(digit(), char_parser(','));
    assert_eq!(many(pair)("1,2,3"), Success(vec![('1', ','), ('2', ',')], "3"));
}

#[test]
fn some_fails_exactly_where_many_collects_nothing() {
    for input in ["", "abc", "123", "12ab34", " 1"] {
        let collected = match many(digit())(input) {
            Success(values, _) => values.len(),
            other => panic!("many did not succeed: {:?}", other),
        };
        let once_or_more = some(digit())(input);
        assert_eq!(once_or_more == Failure, collected == 0);
        if collected > 0 {
            assert_eq!(once_or_more, many(digit())(input));
        }
    }
    assert_eq!(some(digit())("12a"), Success(vec!['1', '2'], "a"));
    assert_eq!(some(digit())("a12"), Failure);
}

#[test]
fn seq_fails_when_the_second_parser_fails() {
    let pair = parser_combinator::sequencing::seq(char_parser('a'), char_parser('b'));
    assert_eq!(pair("ab!"), Success(('a', 'b'), "!"));
    assert_eq!(pair("ac"), Failure);
    assert_eq!(pair("a"), Failure);
    assert_eq!(pair(""), Failure);
}

#[test]
fn alt_retries_on_the_whole_input() {
    let ab = parser_combinator::sequencing::seq(char_parser('a'), char_parser('b'));
    let ac = parser_combinator::sequencing::seq(char_parser('a'), char_parser('c'));
    let either = alt(ab, ac);
    assert_eq!(either("acd"), Success(('a', 'c'), "d"));
    assert_eq!(either("abd"), Success(('a', 'b'), "d"));
    assert_eq!(either("ad"), Failure);
}

#[test]
fn alt_takes_the_first_match_not_the_longest() {
    let short = ret(char_parser('a'), |_c: char| 1u32);
    let long = ret(
        parser_combinator::sequencing::seq(char_parser('a'), char_parser('b')),
        |_v: (char, char)| 2u32,
    );
    assert_eq!(alt(short, long)("ab"), Success(1, "b"));
}

#[test]
fn alt_does_not_recover_from_overflow() {
    let fallback = ret(item(), |_c: char| 0u32);
    assert_eq!(alt(natural(), fallback)("99999999999"), NumericOverflow);
}

#[test]
fn ret_transforms_the_value_and_keeps_the_rest() {
    let code = ret(item(), |c: char| c as u32);
    assert_eq!(code("A!"), Success(65, "!"));
    assert_eq!(code(""), Failure);
}

#[test]
fn ret_checked_turns_none_into_overflow() {
    let small = ret_checked(natural(), |n: u32| u8::try_from(n).ok());
    assert_eq!(small("255 "), Success(255u8, " "));
    assert_eq!(small("256 "), NumericOverflow);
    assert_eq!(small("x"), Failure);
}

#[test]
fn space_knows_unicode_white_space() {
    assert_eq!(space()("\u{a0}\t\n\u{3000}x "), Success(vec!['\u{a0}', '\t', '\n', '\u{3000}'], "x "));
    assert_eq!(space()(""), Success(vec![], ""));
    assert_eq!(space()("_ "), Success(vec![], "_ "));
}

#[test]
fn token_strips_white_space_on_both_sides() {
    let parser = token(some(digit()));
    assert_eq!(parser("  12  a"), Success(vec!['1', '2'], "a"));
    assert_eq!(parser("12"), Success(vec!['1', '2'], ""));
}

#[test]
fn token_fails_where_the_parser_fails_after_the_white_space() {
    let parser = token(digit());
    assert_eq!(parser("   a"), Failure);
    assert_eq!(parser("   "), Failure);
    assert_eq!(parser(""), Failure);
}

#[test]
fn natural_reads_decimal_numerals() {
    assert_eq!(natural()("123abc"), Success(123, "abc"));
    assert_eq!(natural()("abc"), Failure);
    assert_eq!(natural()(""), Failure);
    assert_eq!(natural()("007"), Success(7, ""));
    assert_eq!(natural()("0"), Success(0, ""));
    assert_eq!(natural()(" 1"), Failure);
}

#[test]
fn natural_reports_overflow() {
    assert_eq!(natural()("4294967295"), Success(u32::MAX, ""));
    assert_eq!(natural()("4294967296"), NumericOverflow);
    assert_eq!(natural()("000004294967295x"), Success(u32::MAX, "x"));
    assert_eq!(natural()("123456789012345678901234567890 + 1"), NumericOverflow);
}

#[test]
fn assemble_folds_digits_most_significant_first() {
    assert_eq!(assemble(vec![]), Some(0));
    assert_eq!(assemble(vec!['7']), Some(7));
    assert_eq!(assemble(vec!['1', '2', '3']), Some(123));
    assert_eq!(assemble(vec!['0', '4', '0']), Some(40));
    assert_eq!(assemble("4294967295".chars().collect()), Some(4294967295));
    assert_eq!(assemble("4294967296".chars().collect()), None);
    assert_eq!(assemble("42949672950".chars().collect()), None);
}

#[test]
fn lazy_builds_once_and_only_when_run() {
    let builds = Rc::new(Cell::new(0u32));
    let counter = Rc::clone(&builds);
    let parser = lazy(move || {
        counter.set(counter.get() + 1);
        digit()
    });
    assert_eq!(builds.get(), 0);
    assert_eq!(parser("1a"), Success('1', "a"));
    assert_eq!(builds.get(), 1);
    assert_eq!(parser("x"), Failure);
    assert_eq!(parser("22"), Success('2', "2"));
    assert_eq!(many(&parser)("345"), Success(vec!['3', '4', '5'], ""));
    assert_eq!(builds.get(), 1);
}

#[test]
fn lazy_frees_what_it_built() {
    let witness = Rc::new(());
    let held = Rc::clone(&witness);
    let parser = lazy(move || {
        let held = Rc::clone(&held);
        move |input| {
            let _keep = &held;
            item()(input)
        }
    });
    assert_eq!(Rc::strong_count(&witness), 2);
    assert_eq!(parser("ab"), Success('a', "b"));
    assert_eq!(parser("cd"), Success('c', "d"));
    assert_eq!(Rc::strong_count(&witness), 3);
    drop(parser);
    assert_eq!(Rc::strong_count(&witness), 1);
}

#[test]
fn lazy_parser_behaves_as_the_one_it_builds() {
    let parser = lazy(|| natural());
    for input in ["", "12", "x", "4294967296", "5 + 5"] {
        assert_eq!(parser(input), natural()(input));
    }
}

fn counting(builds: &Cell<u32>) -> impl Fn() -> u32 + '_ {
    move || {
        builds.set(builds.get() + 1);
        builds.get()
    }
}

#[test]
fn memo_keeps_the_first_parser() {
    let builds = Cell::new(0u32);
    let build = Rc::new(counting(&builds));
    let memo = Memo::empty(Rc::clone(&build));
    assert!(memo.belongs_to(&build));
    assert_eq!(builds.get(), 0);
    let (memo, first) = memo.resolve();
    assert_eq!(*first, 1);
    let (memo, second) = memo.resolve();
    let (memo, third) = memo.resolve();
    assert_eq!(*second, 1);
    assert_eq!(*third, 1);
    assert_eq!(builds.get(), 1);
    assert!(memo.belongs_to(&build));
    assert!(!memo.belongs_to(&Rc::new(counting(&builds))));
}

#[test]
fn expr_tolerates_white_space_around_every_symbol() {
    assert_eq!(expr("  1  "), Success(1, ""));
    assert_eq!(expr(" ( 1 + 2 ) * 3 "), Success(9, ""));
    assert_eq!(expr("\t2*\n3"), Success(6, ""));
}

#[test]
fn expr_gives_multiplication_precedence() {
    assert_eq!(expr("2 + 3 * 4"), Success(14, ""));
    assert_eq!(expr("2 * 3 + 4"), Success(10, ""));
    assert_eq!(expr("(2 + 3) * 4"), Success(20, ""));
    assert_eq!(expr("1 + 2 + 3 + 4"), Success(10, ""));
    assert_eq!(expr("2 * 3 * 4"), Success(24, ""));
}

#[test]
fn expr_reports_what_it_could_not_consume() {
    assert_eq!(expr("1 + "), Success(1, "+ "));
    assert_eq!(expr("2 * (3 + 4) x"), Success(14, "x"));
    assert_eq!(expr("12abc"), Success(12, "abc"));
    assert_eq!(expr("(1 + 2"), Failure);
    assert_eq!(expr("1 + (2"), Success(1, "+ (2"));
}

#[test]
fn expr_fails_without_an_operand() {
    assert_eq!(expr(""), Failure);
    assert_eq!(expr("   "), Failure);
    assert_eq!(expr("+ 1"), Failure);
    assert_eq!(expr("()"), Failure);
    assert_eq!(expr("abc"), Failure);
}

#[test]
fn expr_reports_overflow() {
    assert_eq!(expr("4294967295"), Success(u32::MAX, ""));
    assert_eq!(expr("4294967296"), NumericOverflow);
    assert_eq!(expr("4294967295 + 1"), NumericOverflow);
    assert_eq!(expr("4294967294 + 1"), Success(u32::MAX, ""));
    assert_eq!(expr("65536 * 65536"), NumericOverflow);
    assert_eq!(expr("65535 * 65537"), Success(u32::MAX, ""));
    assert_eq!(expr("1 + (2 * 4294967296)"), NumericOverflow);
}

#[test]
fn term_and_factor_follow_their_rules() {
    assert_eq!(term("2 * 3 + 4"), Success(6, "+ 4"));
    assert_eq!(factor("(1 + 2) * 3"), Success(3, "* 3"));
    assert_eq!(factor("42"), Success(42, ""));
    assert_eq!(factor("* 3"), Failure);
}

#[test]
fn expr_handles_nested_parentheses() {
    let depth = 5;
    let mut text = String::new();
    for _ in 0..depth {
        text.push('(');
    }
    text.push('5');
    for _ in 0..depth {
        text.push(')');
    }
    assert_eq!(expr(&text), Success(5, ""));
}
