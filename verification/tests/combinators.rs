use parser_combinator::ParseOutcome::{Failure, Success};
use parser_combinator::{alt, char_parser, digit, item, many, natural, space, token};

#[test]
fn item_works() {
    assert_eq!(item()("abc"), Success('a', "bc"));
}

#[test]
fn digit_works() {
    assert_eq!(digit()("123"), Success('1', "23"));
    assert_eq!(digit()("abc"), Failure);
}

#[test]
fn char_parser_works() {
    let parser = char_parser('a');
    assert_eq!(parser("abc"), Success('a', "bc"));
    assert_eq!(parser("123"), Failure);
}

#[test]
fn space_work() {
    assert_eq!(space()("   abc"), Success(vec![' ', ' ', ' '], "abc"));
    assert_eq!(space()("abc"), Success(vec![], "abc"));
}

#[test]
fn seq_works() {
    let paren_parser = parser_combinator::sequencing::seq(
        char_parser('('),
        parser_combinator::sequencing::seq(digit(), char_parser(')')),
    );
    assert_eq!(paren_parser("(1)2"), Success(('(', ('1', ')')), "2"));
    assert_eq!(paren_parser("1)"), Failure);
}

#[test]
fn alt_works() {
    let alt_parser = alt(char_parser('+'), char_parser('-'));

    assert_eq!(alt_parser("+1"), Success('+', "1"));
    assert_eq!(alt_parser("-2"), Success('-', "2"));
    assert_eq!(alt_parser("~3"), Failure);
}

#[test]
fn token_works() {
    let parser = token(many(digit()));
    assert_eq!(parser("  12  a"), Success(vec!['1', '2'], "a"));
}

#[test]
fn nat_works() {
    assert_eq!(natural()("123abc"), Success(123, "abc"));
    assert_eq!(natural()(""), Failure);
}
