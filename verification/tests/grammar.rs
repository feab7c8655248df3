use parser_combinator::{calculate, expr, Reading, MAX_LINE};
use parser_combinator::ParseOutcome::Success;

#[test]
fn expr_works() {
    assert_eq!(expr("123"), Success(123, ""));
    assert_eq!(expr("1 + 23"), Success(24, ""));
    assert_eq!(expr("1 + (2 + 3)"), Success(6, ""));
    assert_eq!(expr("1 + (2 + 3) * ((4))"), Success(21, ""));
}

#[test]
fn calculate_tells_the_outcomes_apart() {
    assert_eq!(calculate("1 + (2 + 3) * 4"), Reading::Value(21));
    assert_eq!(calculate(" 7 "), Reading::Value(7));
    assert_eq!(calculate("1 + 2 = 3"), Reading::Remains("= 3"));
    assert_eq!(calculate("2 * x"), Reading::Remains("* x"));
    assert_eq!(calculate(""), Reading::Invalid);
    assert_eq!(calculate("x"), Reading::Invalid);
    assert_eq!(calculate("4294967296"), Reading::Overflow);
    assert_eq!(calculate("65536 * 65536"), Reading::Overflow);
}

#[test]
fn calculate_refuses_lines_beyond_the_limit() {
    let mut line = String::from("1");
    while line.chars().count() + 2 <= MAX_LINE {
        line.push_str("+1");
    }
    assert_eq!(line.chars().count(), MAX_LINE - 1);
    assert_eq!(calculate(&line), Reading::Value(512));
    line.push(' ');
    assert_eq!(calculate(&line), Reading::Value(512));
    line.push(' ');
    assert_eq!(calculate(&line), Reading::TooLong);
    let wide = "é".repeat(MAX_LINE);
    assert_eq!(calculate(&wide), Reading::Invalid);
}

#[test]
fn calculate_reads_the_longest_chains_it_accepts() {
    let product = format!("1{}", "*1".repeat((MAX_LINE - 1) / 2));
    assert!(product.chars().count() <= MAX_LINE);
    assert_eq!(calculate(&product), Reading::Value(1));
    let mixed = format!("2{}", "*1+1".repeat((MAX_LINE - 1) / 4));
    assert!(mixed.chars().count() <= MAX_LINE);
    assert_eq!(calculate(&mixed), Reading::Value(2 + ((MAX_LINE - 1) / 4) as u32));
    let spaced = format!("1{}", " + 1".repeat((MAX_LINE - 1) / 4));
    assert_eq!(calculate(&spaced), Reading::Value(1 + ((MAX_LINE - 1) / 4) as u32));
}
