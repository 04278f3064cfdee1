use std::fmt::Debug;

use search_aggregator::calc_visitor::CalcVisitor;
use search_aggregator::parser_visitor::ParserVisitor;
use search_aggregator::print_visitor::PrintVisitor;
use search_aggregator::token::Operator;
use search_aggregator::token::Token;
use search_aggregator::token::TokenListVisitor;
use search_aggregator::tokenizer::Tokenizer;

fn check_equal<Visitor>(input: &str, output_expected: Visitor::Output)
where
    Visitor: TokenListVisitor,
    Visitor::Output: Eq + Debug,
    Visitor::Error: Debug,
{
    let tokens = Tokenizer::tokenize(input.to_string()).unwrap();
    println!("{:?}", tokens);
    let out = Visitor::visit_tokens(tokens).unwrap();
    assert_eq!(output_expected, out);
}

fn expect_fails<Visitor>(input: &str)
where
    Visitor: TokenListVisitor,
    Visitor::Output: Debug,
{
    let tokens = Tokenizer::tokenize(input.to_string()).unwrap();
    Visitor::visit_tokens(tokens).expect_err("expected error, but result found");
}

#[test]
fn calc_visitor_test1() {
    check_equal::<CalcVisitor>("2 3 +", 5)
}

#[test]
fn calc_visitor_test2() {
    check_equal::<CalcVisitor>("3 4 - 5 2 / +", 1)
}

#[test]
fn parser_visitor_test1() {
    check_equal::<ParserVisitor>("", vec![]);
}

#[test]
fn parser_visitor_test2() {
    expect_fails::<ParserVisitor>(")")
}

#[test]
fn parser_visitor_test3() {
    expect_fails::<ParserVisitor>("3(+-4)")
}

#[test]
fn test4() {
    check_equal::<ParserVisitor>(
        "2 + 3",
        vec![
            Token::Number(2),
            Token::Number(3),
            Token::Operator(Operator::Plus),
        ],
    )
}

#[test]
fn test5() {
    check_equal::<ParserVisitor>(
        "3 - 4 + 5 / 2",
        vec![
            Token::Number(3),
            Token::Number(4),
            Token::Operator(Operator::Minus),
            Token::Number(5),
            Token::Number(2),
            Token::Operator(Operator::Slash),
            Token::Operator(Operator::Plus),
        ],
    )
}

#[test]
fn test() {
    let tokens = Tokenizer::tokenize("1 + 2 * 3 - 8".to_string()).unwrap();
    let tokens = ParserVisitor::visit_tokens(tokens).unwrap();
    let line = PrintVisitor::visit_tokens(tokens).unwrap();
    println!("{}", line);
    assert_eq!("1 2 3 * + 8 - ", line);
}

#[test]
fn calc_rejects_parenthesis_in_rpn() {
    expect_fails::<CalcVisitor>("( 1 2 +");
}

#[test]
fn calc_rejects_missing_argument() {
    expect_fails::<CalcVisitor>("1 +");
}

#[test]
fn calc_rejects_division_by_zero() {
    expect_fails::<CalcVisitor>("1 0 /");
}

#[test]
fn calc_rejects_overflow() {
    expect_fails::<CalcVisitor>("2000000000 2000000000 +");
}

#[test]
fn calc_rejects_leftover_stack() {
    expect_fails::<CalcVisitor>("1 2");
}

#[test]
fn calc_errors_carry_the_expected_texts() {
    let err = |input: &str| {
        let tokens = Tokenizer::tokenize(input.to_string()).unwrap();
        CalcVisitor::visit_tokens(tokens).unwrap_err()
    };
    assert_eq!("No parenthesis in RPN expected", err("( 1 2 +"));
    assert_eq!("expected argument", err("1 +"));
    assert_eq!("Division by zero", err("1 0 /"));
    assert_eq!("arithmetic overflow", err("2000000000 2000000000 +"));
    assert_eq!("Unexpected elements left in evaluation stack", err("1 2"));
    assert_eq!("Unexpected empty evaluation stack", err(""));
}

#[test]
fn parser_error_carries_the_expected_text() {
    let tokens = Tokenizer::tokenize(")".to_string()).unwrap();
    assert_eq!(
        Err("Unexpected ')'".to_string()),
        ParserVisitor::visit_tokens(tokens)
    );
}

#[test]
fn print_renders_numbers_and_operators() {
    let tokens = Tokenizer::tokenize("40 2 +".to_string()).unwrap();
    let line = PrintVisitor::visit_tokens(tokens).unwrap();
    assert_eq!("40 2 + ", line);
}
