use search_aggregator::token::Operator;
use search_aggregator::token::Paren;
use search_aggregator::token::Token;
use search_aggregator::tokenizer::Tokenizer;

fn check_equal(input: &str, expected: Vec<Token>) {
    assert_eq!(expected, Tokenizer::tokenize(input.to_string()).unwrap());
}

#[test]
fn tokenizer_test1() {
    check_equal("", vec![]);
}

#[test]
fn tokenizer_test2() {
    check_equal(
        "()",
        vec![Token::Paren(Paren::Left), Token::Paren(Paren::Right)],
    );
}

#[test]
fn tokenizer_test3() {
    check_equal(
        "    1  2 3 + 4 // *-",
        vec![
            Token::Number(1),
            Token::Number(2),
            Token::Number(3),
            Token::Operator(Operator::Plus),
            Token::Number(4),
            Token::Operator(Operator::Slash),
            Token::Operator(Operator::Slash),
            Token::Operator(Operator::Star),
            Token::Operator(Operator::Minus),
        ],
    )
}

#[test]
fn tokenizer_rejects_unknown_character() {
    assert_eq!(
        Err("Unexpected token 'a'".to_string()),
        Tokenizer::tokenize("2 + a".to_string())
    );
}

#[test]
fn tokenizer_rejects_overflowing_number() {
    assert_eq!(
        Err("number too large to fit in target type".to_string()),
        Tokenizer::tokenize("99999999999999".to_string())
    );
}

#[test]
fn tokenizer_accepts_max_u32() {
    check_equal("4294967295", vec![Token::Number(u32::MAX)]);
}

#[test]
fn tokenizer_handles_number_at_end_and_tabs() {
    check_equal(
        "\t12\n34",
        vec![Token::Number(12), Token::Number(34)],
    );
}
