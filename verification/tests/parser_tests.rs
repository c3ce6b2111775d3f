use orca::ast::evaluator::ASTEvaluator;
use orca::parser::Parser;
use orca::token::TokenType;

use orca::ast::symbol::Symbol;

fn num(x: i64) -> TokenType {
    TokenType::Number(x)
}

fn ident(s: &str) -> TokenType {
    TokenType::Identifier(s.to_string())
}

/// Parses and evaluates a token stream and sums every numeric statement
/// value, as the original expression tests did over source text.
fn assert_expr(tokens: Vec<TokenType>, expected: i64) {
    let mut evaluator = ASTEvaluator::new();
    let mut acc: i64 = 0;

    let program = Parser::new(tokens).parse().expect("parse failed");
    for option in evaluator.eval(program).expect("evaluation failed") {
        if let Some(Symbol::Number(value)) = option {
            acc += value;
        }
    }

    assert_eq!(expected, acc);
}

#[test]
fn expressions() {
    assert_expr(vec![num(2)], 2);
    assert_expr(vec![num(1), TokenType::Plus, num(2)], 3);
    assert_expr(vec![TokenType::Minus, num(2)], -2);
    assert_expr(vec![num(1), TokenType::Plus, num(2), TokenType::Asterisk, num(3)], 7);
    assert_expr(vec![num(3), TokenType::Asterisk, num(2), TokenType::Plus, num(1)], 7);
    assert_expr(vec![num(2), TokenType::Carat, num(3), TokenType::Plus, num(1)], 9);
    assert_expr(
        vec![num(12), TokenType::ForwardSlash, num(2), TokenType::ForwardSlash, num(3)],
        2,
    );
    assert_expr(
        vec![
            TokenType::OpenParenthesis,
            num(1),
            TokenType::Plus,
            num(2),
            TokenType::CloseParenthesis,
            TokenType::Asterisk,
            num(3),
        ],
        9,
    );
    assert_expr(
        vec![
            TokenType::OpenParenthesis,
            TokenType::Minus,
            num(2),
            TokenType::CloseParenthesis,
            TokenType::Carat,
            num(2),
        ],
        4,
    );
    assert_expr(vec![TokenType::Minus, num(2), TokenType::Carat, num(2)], -4);
}

#[test]
fn expression_statements() {
    assert_expr(
        vec![
            ident("x"),
            TokenType::Equals,
            num(2),
            TokenType::Asterisk,
            num(3),
            TokenType::Newline,
            ident("x"),
            TokenType::Plus,
            num(3),
        ],
        9,
    );
}

#[test]
fn functions() {
    assert_expr(
        vec![
            ident("func"),
            ident("foo"),
            TokenType::OpenParenthesis,
            TokenType::CloseParenthesis,
            TokenType::OpenBraces,
            TokenType::Newline,
            ident("x"),
            TokenType::Equals,
            num(1),
            TokenType::Newline,
            TokenType::CloseBraces,
        ],
        0,
    );
}

#[test]
fn caret_is_right_associative() {
    // 2 ^ 3 ^ 2 groups as 2 ^ (3 ^ 2) = 512, not (2 ^ 3) ^ 2 = 64
    assert_expr(vec![num(2), TokenType::Carat, num(3), TokenType::Carat, num(2)], 512);
}

#[test]
fn unary_minus_binds_between_mul_and_caret() {
    // -2 * 3 groups as (-2) * 3
    assert_expr(vec![TokenType::Minus, num(2), TokenType::Asterisk, num(3)], -6);
}

#[test]
fn left_associative_division() {
    // 12 / 2 / 3 groups as (12 / 2) / 3
    assert_expr(
        vec![num(100), TokenType::Minus, num(10), TokenType::Minus, num(5)],
        85,
    );
}

#[test]
fn assignment_produces_no_value() {
    let tokens = vec![ident("x"), TokenType::Equals, num(7)];
    let program = Parser::new(tokens).parse().expect("parse failed");
    let mut evaluator = ASTEvaluator::new();
    let results = evaluator.eval(program).expect("evaluation failed");
    assert_eq!(results.len(), 1);
    assert!(results[0].is_none());
}

#[test]
fn syntax_error_reports_position() {
    // a dangling operator fails at the missing operand
    let r = Parser::new(vec![num(1), TokenType::Plus]).parse();
    assert_eq!(r.unwrap_err().at, 2);
    // a missing closing parenthesis fails at end of input
    let r = Parser::new(vec![TokenType::OpenParenthesis, num(1)]).parse();
    assert_eq!(r.unwrap_err().at, 2);
}

#[test]
fn statements_need_newline_separators() {
    let r = Parser::new(vec![num(1), num(2)]).parse();
    assert!(r.is_err());
}
