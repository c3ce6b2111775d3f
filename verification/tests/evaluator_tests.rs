use orca::ast::ast::{
    ASTNode, BinaryExpression, BinaryOperator, FunctionCall, IfStatement, VariableExpression,
};
use orca::ast::evaluator::{ASTEvaluator, EvalError};
use orca::ast::symbol::Symbol;
use orca::parser::Parser;
use orca::token::TokenType;

fn num(x: i64) -> TokenType {
    TokenType::Number(x)
}

fn ident(s: &str) -> TokenType {
    TokenType::Identifier(s.to_string())
}

fn eval_tokens(tokens: Vec<TokenType>) -> Result<Vec<Option<Symbol>>, EvalError> {
    let program = Parser::new(tokens).parse().expect("parse failed");
    ASTEvaluator::new().eval(program)
}

/// func add(p, q) {\n return p + q\n}
fn add_definition() -> Vec<TokenType> {
    vec![
        ident("func"),
        ident("add"),
        TokenType::OpenParenthesis,
        ident("p"),
        TokenType::Comma,
        ident("q"),
        TokenType::CloseParenthesis,
        TokenType::OpenBraces,
        TokenType::Newline,
        ident("return"),
        ident("p"),
        TokenType::Plus,
        ident("q"),
        TokenType::Newline,
        TokenType::CloseBraces,
    ]
}

#[test]
fn function_call_returns_value() {
    let mut tokens = add_definition();
    tokens.push(TokenType::Newline);
    tokens.extend(vec![
        ident("add"),
        TokenType::OpenParenthesis,
        num(2),
        TokenType::Comma,
        num(3),
        TokenType::CloseParenthesis,
    ]);
    let results = eval_tokens(tokens).expect("evaluation failed");
    assert_eq!(results.len(), 2);
    assert!(results[0].is_none());
    assert!(matches!(results[1], Some(Symbol::Number(5))));
}

#[test]
fn extra_call_arguments_are_ignored() {
    let mut tokens = add_definition();
    tokens.push(TokenType::Newline);
    tokens.extend(vec![
        ident("add"),
        TokenType::OpenParenthesis,
        num(2),
        TokenType::Comma,
        num(3),
        TokenType::Comma,
        num(9),
        TokenType::CloseParenthesis,
    ]);
    let results = eval_tokens(tokens).expect("evaluation failed");
    assert!(matches!(results[1], Some(Symbol::Number(5))));
}

#[test]
fn too_few_call_arguments_fail_with_arity_error() {
    let mut tokens = add_definition();
    tokens.push(TokenType::Newline);
    tokens.extend(vec![
        ident("add"),
        TokenType::OpenParenthesis,
        num(2),
        TokenType::CloseParenthesis,
    ]);
    assert_eq!(eval_tokens(tokens).unwrap_err(), EvalError::ArityMismatch(2, 1));
}

#[test]
fn body_without_return_yields_no_value() {
    // func foo() {\nx = 1\n}\nfoo()
    let tokens = vec![
        ident("func"),
        ident("foo"),
        TokenType::OpenParenthesis,
        TokenType::CloseParenthesis,
        TokenType::OpenBraces,
        TokenType::Newline,
        ident("x"),
        TokenType::Equals,
        num(1),
        TokenType::Newline,
        TokenType::CloseBraces,
        TokenType::Newline,
        ident("foo"),
        TokenType::OpenParenthesis,
        TokenType::CloseParenthesis,
    ];
    let results = eval_tokens(tokens).expect("evaluation failed");
    assert_eq!(results.len(), 2);
    assert!(results[1].is_none());
}

#[test]
fn unbound_name_fails() {
    let r = eval_tokens(vec![ident("y")]);
    assert_eq!(r.unwrap_err(), EvalError::UnboundName("y".to_string()));
}

#[test]
fn calling_a_number_fails_as_not_callable() {
    let tokens = vec![
        ident("x"),
        TokenType::Equals,
        num(1),
        TokenType::Newline,
        ident("x"),
        TokenType::OpenParenthesis,
        num(2),
        TokenType::CloseParenthesis,
    ];
    assert_eq!(eval_tokens(tokens).unwrap_err(), EvalError::NotCallable("x".to_string()));
}

#[test]
fn division_by_zero_fails() {
    let r = eval_tokens(vec![num(1), TokenType::ForwardSlash, num(0)]);
    assert_eq!(r.unwrap_err(), EvalError::DivisionByZero);
}

#[test]
fn addition_overflow_fails() {
    let r = eval_tokens(vec![num(i64::MAX), TokenType::Plus, num(1)]);
    assert_eq!(r.unwrap_err(), EvalError::Overflow);
}

#[test]
fn power_overflow_fails() {
    let r = eval_tokens(vec![num(2), TokenType::Carat, num(64)]);
    assert_eq!(r.unwrap_err(), EvalError::Overflow);
}

#[test]
fn negative_exponent_fails() {
    let r = eval_tokens(vec![
        num(2),
        TokenType::Carat,
        TokenType::OpenParenthesis,
        TokenType::Minus,
        num(1),
        TokenType::CloseParenthesis,
    ]);
    assert_eq!(r.unwrap_err(), EvalError::NegativeExponent);
}

#[test]
fn unbounded_recursion_hits_the_depth_limit() {
    // func f() {\nreturn f()\n}\nf()
    let tokens = vec![
        ident("func"),
        ident("f"),
        TokenType::OpenParenthesis,
        TokenType::CloseParenthesis,
        TokenType::OpenBraces,
        TokenType::Newline,
        ident("return"),
        ident("f"),
        TokenType::OpenParenthesis,
        TokenType::CloseParenthesis,
        TokenType::Newline,
        TokenType::CloseBraces,
        TokenType::Newline,
        ident("f"),
        TokenType::OpenParenthesis,
        TokenType::CloseParenthesis,
    ];
    assert_eq!(eval_tokens(tokens).unwrap_err(), EvalError::DepthLimit);
}

fn bool_node(value: bool) -> ASTNode {
    // the parser never yields booleans; comparisons do
    ASTNode::BinaryExpression(BinaryExpression {
        left: Box::new(ASTNode::Number(if value { 1 } else { 0 })),
        operator: BinaryOperator::DoubleEquals,
        right: Box::new(ASTNode::Number(1)),
    })
}

#[test]
fn number_comparisons_yield_booleans() {
    let program = ASTNode::Program(vec![ASTNode::BinaryExpression(BinaryExpression {
        left: Box::new(ASTNode::Number(2)),
        operator: BinaryOperator::GreaterThan,
        right: Box::new(ASTNode::Number(1)),
    })]);
    let results = ASTEvaluator::new().eval(program).expect("evaluation failed");
    assert!(matches!(results[0], Some(Symbol::Boolean(true))));
}

#[test]
fn booleans_support_only_equality() {
    let program = ASTNode::Program(vec![ASTNode::BinaryExpression(BinaryExpression {
        left: Box::new(bool_node(true)),
        operator: BinaryOperator::GreaterThan,
        right: Box::new(bool_node(false)),
    })]);
    assert_eq!(ASTEvaluator::new().eval(program).unwrap_err(), EvalError::TypeMismatch);
}

#[test]
fn comparing_number_to_boolean_is_a_type_error() {
    let program = ASTNode::Program(vec![ASTNode::BinaryExpression(BinaryExpression {
        left: Box::new(bool_node(true)),
        operator: BinaryOperator::DoubleEquals,
        right: Box::new(ASTNode::Number(2)),
    })]);
    assert_eq!(ASTEvaluator::new().eval(program).unwrap_err(), EvalError::TypeMismatch);
}

#[test]
fn arithmetic_on_booleans_is_a_type_error() {
    let program = ASTNode::Program(vec![ASTNode::BinaryExpression(BinaryExpression {
        left: Box::new(bool_node(true)),
        operator: BinaryOperator::Plus,
        right: Box::new(ASTNode::Number(2)),
    })]);
    assert_eq!(ASTEvaluator::new().eval(program).unwrap_err(), EvalError::TypeMismatch);
}

#[test]
fn truthy_if_runs_consequence_in_a_discarded_scope() {
    // if 1 { x = 5 }; the binding must not leak out of the consequence
    let program = ASTNode::Program(vec![
        ASTNode::IfStatement(IfStatement {
            condition: Box::new(ASTNode::Number(1)),
            consequence: vec![ASTNode::VariableExpression(VariableExpression {
                name: "x".to_string(),
                value: Box::new(ASTNode::Number(5)),
            })],
            alternative: None,
        }),
        ASTNode::Variable("x".to_string()),
    ]);
    assert_eq!(
        ASTEvaluator::new().eval(program).unwrap_err(),
        EvalError::UnboundName("x".to_string())
    );
}

#[test]
fn falsy_if_skips_its_consequence() {
    let program = ASTNode::Program(vec![ASTNode::IfStatement(IfStatement {
        condition: Box::new(ASTNode::Number(0)),
        consequence: vec![ASTNode::Variable("missing".to_string())],
        alternative: None,
    })]);
    let results = ASTEvaluator::new().eval(program).expect("evaluation failed");
    assert_eq!(results.len(), 1);
    assert!(results[0].is_none());
}

#[test]
fn alternative_branch_is_never_evaluated() {
    let program = ASTNode::Program(vec![ASTNode::IfStatement(IfStatement {
        condition: Box::new(ASTNode::Number(0)),
        consequence: vec![],
        alternative: Some(vec![ASTNode::Variable("missing".to_string())]),
    })]);
    assert!(ASTEvaluator::new().eval(program).is_ok());
}

#[test]
fn valueless_assignment_binds_nothing() {
    // func foo() {\n}\nx = foo()\nx - assignment of a valueless call is
    // silently ignored, so the reference fails
    let tokens = vec![
        ident("func"),
        ident("foo"),
        TokenType::OpenParenthesis,
        TokenType::CloseParenthesis,
        TokenType::OpenBraces,
        TokenType::Newline,
        TokenType::CloseBraces,
        TokenType::Newline,
        ident("x"),
        TokenType::Equals,
        ident("foo"),
        TokenType::OpenParenthesis,
        TokenType::CloseParenthesis,
        TokenType::Newline,
        ident("x"),
    ];
    assert_eq!(eval_tokens(tokens).unwrap_err(), EvalError::UnboundName("x".to_string()));
}

#[test]
fn return_nested_in_if_does_not_end_the_call() {
    // func g() {\nif 1 {\nreturn 5\n}\n}\ng() - a return below the top
    // level of the body only ends that statement list
    let program = ASTNode::Program(vec![
        ASTNode::FunctionExpression(std::rc::Rc::new(orca::ast::ast::FunctionExpression {
            name: "g".to_string(),
            body: vec![ASTNode::IfStatement(IfStatement {
                condition: Box::new(ASTNode::Number(1)),
                consequence: vec![ASTNode::ReturnExpression(Box::new(ASTNode::Number(5)))],
                alternative: None,
            })],
            args: vec![],
        })),
        ASTNode::FunctionCall(FunctionCall { name: "g".to_string(), args: vec![] }),
    ]);
    let results = ASTEvaluator::new().eval(program).expect("evaluation failed");
    assert!(results[1].is_none());
}

#[test]
fn unary_minus_on_a_boolean_yields_no_value() {
    let program = ASTNode::Program(vec![ASTNode::UnaryExpression(Box::new(bool_node(true)))]);
    let results = ASTEvaluator::new().eval(program).expect("evaluation failed");
    assert!(results[0].is_none());
}
